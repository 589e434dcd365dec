use celld::domain::template::{TemplateColumn, TemplateSchema};
use celld::embedding::mock::{hash_unit, MockEmbeddingProvider, DIM};
use celld::excel::writer::{sanitize_sheet_name, ExcelWriter};

#[test]
fn sheet_names_lose_forbidden_characters() {
    assert_eq!(sanitize_sheet_name("a:b/c"), "a b c");
    assert_eq!(sanitize_sheet_name(" [?*] "), "Sheet1");
    assert_eq!(sanitize_sheet_name(""), "Sheet1");
    let long = "x".repeat(40);
    assert_eq!(sanitize_sheet_name(&long), "x".repeat(31));
    assert_eq!(sanitize_sheet_name("汇总"), "汇总");
}

#[test]
fn written_sheet_starts_with_the_column_names() {
    let template = TemplateSchema {
        id: "t".into(),
        file_name: "t.xlsx".into(),
        file_path: "t.xlsx".into(),
        sheet_name: "S".into(),
        header_start_row: 1,
        header_end_row: 1,
        data_start_row: 2,
        columns: vec![
            TemplateColumn { index: 0, name: "姓名".into(), normalized_name: "姓名".into(), path: None },
            TemplateColumn { index: 1, name: "来源".into(), normalized_name: "来源".into(), path: None },
        ],
    };
    let rows = ExcelWriter::sheet_rows(&template, &vec![vec!["张三".into(), "a.xlsx".into()]]);
    assert_eq!(
        rows,
        vec![
            vec!["姓名".to_string(), "来源".to_string()],
            vec!["张三".to_string(), "a.xlsx".to_string()],
        ]
    );
}

#[test]
fn fnv_hash_matches_reference_values() {
    // The empty text hashes to the offset basis the encoder uses.
    assert_eq!(hash_unit("") as u64, 1469598103934665603);
    assert_eq!(hash_unit("a") as u64, 0x44bd8ad473cd9906);
    assert_eq!(hash_unit("a") % DIM, 6);
}

#[test]
fn mock_features_skip_white_space() {
    let (uni, bi) = MockEmbeddingProvider::features("a b");
    assert_eq!(uni.len(), 2);
    assert_eq!(bi.len(), 1);
    assert_eq!(uni, vec![6, 83]);
    assert_eq!(bi, vec![108]);
    let (uni, bi) = MockEmbeddingProvider::features("  ");
    assert!(uni.is_empty() && bi.is_empty());
    let p = MockEmbeddingProvider;
    assert_eq!(p.model_version(), "mock-ngram@v1");
    assert_eq!(p.backend_name(), "mock");
}
