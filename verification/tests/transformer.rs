use celld::domain::mapping::{HeaderMapping, MappingSource, EXACT_SCORE};
use celld::domain::template::{TemplateColumn, TemplateSchema};
use celld::excel::transformer::ExcelTransformer;

fn template() -> TemplateSchema {
    TemplateSchema {
        id: "t1".into(),
        file_name: "t.xlsx".into(),
        file_path: "t.xlsx".into(),
        sheet_name: "Sheet1".into(),
        header_start_row: 1,
        header_end_row: 1,
        data_start_row: 2,
        columns: vec![
            TemplateColumn {
                index: 0,
                name: "姓名".into(),
                normalized_name: "姓名".into(),
                path: None,
            },
            TemplateColumn {
                index: 1,
                name: "手机号码".into(),
                normalized_name: "手机号码".into(),
                path: None,
            },
        ],
    }
}

fn mapping(
    source_index: usize,
    source_header: &str,
    target_index: Option<usize>,
    target_header: Option<&str>,
    source: MappingSource,
) -> HeaderMapping {
    HeaderMapping {
        source_column_index: source_index,
        source_header: source_header.into(),
        normalized_source_header: source_header.into(),
        target_column_index: target_index,
        target_header: target_header.map(String::from),
        score: target_index.map(|_| EXACT_SCORE),
        source,
        candidates: vec![],
    }
}

#[test]
fn rearranges_columns_to_template_order() {
    let mappings = vec![
        mapping(0, "联系电话", Some(1), Some("手机号码"), MappingSource::Alias),
        mapping(1, "姓名", Some(0), Some("姓名"), MappingSource::Exact),
    ];
    let rows = vec![vec!["13812345678".into(), "张三".into()]];
    let out = ExcelTransformer::transform(&rows, &mappings, &template());
    assert_eq!(out, vec![vec!["张三".to_string(), "13812345678".to_string()]]);
}

#[test]
fn appends_rows_from_two_sources_into_template_columns() {
    let template = template();
    let map_a = vec![mapping(0, "用户姓名", Some(0), Some("姓名"), MappingSource::Alias)];
    let map_b = vec![
        mapping(1, "姓名", Some(0), Some("姓名"), MappingSource::Exact),
        mapping(0, "电话", Some(1), Some("手机号码"), MappingSource::Alias),
    ];
    let mut merged = ExcelTransformer::transform(
        &vec![vec!["张三".into(), "ignored".into()]],
        &map_a,
        &template,
    );
    merged.extend(ExcelTransformer::transform(
        &vec![vec!["13900000000".into(), "李四".into()]],
        &map_b,
        &template,
    ));
    assert_eq!(
        merged,
        vec![
            vec!["张三".to_string(), String::new()],
            vec!["李四".to_string(), "13900000000".to_string()],
        ]
    );
}

#[test]
fn later_mapping_onto_a_column_wins_and_out_of_range_targets_feed_nothing() {
    let mappings = vec![
        mapping(0, "a", Some(0), Some("姓名"), MappingSource::Manual),
        mapping(1, "b", Some(0), Some("姓名"), MappingSource::Manual),
        mapping(2, "c", Some(5), Some("x"), MappingSource::Manual),
    ];
    let rows = vec![vec!["A".into(), "B".into(), "C".into()], vec!["only".into()]];
    let out = ExcelTransformer::transform(&rows, &mappings, &template());
    assert_eq!(
        out,
        vec![vec!["B".to_string(), String::new()], vec![String::new(), String::new()]]
    );
}

#[test]
fn labeled_rows_end_with_their_source() {
    let mappings = vec![mapping(0, "姓名", Some(0), Some("姓名"), MappingSource::Exact)];
    let labeled = template().with_source_column();
    assert_eq!(labeled.columns.len(), 3);
    assert_eq!(labeled.columns[2].name, "来源");
    assert_eq!(labeled.columns[2].index, 2);
    let out = ExcelTransformer::transform_labeled(
        &vec![vec!["张三".into()]],
        &mappings,
        &labeled,
        &"a.xlsx".to_string(),
    );
    assert_eq!(
        out,
        vec![vec!["张三".to_string(), String::new(), String::new(), "a.xlsx".to_string()]]
    );
}

#[test]
fn columns_keep_their_header_positions_past_the_column_count() {
    // A header row with a blank cell: the second column sits at index 2.
    let mut template = template();
    template.columns[1].index = 2;
    let mappings = vec![
        mapping(0, "姓名", Some(0), Some("姓名"), MappingSource::Exact),
        mapping(1, "手机号码", Some(2), Some("手机号码"), MappingSource::Exact),
    ];
    let rows = vec![vec!["张三".into(), "13812345678".into()]];
    let out = ExcelTransformer::transform(&rows, &mappings, &template);
    assert_eq!(out, vec![vec!["张三".to_string(), "13812345678".to_string()]]);
}
