use celld::commands::convert::{
    check_sessions, merged_name_for_stem, merged_output_file_name, output_file,
    resolve_output_path, rows_from, source_labels,
};
use celld::commands::import::{check_unique_targets, source_columns_at};
use celld::commands::template::{
    build_template, header_row_cells, requested_sheet, template_columns_from, template_texts,
};
use celld::domain::import_session::{ImportSession, ImportStatus};
use celld::domain::mapping::{HeaderMapping, MappingSource, EXACT_SCORE};
use celld::domain::template::{
    ConfirmTemplateRequest, ExcelPreview, TemplateColumn, TemplateSchema,
};
use celld::error::AppError;
use celld::excel::reader::{ensure_excel, ExcelReader, SheetData};
use celld::mapping::history::history_records;

fn mapping(source_index: usize, source_header: &str, target: Option<(usize, &str)>) -> HeaderMapping {
    HeaderMapping {
        source_column_index: source_index,
        source_header: source_header.into(),
        normalized_source_header: source_header.into(),
        target_column_index: target.map(|t| t.0),
        target_header: target.map(|t| t.1.to_string()),
        score: target.map(|_| EXACT_SCORE),
        source: if target.is_some() { MappingSource::Exact } else { MappingSource::Unmatched },
        candidates: vec![],
    }
}

fn template() -> TemplateSchema {
    TemplateSchema {
        id: "tmpl".into(),
        file_name: "报名表.xlsx".into(),
        file_path: "报名表.xlsx".into(),
        sheet_name: "汇总".into(),
        header_start_row: 1,
        header_end_row: 1,
        data_start_row: 2,
        columns: ["姓名", "学号", "班级"]
            .iter()
            .enumerate()
            .map(|(i, n)| TemplateColumn {
                index: i,
                name: (*n).into(),
                normalized_name: (*n).into(),
                path: None,
            })
            .collect(),
    }
}

fn session(id: &str, file_name: &str, file_path: &str, confirmed: bool) -> ImportSession {
    ImportSession {
        id: id.into(),
        file_path: file_path.into(),
        file_name: file_name.into(),
        sheet_name: "Sheet1".into(),
        sheets: vec!["Sheet1".into()],
        header_row: 1,
        data_start_row: 2,
        source_columns: vec![],
        mappings: vec![
            mapping(0, "姓名", Some((0, "姓名"))),
            mapping(1, "学生编号", None),
        ],
        preview: ExcelPreview {
            sheet_name: "Sheet1".into(),
            header_row: 1,
            start_row: 1,
            rows: vec![],
        },
        confirmed,
        status: if confirmed { ImportStatus::Confirmed } else { ImportStatus::Pending },
        error: None,
        read_filtered_only: true,
    }
}

fn sheet(rows: &[&[&str]], hidden: &[usize]) -> SheetData {
    SheetData {
        name: "Sheet1".into(),
        rows: rows.iter().map(|r| r.iter().map(|c| c.to_string()).collect()).collect(),
        hidden_rows: hidden.to_vec(),
    }
}

#[test]
fn default_merged_name_uses_template_stem() {
    assert_eq!(merged_output_file_name("人员信息.xlsx"), "人员信息_合并.xlsx");
    assert_eq!(merged_output_file_name(""), "Celled_合并.xlsx");
}

#[test]
fn merged_name_trims_the_stem() {
    assert_eq!(merged_name_for_stem(Some("  表 ")), "表_合并.xlsx");
    assert_eq!(merged_name_for_stem(Some("   ")), "Celled_合并.xlsx");
    assert_eq!(merged_name_for_stem(None), "Celled_合并.xlsx");
    assert_eq!(merged_output_file_name("dir/名单.v2.xlsx"), "名单.v2_合并.xlsx");
}

#[test]
fn manual_mapping_to_a_free_column() {
    let template = template();
    let mut s = session("a", "a.xlsx", "/d/a.xlsx", true);
    s.apply_mapping_update(&template, 1, Some(1)).unwrap();
    assert_eq!(s.mappings[1].target_column_index, Some(1));
    assert_eq!(s.mappings[1].target_header.as_deref(), Some("学号"));
    assert_eq!(s.mappings[1].source, MappingSource::Manual);
    assert_eq!(s.mappings[1].score, None);
    assert!(!s.confirmed);
    assert_eq!(s.status, ImportStatus::Pending);
}

#[test]
fn manual_mapping_refuses_a_taken_column() {
    let template = template();
    let mut s = session("a", "a.xlsx", "/d/a.xlsx", true);
    match s.apply_mapping_update(&template, 1, Some(0)) {
        Err(AppError::MappingConflict(m)) => assert_eq!(m, "“姓名”已映射给“姓名”"),
        other => panic!("unexpected {:?}", other),
    }
    assert!(s.confirmed);
    assert_eq!(s.mappings[1].target_column_index, None);
}

#[test]
fn manual_mapping_refuses_unknown_columns() {
    let template = template();
    let mut s = session("a", "a.xlsx", "/d/a.xlsx", false);
    match s.apply_mapping_update(&template, 1, Some(9)) {
        Err(AppError::InvalidMapping(m)) => assert_eq!(m, "模板字段不存在"),
        other => panic!("unexpected {:?}", other),
    }
    match s.apply_mapping_update(&template, 9, Some(2)) {
        Err(AppError::InvalidMapping(m)) => assert_eq!(m, "源字段不存在"),
        other => panic!("unexpected {:?}", other),
    }
    match s.apply_mapping_update(&template, 9, None) {
        Err(AppError::InvalidMapping(m)) => assert_eq!(m, "源字段不存在"),
        other => panic!("unexpected {:?}", other),
    }
}

#[test]
fn clearing_a_mapping_makes_it_unmatched() {
    let template = template();
    let mut s = session("a", "a.xlsx", "/d/a.xlsx", true);
    s.apply_mapping_update(&template, 0, None).unwrap();
    assert_eq!(s.mappings[0].target_column_index, None);
    assert_eq!(s.mappings[0].target_header, None);
    assert_eq!(s.mappings[0].source, MappingSource::Unmatched);
    assert!(!s.confirmed);
}

#[test]
fn remapping_the_same_source_to_its_own_column_is_no_conflict() {
    let template = template();
    let mut s = session("a", "a.xlsx", "/d/a.xlsx", true);
    s.apply_mapping_update(&template, 0, Some(0)).unwrap();
    assert_eq!(s.mappings[0].source, MappingSource::Manual);
}

#[test]
fn confirm_refuses_duplicate_targets() {
    let ok = vec![mapping(0, "a", Some((0, "姓名"))), mapping(1, "b", Some((1, "学号")))];
    assert!(check_unique_targets(&ok).is_ok());
    let dup = vec![
        mapping(0, "a", Some((0, "姓名"))),
        mapping(1, "b", None),
        mapping(2, "c", Some((0, "姓名"))),
    ];
    match check_unique_targets(&dup) {
        Err(AppError::MappingConflict(m)) => assert_eq!(m, "“姓名”存在重复映射"),
        other => panic!("unexpected {:?}", other),
    }
    let mut nameless = mapping(2, "c", Some((0, "x")));
    nameless.target_header = None;
    match check_unique_targets(&vec![mapping(0, "a", Some((0, "姓名"))), nameless]) {
        Err(AppError::MappingConflict(m)) => assert_eq!(m, "“”存在重复映射"),
        other => panic!("unexpected {:?}", other),
    }
    let mut s = session("a", "a.xlsx", "/d/a.xlsx", false);
    s.mark_confirmed();
    assert!(s.confirmed);
    assert_eq!(s.status, ImportStatus::Confirmed);
}

#[test]
fn conversion_needs_confirmed_sessions() {
    assert!(matches!(check_sessions(&vec![]), Err(AppError::NotAllConfirmed)));
    let a = session("a", "a.xlsx", "/d/a.xlsx", true);
    let b = session("b", "b.xlsx", "/d/b.xlsx", false);
    assert!(check_sessions(&vec![Some(a.clone_for_test())]).is_ok());
    assert!(matches!(
        check_sessions(&vec![Some(a.clone_for_test()), None, Some(b.clone_for_test())]),
        Err(AppError::SessionNotFound)
    ));
    assert!(matches!(
        check_sessions(&vec![Some(b.clone_for_test()), None]),
        Err(AppError::NotAllConfirmed)
    ));
}

trait CloneForTest {
    fn clone_for_test(&self) -> Self;
}

impl CloneForTest for ImportSession {
    fn clone_for_test(&self) -> Self {
        let mut s = session(&self.id, &self.file_name, &self.file_path, self.confirmed);
        s.status = self.status;
        s
    }
}

#[test]
fn labels_name_the_source_file_and_use_paths_for_ambiguous_names() {
    let sessions = vec![
        session("a", "a.xlsx", "/x/a.xlsx", true),
        session("b", "a.xlsx", "/y/a.xlsx", true),
        session("c", "c.xlsx", "/z/c.xlsx", true),
        session("d", "", "/w/d.xlsx", true),
    ];
    let labels = source_labels(&sessions);
    assert_eq!(labels, vec!["/x/a.xlsx", "/y/a.xlsx", "c.xlsx", "d.xlsx"]);
}

#[test]
fn data_rows_start_at_the_data_row() {
    let rows: Vec<Vec<String>> = vec![vec!["h".into()], vec!["1".into()], vec!["2".into()]];
    assert_eq!(rows_from(&rows, 2), vec![vec!["1".to_string()], vec!["2".to_string()]]);
    assert_eq!(rows_from(&rows, 0), rows);
    assert!(rows_from(&rows, 9).is_empty());
}

#[test]
fn output_path_for_a_directory_gets_the_default_name() {
    let r = resolve_output_path("/tmp/out/", "名单.xlsx", true, true);
    assert_eq!(r, "/tmp/out/名单_合并.xlsx");
    let r = resolve_output_path("/tmp/missing", "/data/名单.xlsx", false, false);
    assert!(r == "/tmp/missing/名单_合并.xlsx" || r == "/tmp/missing\\名单_合并.xlsx");
    assert_eq!(merged_output_file_name("/data/人员.信息.xlsx"), "人员.信息_合并.xlsx");
    assert_eq!(merged_output_file_name("/data/.hidden"), ".hidden_合并.xlsx");
    assert_eq!(resolve_output_path("/tmp/a.XLSX", "名单.xlsx", false, false), "/tmp/a.XLSX");
    assert_eq!(resolve_output_path("/tmp/file.csv", "名单.xlsx", false, true), "/tmp/file.csv");
    assert_eq!(output_file("/".to_string()).file_name, "Celled_合并.xlsx");
    let out = output_file("/tmp/a.xlsx".to_string());
    assert_eq!(out.file_name, "a.xlsx");
    assert_eq!(out.path, "/tmp/a.xlsx");
    assert_eq!(out.session_id, "");
}

#[test]
fn source_columns_skip_blank_headers_and_take_samples() {
    let data = sheet(
        &[
            &["标题", "", ""],
            &["姓名", " ", "手机号（必填）"],
            &["张三", "x", "138"],
            &["", "y", " 139 "],
            &["李四", "z", ""],
        ],
        &[5],
    );
    let cols = source_columns_at(&data, 2, true).unwrap();
    assert_eq!(cols.len(), 2);
    assert_eq!(cols[0].index, 0);
    assert_eq!(cols[0].sample_values, vec!["张三".to_string()]);
    assert_eq!(cols[1].index, 2);
    assert_eq!(cols[1].normalized_header, "手机号");
    assert_eq!(cols[1].sample_values, vec!["138".to_string(), "139".to_string()]);
    let all = source_columns_at(&data, 2, false).unwrap();
    assert_eq!(all[0].sample_values, vec!["张三".to_string(), "李四".to_string()]);
    assert!(matches!(source_columns_at(&data, 9, true), Err(AppError::InvalidHeaderRow)));
    let blank = sheet(&[&["", " "]], &[]);
    assert!(matches!(source_columns_at(&blank, 1, true), Err(AppError::InvalidHeaderRow)));
    let hidden = sheet(&[&["a"]], &[1]);
    assert!(matches!(header_row_cells(&hidden, 1, true), Err(AppError::InvalidHeaderRow)));
    assert!(header_row_cells(&hidden, 1, false).is_ok());
    assert!(matches!(source_columns_at(&data, usize::MAX, false), Err(AppError::InvalidHeaderRow)));
}

#[test]
fn template_confirmation_builds_columns() {
    let data = sheet(&[&["姓名", "", "手机号码（必填）"], &["张三", "", "1"]], &[]);
    let request = ConfirmTemplateRequest {
        file_path: "/t/模板.xlsx".into(),
        file_name: "模板.xlsx".into(),
        sheet_name: "Sheet1".into(),
        header_row: 1,
        data_start_row: None,
    };
    let t = build_template(request, "id-1".into(), &data).unwrap();
    assert_eq!(t.id, "id-1");
    assert_eq!(t.data_start_row, 2);
    assert_eq!(t.header_start_row, 1);
    assert_eq!(t.columns.len(), 2);
    assert_eq!(t.columns[1].index, 2);
    assert_eq!(t.columns[1].normalized_name, "手机号码");
    assert_eq!(template_texts(&t), vec!["姓名".to_string(), "手机号码".to_string()]);
    let request = ConfirmTemplateRequest {
        file_path: "/t/模板.xlsx".into(),
        file_name: "模板.xlsx".into(),
        sheet_name: "Sheet1".into(),
        header_row: 2,
        data_start_row: Some(5),
    };
    assert_eq!(build_template(request, "id-2".into(), &data).unwrap().data_start_row, 5);
    assert!(matches!(template_columns_from(&vec![" ".into()]), Err(AppError::HeaderNotFound)));
    let request = ConfirmTemplateRequest {
        file_path: "/t/模板.xlsx".into(),
        file_name: "模板.xlsx".into(),
        sheet_name: "Sheet1".into(),
        header_row: usize::MAX,
        data_start_row: None,
    };
    assert!(matches!(build_template(request, "id-3".into(), &data), Err(AppError::InvalidHeaderRow)));
}

#[test]
fn requested_sheet_must_exist() {
    let sheets = vec!["A".to_string(), "B".to_string()];
    assert_eq!(requested_sheet(&sheets, Some("B")), Some("B".to_string()));
    assert_eq!(requested_sheet(&sheets, Some("C")), None);
    assert_eq!(requested_sheet(&sheets, None), None);
}

#[test]
fn first_non_empty_sheet_prefers_content() {
    let names = vec!["空".to_string(), "数据".to_string(), "其他".to_string()];
    let previews = vec![
        vec![vec![" ".to_string()]],
        vec![vec!["".to_string(), "x".to_string()]],
    ];
    assert_eq!(ExcelReader::first_non_empty_sheet(&names, &previews).unwrap(), "数据");
    assert_eq!(ExcelReader::first_non_empty_sheet(&names, &vec![vec![]]).unwrap(), "空");
    assert!(matches!(
        ExcelReader::first_non_empty_sheet(&vec![], &vec![]),
        Err(AppError::EmptyWorksheet)
    ));
}

#[test]
fn workbook_paths_need_a_spreadsheet_extension() {
    assert!(ensure_excel("/a/b.XLSX", true).is_ok());
    assert!(ensure_excel("/a/b.ods", true).is_ok());
    assert!(matches!(ensure_excel("/a/b.csv", true), Err(AppError::UnsupportedExcel)));
    assert!(matches!(ensure_excel("/a/b", true), Err(AppError::UnsupportedExcel)));
    assert!(matches!(ensure_excel("/a/b.xlsx", false), Err(AppError::FileNotFound)));
    assert_eq!(ExcelReader::file_name("/a/b/名单.xlsx"), "名单.xlsx");
    assert_eq!(ExcelReader::file_name("/tmp/in/人员信息.xlsx"), "人员信息.xlsx");
    assert_eq!(ExcelReader::file_name("a/.."), "workbook.xlsx");
    assert!(ensure_excel("a/b.c/名单.Xlsm", true).is_ok());
    assert!(matches!(ensure_excel("a/.xlsx", true), Err(AppError::UnsupportedExcel)));
    assert_eq!(ExcelReader::file_name("/"), "workbook.xlsx");
}

#[test]
fn history_records_keep_mappings_with_targets() {
    let ms = vec![
        mapping(0, "组织机构", Some((0, "所属单位（必填）"))),
        mapping(1, "备注", None),
    ];
    let recs = history_records(&ms);
    assert_eq!(recs.len(), 1);
    assert_eq!(recs[0].source_header, "组织机构");
    assert_eq!(recs[0].target_header, "所属单位（必填）");
    assert_eq!(recs[0].normalized_target_header, "所属单位");
}

#[test]
fn error_messages_name_the_problem() {
    assert_eq!(AppError::FileNotFound.message(), "找不到文件");
    assert_eq!(AppError::InvalidMapping("x".into()).message(), "映射无效：x");
    assert_eq!(AppError::MappingConflict("冲突".into()).message(), "冲突");
    assert_eq!(AppError::NotAllConfirmed.message(), "仍有文件未确认映射，无法开始转换");
    assert_eq!(AppError::ExcelWriteError("e".into()).message(), "Excel 写入失败：e");
}

#[test]
fn new_sessions_are_pending_until_confirmed() {
    let preview = ExcelPreview { sheet_name: "S".into(), header_row: 2, start_row: 1, rows: vec![] };
    let s = ImportSession::pending(
        "s1".into(),
        "/data/a.xlsx".into(),
        "a.xlsx".into(),
        "S".into(),
        vec!["S".into()],
        2,
        vec![],
        vec![],
        preview,
        true,
    )
    .unwrap();
    assert!(!s.confirmed);
    assert_eq!(s.status, ImportStatus::Pending);
    assert_eq!(s.error, None);
    assert_eq!(s.data_start_row, 3);
    let preview = ExcelPreview { sheet_name: "S".into(), header_row: 0, start_row: 1, rows: vec![] };
    let refused = ImportSession::pending(
        "s2".into(),
        "a.xlsx".into(),
        "a.xlsx".into(),
        "S".into(),
        vec![],
        usize::MAX,
        vec![],
        vec![],
        preview,
        false,
    );
    assert!(matches!(refused, Err(AppError::InvalidHeaderRow)));
}
