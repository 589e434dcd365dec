use celld::excel::header_detector::{
    is_numeric_like, looks_like_title, nonempty_cells, ExtraColumns, HeaderDetector,
};
use celld::excel::preview::{build_preview, headers_at, sample_values, visible_data_rows};
use celld::excel::reader::SheetData;
use celld::excel::visibility::{
    attr_key_names, is_hidden_value, normalize_sheet_path, parse_row_number,
};

fn rows(cells: &[&[&str]]) -> Vec<Vec<String>> {
    cells.iter().map(|r| r.iter().map(|c| c.to_string()).collect()).collect()
}

#[test]
fn hidden_attribute_values() {
    assert!(is_hidden_value("1"));
    assert!(is_hidden_value("true"));
    assert!(is_hidden_value("TRUE"));
    assert!(!is_hidden_value("0"));
    assert!(!is_hidden_value("yes"));
    assert!(!is_hidden_value(" 1"));
}

#[test]
fn row_numbers_read_as_usize_does() {
    assert_eq!(parse_row_number("2"), Some(2));
    assert_eq!(parse_row_number("+17"), Some(17));
    assert_eq!(parse_row_number(""), None);
    assert_eq!(parse_row_number("-1"), None);
    assert_eq!(parse_row_number("1a"), None);
    assert_eq!(parse_row_number("99999999999999999999999"), None);
    assert_eq!(parse_row_number(&usize::MAX.to_string()), Some(usize::MAX));
}

#[test]
fn sheet_paths_inside_the_archive() {
    assert_eq!(normalize_sheet_path("worksheets/sheet1.xml"), "xl/worksheets/sheet1.xml");
    assert_eq!(normalize_sheet_path("/xl/worksheets/sheet2.xml"), "xl/worksheets/sheet2.xml");
    assert_eq!(normalize_sheet_path("//x.xml"), "x.xml");
    assert!(attr_key_names("id", "id"));
    assert!(attr_key_names("r:id", "id"));
    assert!(!attr_key_names("rid", "id"));
}

#[test]
fn numbers_and_text_in_cells() {
    assert!(is_numeric_like("42"));
    assert!(is_numeric_like(" -3.5e2 "));
    assert!(is_numeric_like("inf"));
    assert!(is_numeric_like("138-1234-5678"));
    assert!(!is_numeric_like("姓名"));
    assert!(!is_numeric_like(""));
    assert!(!is_numeric_like("A1B2"));
}

#[test]
fn row_features_of_a_title_and_a_header() {
    let sheet = rows(&[
        &["2026 年人员信息表"],
        &["姓名", "手机号", "部门"],
        &["张三", "13812345678", "技术部"],
    ]);
    assert_eq!(HeaderDetector::scan_len(&sheet), 3);
    let title = HeaderDetector::row_features(&sheet, 0, 3);
    assert!(title.looks_like_title);
    assert_eq!(title.nonempty, 1);
    let header = HeaderDetector::row_features(&sheet, 1, 3);
    assert!(!header.looks_like_title);
    assert_eq!(header.nonempty, 3);
    assert_eq!(header.text_cells, 3);
    assert_eq!(header.unique_cells, 3);
    assert_eq!(header.consecutive, 3);
    assert!(header.has_next);
    assert_eq!(header.type_hits, 1);
    assert_eq!(header.type_compared, 3);
    assert_eq!(header.similar_below, 1);
    assert_eq!(header.extra_columns, ExtraColumns::Close);
    assert_eq!(HeaderDetector::headers_of(&sheet, 1), vec!["姓名", "手机号", "部门"]);
}

#[test]
fn previews_show_rows_around_the_header() {
    let data: Vec<Vec<String>> = (1..=20).map(|i| vec![format!("r{i}")]).collect();
    let sheet = SheetData { name: "S".into(), rows: data, hidden_rows: vec![4] };
    let p = build_preview(&sheet, 5, true);
    assert_eq!(p.start_row, 3);
    assert_eq!(p.header_row, 5);
    let shown: Vec<String> = p.rows.iter().map(|r| r[0].clone()).collect();
    assert_eq!(shown, vec!["r3", "r5", "r6", "r7", "r8", "r9", "r10", "r11", "r12"]);
    assert_eq!(build_preview(&sheet, 5, false).rows.len(), 10);
    assert_eq!(build_preview(&sheet, 0, false).start_row, 1);
    assert_eq!(headers_at(&sheet, 5, true).unwrap(), vec!["r5"]);
    assert!(headers_at(&sheet, 4, true).is_err());
    assert!(headers_at(&sheet, 21, false).is_err());
    assert_eq!(sample_values(&sheet, 3, 0, 2, true), vec!["r3", "r5"]);
    assert_eq!(visible_data_rows(&sheet, 19, true).len(), 2);
    assert_eq!(visible_data_rows(&sheet, 3, true).len(), 17);
}

#[test]
fn title_rows_are_short_rows_above_wider_ones_or_long_single_cells() {
    let sheet = rows(&[
        &["某某公司", ""],
        &["2026 年人员导入数据"],
        &["姓名", "手机号", "部门"],
        &["张三", "13812345678", "技术部"],
        &["备注", "无"],
    ]);
    let title = |i: usize, scan: usize| looks_like_title(&sheet, &nonempty_cells(&sheet[i]), i, scan);
    assert!(title(0, 5));
    assert!(title(1, 5));
    assert!(!title(2, 5));
    // Without the wider rows in reach, a short cell is no title, a long one still is.
    assert!(!title(0, 2));
    assert!(title(1, 2));
    // Two cells, with no row two cells wider among the next three.
    assert!(!title(4, 5));
}
