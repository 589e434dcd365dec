use celld::error::AppError;
use celld::excel::visibility::{
    hidden_rows_in, parse_hidden_rows, reads_hidden_rows, relationship_id_in, relationship_target,
    relationship_target_in, sheet_relationship_id,
};
use celld::excel::xml_steps::{attr_value, attr_value_by_local, xml_steps, XmlAttr, XmlStep};

const WORKBOOK: &str = r#"<?xml version="1.0" encoding="UTF-8" standalone="yes"?>
<workbook xmlns="http://schemas.openxmlformats.org/spreadsheetml/2006/main"
          xmlns:r="http://schemas.openxmlformats.org/officeDocument/2006/relationships">
  <bookViews><workbookView/></bookViews>
  <sheets>
    <sheet name="人员" sheetId="1" r:id="rId1"/>
    <sheet name="部门" sheetId="2" r:id="rId2"/>
    <sheet sheetId="3" r:id="rId9"/>
  </sheets>
</workbook>"#;

const RELS: &str = r#"<?xml version="1.0" encoding="UTF-8" standalone="yes"?>
<Relationships xmlns="http://schemas.openxmlformats.org/package/2006/relationships">
  <Relationship Id="rId3" Type="styles" Target="styles.xml"/>
  <Relationship Id="rId1" Type="worksheet" Target="worksheets/sheet1.xml"/>
  <Relationship Id="rId2" Type="worksheet" Target="/xl/worksheets/sheet2.xml"/>
  <Relationship Id="rId4" Type="worksheet"/>
</Relationships>"#;

fn attr(key: &str, value: &str) -> XmlAttr {
    XmlAttr { key: key.to_string(), value: value.to_string() }
}

fn open(local: &str, attrs: Vec<XmlAttr>) -> XmlStep {
    XmlStep::Open { local: local.to_string(), attrs }
}

#[test]
fn parses_hidden_row_numbers() {
    let xml = r#"
            <worksheet xmlns="http://schemas.openxmlformats.org/spreadsheetml/2006/main">
              <sheetData>
                <row r="1"><c/></row>
                <row r="2" hidden="1"><c/></row>
                <row r="3"><c/></row>
              </sheetData>
            </worksheet>
        "#;
    let hidden = parse_hidden_rows(xml);
    assert!(hidden.contains(&2));
    assert_eq!(hidden.len(), 1);
}

#[test]
fn hidden_rows_accept_true_in_any_case_and_count_each_row_once() {
    let xml = r#"<worksheet><sheetData>
        <row r="4" hidden="true"/>
        <row r="5" hidden="TRUE"><c r="A5"/></row>
        <row r="6" hidden="0"/>
        <row r="7"/>
        <row r="4" hidden="1"/>
        <row r="x" hidden="1"/>
        <row hidden="1"/>
        <x:row r="9" hidden="1"/>
    </sheetData></worksheet>"#;
    let mut hidden = parse_hidden_rows(xml);
    hidden.sort();
    assert_eq!(hidden, vec![4, 5, 9]);
}

#[test]
fn hidden_rows_stop_at_a_reader_failure() {
    let steps = vec![
        open("row", vec![attr("r", "2"), attr("hidden", "1")]),
        XmlStep::Fail { message: "bad".to_string() },
        open("row", vec![attr("r", "3"), attr("hidden", "1")]),
        XmlStep::Eof,
    ];
    assert_eq!(hidden_rows_in(&steps), vec![2]);
    let steps = vec![
        open("row", vec![attr("hidden", "1"), attr("r", "8")]),
        XmlStep::Close { local: "row".to_string() },
        XmlStep::Other,
        open("col", vec![attr("r", "3"), attr("hidden", "1")]),
        XmlStep::Eof,
    ];
    assert_eq!(hidden_rows_in(&steps), vec![8]);
}

#[test]
fn sheet_ids_come_from_the_sheets_element() {
    assert_eq!(sheet_relationship_id(WORKBOOK, "人员").unwrap(), "rId1");
    assert_eq!(sheet_relationship_id(WORKBOOK, "部门").unwrap(), "rId2");
    assert!(matches!(sheet_relationship_id(WORKBOOK, "汇总"), Err(AppError::SheetNotFound)));
    // A sheet without a name answers to the empty name.
    assert_eq!(sheet_relationship_id(WORKBOOK, "").unwrap(), "rId9");
}

#[test]
fn sheet_elements_outside_sheets_are_ignored() {
    let steps = vec![
        open("sheet", vec![attr("name", "A"), attr("r:id", "rIdX")]),
        open("sheets", vec![]),
        XmlStep::Close { local: "sheets".to_string() },
        open("sheet", vec![attr("name", "A"), attr("r:id", "rIdY")]),
        XmlStep::Eof,
    ];
    assert!(matches!(relationship_id_in(&steps, "A"), Err(AppError::SheetNotFound)));
    let steps = vec![
        open("sheets", vec![]),
        open("sheet", vec![attr("name", "A")]),
        open("sheet", vec![attr("name", "A"), attr("id", "rIdZ")]),
        XmlStep::Eof,
    ];
    // The first sheet of that name decides, and it has no id.
    assert!(matches!(relationship_id_in(&steps, "A"), Err(AppError::SheetNotFound)));
    let steps = vec![
        open("sheets", vec![]),
        XmlStep::Fail { message: "broken".to_string() },
        open("sheet", vec![attr("name", "A"), attr("id", "rIdZ")]),
    ];
    match relationship_id_in(&steps, "A") {
        Err(AppError::ExcelRead(m)) => assert_eq!(m, "broken"),
        other => panic!("unexpected {other:?}"),
    }
}

#[test]
fn relationship_targets_are_found_by_id() {
    assert_eq!(relationship_target(RELS, "rId1").unwrap(), "worksheets/sheet1.xml");
    assert_eq!(relationship_target(RELS, "rId2").unwrap(), "/xl/worksheets/sheet2.xml");
    assert!(matches!(relationship_target(RELS, "rId7"), Err(AppError::SheetNotFound)));
    match relationship_target(RELS, "rId4") {
        Err(AppError::ExcelRead(m)) => assert_eq!(m, "缺少工作表路径"),
        other => panic!("unexpected {other:?}"),
    }
    let steps = vec![
        open("Other", vec![attr("Id", "rId1"), attr("Target", "no.xml")]),
        open("Relationship", vec![attr("Id", "rId1"), attr("Target", "yes.xml")]),
        XmlStep::Eof,
    ];
    assert_eq!(relationship_target_in(&steps, "rId1").unwrap(), "yes.xml");
}

#[test]
fn malformed_xml_is_reported() {
    match sheet_relationship_id("<sheets><sheet name=\"A\" id=\"1\"></sheets>", "B") {
        Err(AppError::ExcelRead(_)) => {}
        other => panic!("unexpected {other:?}"),
    }
}

#[test]
fn reader_steps_end_with_the_end_of_the_text() {
    let steps = xml_steps("<a x=\"1\" p:y='2'>text<b/></a>");
    assert_eq!(steps.len(), 5);
    match &steps[0] {
        XmlStep::Open { local, attrs } => {
            assert_eq!(local, "a");
            assert_eq!(attrs.len(), 2);
            assert_eq!(attr_value(attrs, "x").as_deref(), Some("1"));
            assert_eq!(attr_value(attrs, "y"), None);
            assert_eq!(attr_value_by_local(attrs, "y").as_deref(), Some("2"));
        }
        other => panic!("unexpected {other:?}"),
    }
    assert!(matches!(steps[1], XmlStep::Other));
    assert!(matches!(&steps[2], XmlStep::Open { local, .. } if local == "b"));
    assert!(matches!(&steps[3], XmlStep::Close { local } if local == "a"));
    assert!(matches!(steps[4], XmlStep::Eof));
    assert!(matches!(xml_steps("").as_slice(), [XmlStep::Eof]));
}

#[test]
fn first_matching_attribute_wins() {
    let attrs = vec![attr("r:id", "one"), attr("id", "two"), attr("id", "three")];
    assert_eq!(attr_value(&attrs, "id").as_deref(), Some("two"));
    assert_eq!(attr_value_by_local(&attrs, "id").as_deref(), Some("one"));
    assert_eq!(attr_value(&attrs, "name"), None);
}

#[test]
fn hidden_rows_are_read_from_xlsx_family_files() {
    assert!(reads_hidden_rows("xlsx"));
    assert!(reads_hidden_rows("XLSM"));
    assert!(reads_hidden_rows("Xlsb"));
    assert!(!reads_hidden_rows("xls"));
    assert!(!reads_hidden_rows("ods"));
    assert!(!reads_hidden_rows(""));
}
