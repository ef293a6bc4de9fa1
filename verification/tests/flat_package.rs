use std::io::Read;

use sheetgen::flat::{build_content_xml, build_manifest_xml, build_sheet_data, flat_package_parts};
use sheetgen::container::write_archive;
use sheetgen::workflow::{CellPreview, ColumnMapping};

fn cell(address: &str, value: &str) -> CellPreview {
    CellPreview { address: address.to_string(), value: value.to_string() }
}

fn mapping(column_index: usize, cell_address: &str) -> ColumnMapping {
    ColumnMapping {
        column_index,
        column_label: format!("Column {}", column_index + 1),
        cell_address: cell_address.to_string(),
    }
}

#[test]
fn sheet_data_overlays_mappings_on_template_cells() {
    let cells = vec![cell("A1", "base-a"), cell("B2", "base-b")];
    let mappings = vec![mapping(0, "A1")];
    let rows = vec![
        vec!["first".to_string()],
        vec!["second".to_string()],
    ];
    let sheets = build_sheet_data(&cells, &mappings, &rows);
    assert_eq!(sheets.len(), 2);
    assert_eq!(sheets[0].len(), 2);
    assert_eq!(sheets[0][0].len(), 2);
    assert_eq!(sheets[0][0][0], "first");
    assert_eq!(sheets[0][1][1], "base-b");
    assert_eq!(sheets[1][0][0], "second");
    assert_eq!(sheets[0][0][1], "");
}

#[test]
fn sheet_data_with_no_rows_keeps_the_base_sheet() {
    let cells = vec![cell("A1", "kept")];
    let mappings = vec![mapping(0, "B1")];
    let rows: Vec<Vec<String>> = Vec::new();
    let sheets = build_sheet_data(&cells, &mappings, &rows);
    assert_eq!(sheets.len(), 1);
    assert_eq!(sheets[0][0][0], "kept");
    assert_eq!(sheets[0][0][1], "");
}

#[test]
fn sheet_data_mapping_beyond_row_keeps_template_value() {
    let cells = vec![cell("A1", "base")];
    let mappings = vec![mapping(5, "A1")];
    let rows = vec![vec!["short".to_string()]];
    let sheets = build_sheet_data(&cells, &mappings, &rows);
    assert_eq!(sheets[0][0][0], "base");
}

#[test]
fn content_xml_has_one_table_per_sheet() {
    let names = vec!["T 1".to_string(), "T 2".to_string()];
    let data = vec![
        vec![vec!["a".to_string(), "".to_string()]],
        vec![vec!["b&c".to_string()]],
    ];
    let xml = build_content_xml(&names, &data);
    assert!(xml.starts_with("<?xml version=\"1.0\" encoding=\"UTF-8\"?>\n"));
    assert!(xml.contains("<table:table table:name=\"T 1\">"));
    assert!(xml.contains("<table:table table:name=\"T 2\">"));
    assert!(xml.contains("<table:table-cell office:value-type=\"string\"><text:p>a</text:p></table:table-cell>"));
    assert!(xml.contains("<table:table-cell/>"));
    assert!(xml.contains("<text:p>b&amp;c</text:p>"));
    assert!(xml.ends_with("</office:document-content>\n"));
}

#[test]
fn manifest_lists_root_and_content() {
    let m = build_manifest_xml();
    assert!(m.contains("manifest:full-path=\"/\""));
    assert!(m.contains("manifest:full-path=\"content.xml\""));
}

#[test]
fn flat_package_has_stored_mimetype_first() {
    let parts = flat_package_parts("<c/>", "<m/>");
    assert_eq!(parts.len(), 3);
    assert_eq!(parts[0].name, "mimetype");
    assert!(!parts[0].compress);
    assert_eq!(
        parts[0].data,
        b"application/vnd.oasis.opendocument.spreadsheet".to_vec()
    );
    assert_eq!(parts[1].name, "META-INF/manifest.xml");
    assert_eq!(parts[2].name, "content.xml");
    let bytes = write_archive(&parts).unwrap();
    let mut za = zip::ZipArchive::new(std::io::Cursor::new(&bytes[..])).unwrap();
    let mut s = String::new();
    za.by_name("content.xml").unwrap().read_to_string(&mut s).unwrap();
    assert_eq!(s, "<c/>");
}
