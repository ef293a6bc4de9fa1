use std::io::Read;

use sheetgen::assemble::generate_workbook;
use sheetgen::container::{read_archive, write_archive, ArchivePart};
use sheetgen::errors::GenError;
use sheetgen::state::CellMapping;

fn part(name: &str, data: &str) -> ArchivePart {
    ArchivePart { name: name.to_string(), data: data.as_bytes().to_vec(), compress: true }
}

fn template_bytes() -> Vec<u8> {
    let parts = vec![
        part(
            "[Content_Types].xml",
            "<?xml version=\"1.0\" encoding=\"UTF-8\" standalone=\"yes\"?><Types xmlns=\"http://schemas.openxmlformats.org/package/2006/content-types\"><Default Extension=\"xml\" ContentType=\"application/xml\"/><Override PartName=\"/xl/worksheets/sheet1.xml\" ContentType=\"application/vnd.openxmlformats-officedocument.spreadsheetml.worksheet+xml\"/><Override PartName=\"/xl/styles.xml\" ContentType=\"application/vnd.openxmlformats-officedocument.spreadsheetml.styles+xml\"/></Types>",
        ),
        part(
            "xl/workbook.xml",
            "<?xml version=\"1.0\"?><workbook xmlns=\"http://schemas.openxmlformats.org/spreadsheetml/2006/main\" xmlns:r=\"http://schemas.openxmlformats.org/officeDocument/2006/relationships\"><sheets><sheet name=\"Data\" sheetId=\"1\" r:id=\"rId1\"/></sheets></workbook>",
        ),
        part(
            "xl/_rels/workbook.xml.rels",
            "<?xml version=\"1.0\"?><Relationships xmlns=\"http://schemas.openxmlformats.org/package/2006/relationships\"><Relationship Id=\"rId1\" Type=\"http://schemas.openxmlformats.org/officeDocument/2006/relationships/worksheet\" Target=\"worksheets/sheet1.xml\"/><Relationship Id=\"rId2\" Type=\"http://schemas.openxmlformats.org/officeDocument/2006/relationships/styles\" Target=\"styles.xml\"/></Relationships>",
        ),
        part(
            "xl/worksheets/sheet1.xml",
            "<?xml version=\"1.0\"?><worksheet><sheetData><row r=\"1\"><c r=\"A1\" t=\"inlineStr\"><is><t>x</t></is></c><c r=\"B1\" t=\"inlineStr\"><is><t>y</t></is></c></row></sheetData></worksheet>",
        ),
        part("xl/styles.xml", "<styleSheet/>"),
        part("docProps/custom.xml", "<Properties/>"),
    ];
    write_archive(&parts).unwrap()
}

fn entry(bytes: &[u8], name: &str) -> String {
    let mut za = zip::ZipArchive::new(std::io::Cursor::new(bytes)).unwrap();
    let mut f = za.by_name(name).unwrap();
    let mut s = String::new();
    f.read_to_string(&mut s).unwrap();
    s
}

fn names(bytes: &[u8]) -> Vec<String> {
    let za = zip::ZipArchive::new(std::io::Cursor::new(bytes)).unwrap();
    za.file_names().map(|n| n.to_string()).collect()
}

#[test]
fn three_rows_two_mappings_give_three_distinct_sheets() {
    let template = template_bytes();
    let mappings = vec![
        CellMapping::new(0, "A1".to_string()),
        CellMapping::new(1, "B1".to_string()),
    ];
    let rows = vec![
        vec!["r1a".to_string(), "r1b".to_string()],
        vec!["r2a".to_string(), "r2b".to_string()],
        vec!["r3a".to_string(), "r3b".to_string()],
    ];
    let (bytes, count) = generate_workbook(&template, "Data", &mappings, &rows).unwrap();
    assert_eq!(count, 3);
    let wb = entry(&bytes, "xl/workbook.xml");
    assert!(wb.contains("<sheet name=\"Data 1\" sheetId=\"1\" r:id=\"rId3\"/>"));
    assert!(wb.contains("<sheet name=\"Data 2\" sheetId=\"2\" r:id=\"rId4\"/>"));
    assert!(wb.contains("<sheet name=\"Data 3\" sheetId=\"3\" r:id=\"rId5\"/>"));
    let ns = names(&bytes);
    assert!(ns.contains(&"xl/worksheets/sheet1.xml".to_string()));
    assert!(ns.contains(&"xl/worksheets/sheet2.xml".to_string()));
    assert!(ns.contains(&"xl/worksheets/sheet3.xml".to_string()));
    let s1 = entry(&bytes, "xl/worksheets/sheet1.xml");
    assert!(s1.contains("<is><t>r1a</t></is>"));
    assert!(s1.contains("<is><t>r1b</t></is>"));
    let s3 = entry(&bytes, "xl/worksheets/sheet3.xml");
    assert!(s3.contains("<is><t>r3a</t></is>"));
}

#[test]
fn zero_rows_fail_with_input_empty() {
    let template = template_bytes();
    let mappings = vec![CellMapping::new(0, "A1".to_string())];
    let rows: Vec<Vec<String>> = Vec::new();
    assert_eq!(generate_workbook(&template, "Data", &mappings, &rows), Err(GenError::InputEmpty));
}

#[test]
fn all_empty_destinations_fail_with_no_mappings() {
    let template = template_bytes();
    let mappings = vec![CellMapping::new(0, "".to_string()), CellMapping::new(1, "".to_string())];
    let rows = vec![vec!["a".to_string()]];
    assert_eq!(generate_workbook(&template, "Data", &mappings, &rows), Err(GenError::NoMappings));
}

#[test]
fn invalid_destinations_also_fail_with_no_mappings() {
    let template = template_bytes();
    let mappings = vec![CellMapping::new(0, "not-a-cell".to_string())];
    let rows = vec![vec!["a".to_string()]];
    assert_eq!(generate_workbook(&template, "Data", &mappings, &rows), Err(GenError::NoMappings));
}

#[test]
fn empty_effective_replacements_round_trip_the_template_sheet() {
    let template = template_bytes();
    // The one mapping points at a source column the single row does not
    // have, so the replacement map is empty and the sheet must come out
    // byte-identical.
    let mappings = vec![CellMapping::new(9, "A1".to_string())];
    let rows = vec![vec!["only".to_string()]];
    let (bytes, count) = generate_workbook(&template, "Data", &mappings, &rows).unwrap();
    assert_eq!(count, 1);
    let body = entry(&bytes, "xl/worksheets/sheet1.xml");
    let original = entry(&template, "xl/worksheets/sheet1.xml");
    assert_eq!(body, original);
}

#[test]
fn other_relationships_are_preserved_verbatim() {
    let template = template_bytes();
    let mappings = vec![CellMapping::new(0, "A1".to_string())];
    let rows = vec![vec!["v".to_string()]];
    let (bytes, _) = generate_workbook(&template, "Data", &mappings, &rows).unwrap();
    let rels = entry(&bytes, "xl/_rels/workbook.xml.rels");
    assert!(rels.contains(
        "<Relationship Id=\"rId2\" Type=\"http://schemas.openxmlformats.org/officeDocument/2006/relationships/styles\" Target=\"styles.xml\"/>"
    ));
    assert!(rels.contains(
        "<Relationship Id=\"rId3\" Type=\"http://schemas.openxmlformats.org/officeDocument/2006/relationships/worksheet\" Target=\"worksheets/sheet1.xml\"/>"
    ));
}

#[test]
fn untouched_parts_are_copied_and_rewritten_parts_are_fresh() {
    let template = template_bytes();
    let mappings = vec![CellMapping::new(0, "A1".to_string())];
    let rows = vec![vec!["v".to_string()]];
    let (bytes, _) = generate_workbook(&template, "Data", &mappings, &rows).unwrap();
    assert_eq!(entry(&bytes, "xl/styles.xml"), "<styleSheet/>");
    assert_eq!(entry(&bytes, "docProps/custom.xml"), "<Properties/>");
    let ct = entry(&bytes, "[Content_Types].xml");
    assert!(ct.contains("PartName=\"/xl/worksheets/sheet1.xml\""));
    assert!(ct.contains("PartName=\"/xl/styles.xml\""));
    let ns = names(&bytes);
    assert!(ns.contains(&"_rels/.rels".to_string()));
    assert!(ns.contains(&"docProps/app.xml".to_string()));
    assert!(ns.contains(&"docProps/core.xml".to_string()));
}

#[test]
fn unknown_sheet_name_fails_with_sheet_not_found() {
    let template = template_bytes();
    let mappings = vec![CellMapping::new(0, "A1".to_string())];
    let rows = vec![vec!["v".to_string()]];
    assert_eq!(
        generate_workbook(&template, "Missing", &mappings, &rows),
        Err(GenError::SheetNotFound)
    );
}

#[test]
fn garbage_template_fails_with_container_open_failed() {
    let mappings = vec![CellMapping::new(0, "A1".to_string())];
    let rows = vec![vec!["v".to_string()]];
    assert_eq!(
        generate_workbook(b"not a zip at all", "Data", &mappings, &rows),
        Err(GenError::ContainerOpenFailed)
    );
}

#[test]
fn archive_round_trip_preserves_names_and_bytes() {
    let parts = vec![part("a.xml", "<a/>"), part("dir/b.bin", "data")];
    let bytes = write_archive(&parts).unwrap();
    let back = read_archive(&bytes).unwrap();
    assert_eq!(back.len(), 2);
    assert_eq!(back[0].name, "a.xml");
    assert_eq!(back[0].data, b"<a/>".to_vec());
    assert_eq!(back[1].name, "dir/b.bin");
    assert_eq!(back[1].data, b"data".to_vec());
}

#[test]
fn template_without_workbook_definition_is_structurally_invalid() {
    let parts = vec![
        part("[Content_Types].xml", "<Types/>"),
        part("xl/_rels/workbook.xml.rels", "<Relationships/>"),
    ];
    let template = write_archive(&parts).unwrap();
    let mappings = vec![CellMapping::new(0, "A1".to_string())];
    let rows = vec![vec!["v".to_string()]];
    assert_eq!(
        generate_workbook(&template, "Data", &mappings, &rows),
        Err(GenError::TemplateStructureInvalid)
    );
}

#[test]
fn missing_worksheet_relationship_is_reported() {
    let parts = vec![
        part("[Content_Types].xml", "<Types/>"),
        part(
            "xl/workbook.xml",
            "<workbook><sheets><sheet name=\"Data\" sheetId=\"1\" r:id=\"rId1\"/></sheets></workbook>",
        ),
        part(
            "xl/_rels/workbook.xml.rels",
            "<Relationships><Relationship Id=\"rId9\" Type=\"t/styles\" Target=\"styles.xml\"/></Relationships>",
        ),
    ];
    let template = write_archive(&parts).unwrap();
    let mappings = vec![CellMapping::new(0, "A1".to_string())];
    let rows = vec![vec!["v".to_string()]];
    assert_eq!(
        generate_workbook(&template, "Data", &mappings, &rows),
        Err(GenError::RelationshipMissing)
    );
}

#[test]
fn missing_sheet_part_is_reported() {
    let parts = vec![
        part("[Content_Types].xml", "<Types/>"),
        part(
            "xl/workbook.xml",
            "<workbook><sheets><sheet name=\"Data\" sheetId=\"1\" r:id=\"rId1\"/></sheets></workbook>",
        ),
        part(
            "xl/_rels/workbook.xml.rels",
            "<Relationships><Relationship Id=\"rId1\" Type=\"x/worksheet\" Target=\"worksheets/sheet1.xml\"/></Relationships>",
        ),
    ];
    let template = write_archive(&parts).unwrap();
    let mappings = vec![CellMapping::new(0, "A1".to_string())];
    let rows = vec![vec!["v".to_string()]];
    assert_eq!(
        generate_workbook(&template, "Data", &mappings, &rows),
        Err(GenError::PartMissing)
    );
}

#[test]
fn malformed_sheet_body_is_reported_when_patched() {
    let parts = vec![
        part("[Content_Types].xml", "<Types/>"),
        part(
            "xl/workbook.xml",
            "<workbook><sheets><sheet name=\"Data\" sheetId=\"1\" r:id=\"rId1\"/></sheets></workbook>",
        ),
        part(
            "xl/_rels/workbook.xml.rels",
            "<Relationships><Relationship Id=\"rId1\" Type=\"x/worksheet\" Target=\"worksheets/sheet1.xml\"/></Relationships>",
        ),
        part("xl/worksheets/sheet1.xml", "<worksheet><c r=\"A1\""),
    ];
    let template = write_archive(&parts).unwrap();
    let mappings = vec![CellMapping::new(0, "A1".to_string())];
    let rows = vec![vec!["v".to_string()]];
    assert_eq!(
        generate_workbook(&template, "Data", &mappings, &rows),
        Err(GenError::MalformedXml)
    );
}

#[test]
fn duplicate_part_names_fail_the_archive_writer() {
    let parts = vec![part("same.xml", "<a/>"), part("same.xml", "<b/>")];
    assert_eq!(write_archive(&parts), Err(GenError::ContainerWriteFailed));
}

#[test]
fn non_utf8_workbook_definition_is_structurally_invalid() {
    let parts = vec![
        part("[Content_Types].xml", "<Types/>"),
        ArchivePart {
            name: "xl/workbook.xml".to_string(),
            data: vec![0xff, 0xfe, 0x3c],
            compress: true,
        },
        part("xl/_rels/workbook.xml.rels", "<Relationships/>"),
    ];
    let template = write_archive(&parts).unwrap();
    let mappings = vec![CellMapping::new(0, "A1".to_string())];
    let rows = vec![vec!["v".to_string()]];
    assert_eq!(
        generate_workbook(&template, "Data", &mappings, &rows),
        Err(GenError::TemplateStructureInvalid)
    );
}
