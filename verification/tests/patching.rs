use sheetgen::errors::GenError;
use sheetgen::patch::{parse_cell_ref_bytes, patch, Replacements};
use sheetgen::cell::CellAddress;
use sheetgen::xml::{escape_xml, xml_escape};

#[test]
fn empty_replacement_map_is_byte_identical() {
    let template = b"<worksheet><sheetData><row r=\"1\"><c r=\"A1\"><v>1</v></c></row></sheetData></worksheet>";
    let reps = Replacements::new();
    let out = patch(template, &reps).unwrap();
    assert_eq!(out, template.to_vec());
}

#[test]
fn empty_replacement_map_passes_even_malformed_bytes_through() {
    let template = b"<worksheet><unclosed";
    let reps = Replacements::new();
    let out = patch(template, &reps).unwrap();
    assert_eq!(out, template.to_vec());
}

#[test]
fn replaced_cell_becomes_inline_string_and_others_stay() {
    let template = b"<worksheet><row r=\"1\"><c r=\"A1\" s=\"3\"><v>x</v></c><c r=\"B1\" t=\"inlineStr\"><is><t>y</t></is></c></row></worksheet>";
    let mut reps = Replacements::new();
    reps.insert(0, 0, b"new".to_vec());
    let out = patch(template, &reps).unwrap();
    let expected = b"<worksheet><row r=\"1\"><c r=\"A1\" s=\"3\" t=\"inlineStr\"><is><t>new</t></is></c><c r=\"B1\" t=\"inlineStr\"><is><t>y</t></is></c></row></worksheet>";
    assert_eq!(String::from_utf8(out).unwrap(), String::from_utf8(expected.to_vec()).unwrap());
}

#[test]
fn self_closed_cell_is_replaced_wholesale() {
    let template = b"<r><c r=\"B2\" s=\"1\"/></r>";
    let mut reps = Replacements::new();
    reps.insert(1, 1, b"v".to_vec());
    let out = patch(template, &reps).unwrap();
    assert_eq!(out, b"<r><c r=\"B2\" s=\"1\" t=\"inlineStr\"><is><t>v</t></is></c></r>".to_vec());
}

#[test]
fn replacement_value_is_xml_escaped() {
    let template = b"<r><c r=\"A1\"/></r>";
    let mut reps = Replacements::new();
    reps.insert(0, 0, b"a<b&c>\"d'".to_vec());
    let out = patch(template, &reps).unwrap();
    let text = String::from_utf8(out).unwrap();
    assert!(text.contains("<is><t>a&lt;b&amp;c&gt;&quot;d&apos;</t></is>"));
}

#[test]
fn nested_children_of_replaced_cell_are_suppressed() {
    let template =
        b"<r><c r=\"A1\"><is><t>old</t></is></c><c r=\"C3\"><f>SUM(1)</f><v>9</v></c></r>";
    let mut reps = Replacements::new();
    reps.insert(0, 0, b"n".to_vec());
    let out = patch(template, &reps).unwrap();
    let text = String::from_utf8(out).unwrap();
    assert!(!text.contains("old"));
    assert!(text.contains("<c r=\"C3\"><f>SUM(1)</f><v>9</v></c>"));
}

#[test]
fn later_insert_for_same_address_wins() {
    let template = b"<r><c r=\"A1\"/></r>";
    let mut reps = Replacements::new();
    reps.insert(0, 0, b"first".to_vec());
    reps.insert(0, 0, b"second".to_vec());
    let out = patch(template, &reps).unwrap();
    assert!(String::from_utf8(out).unwrap().contains("<is><t>second</t></is>"));
}

#[test]
fn malformed_stream_is_reported() {
    let template = b"<r><c r=\"A1\"";
    let mut reps = Replacements::new();
    reps.insert(0, 0, b"v".to_vec());
    assert_eq!(patch(template, &reps), Err(GenError::MalformedXml));
}

#[test]
fn lowercase_template_address_still_matches() {
    let template = b"<r><c r=\"a1\"/></r>";
    let mut reps = Replacements::new();
    reps.insert(0, 0, b"v".to_vec());
    let out = patch(template, &reps).unwrap();
    assert!(String::from_utf8(out).unwrap().contains("<c r=\"a1\" t=\"inlineStr\">"));
}

#[test]
fn byte_level_address_decoding() {
    assert_eq!(parse_cell_ref_bytes(b"A1"), Some(CellAddress { row: 0, column: 0 }));
    assert_eq!(parse_cell_ref_bytes(b"aa10"), Some(CellAddress { row: 9, column: 26 }));
    assert_eq!(parse_cell_ref_bytes(b"1A"), None);
    assert_eq!(parse_cell_ref_bytes(b""), None);
}

#[test]
fn escape_helpers_cover_the_five_entities() {
    assert_eq!(xml_escape("a&b<c>d\"e'f"), "a&amp;b&lt;c&gt;d&quot;e&apos;f");
    assert_eq!(escape_xml("plain"), "plain");
}
