use sheetgen::cell::{
    cell_to_indices, column_label_from_index, decode, encode, parse_cell_address,
    parse_cell_reference, CellAddress,
};

#[test]
fn decode_simple_addresses() {
    assert_eq!(parse_cell_reference("A1"), Some((0, 0)));
    assert_eq!(parse_cell_reference("B3"), Some((2, 1)));
    assert_eq!(parse_cell_reference("Z10"), Some((9, 25)));
    assert_eq!(parse_cell_reference("AA1"), Some((0, 26)));
    assert_eq!(parse_cell_reference("AB2"), Some((1, 27)));
}

#[test]
fn decode_is_case_insensitive() {
    assert_eq!(parse_cell_reference("a1"), Some((0, 0)));
    assert_eq!(parse_cell_reference("aB2"), Some((1, 27)));
}

#[test]
fn decode_rejects_bad_grammar() {
    assert_eq!(parse_cell_reference(""), None);
    assert_eq!(parse_cell_reference("1A"), None);
    assert_eq!(parse_cell_reference("A"), None);
    assert_eq!(parse_cell_reference("1"), None);
    assert_eq!(parse_cell_reference("A1B"), None);
    assert_eq!(parse_cell_reference("A 1"), None);
    assert_eq!(parse_cell_reference("A0"), None);
    assert_eq!(parse_cell_reference("$A$1"), None);
}

#[test]
fn encode_emits_upper_case_labels() {
    assert_eq!(column_label_from_index(0), "A");
    assert_eq!(column_label_from_index(25), "Z");
    assert_eq!(column_label_from_index(26), "AA");
    assert_eq!(column_label_from_index(51), "AZ");
    assert_eq!(column_label_from_index(52), "BA");
    assert_eq!(column_label_from_index(701), "ZZ");
    assert_eq!(column_label_from_index(702), "AAA");
}

#[test]
fn decode_of_encode_round_trips() {
    for (row, column) in [(0u32, 0u32), (2, 1), (9, 25), (0, 26), (99, 701), (1048575, 16383)] {
        let a = CellAddress { row, column };
        let text = encode(a);
        assert_eq!(decode(&text), Some(a));
    }
}

#[test]
fn usize_variants_agree() {
    assert_eq!(parse_cell_address("C7"), Some((6, 2)));
    assert_eq!(cell_to_indices("C7"), Some((6, 2)));
    assert_eq!(parse_cell_address("7C"), None);
    assert_eq!(cell_to_indices(""), None);
}
