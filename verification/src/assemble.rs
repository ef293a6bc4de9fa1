//! The package assembler: one generation run.
//!
//! For each input row the run materializes the row's replacements, patches
//! the template sheet body, and allocates a fresh relationship id, part name
//! and sheet id.  It then rewrites the three package-level documents (the
//! workbook's sheet table, the workbook's relationship table and the
//! content-type list) from the accumulated sheet list, copies every
//! untouched part through unchanged, and renders the final archive bytes.

use vstd::prelude::*;
use vstd::slice::slice_subrange;
use vstd::slice::slice_to_vec;
use vstd::utf8::encode_utf8;

use crate::cell::dec_digits;
use crate::cell::dec_string;
use crate::container::ArchivePart;
use crate::errors::GenError;
use crate::lexer::SpecTok;
use crate::lexer::Token;
use crate::lexer::lex;
use crate::lexer::lex_at;
use crate::package::WorkbookRelationship;
use crate::patch::attr_lookup;
use crate::patch::attr_of;
use crate::patch::sb;
use crate::xml::bytes_eq;
use crate::xml::escape_bytes;
use crate::xml::push_bytes;
use crate::xml::push_escaped_bytes;

verus! {

/// One worksheet produced for one input row.
pub struct GeneratedSheet {
    pub display_name: String,
    pub part_name: String,
    pub relationship_id: String,
    pub sheet_numeric_id: u32,
    pub body_bytes: Vec<u8>,
    pub relationship_part_bytes: Option<Vec<u8>>,
}

/// The ghost shape of one generated sheet.
pub struct SheetView {
    pub display_name: Seq<char>,
    pub part_name: Seq<char>,
    pub relationship_id: Seq<char>,
    pub sheet_numeric_id: u32,
    pub body: Seq<u8>,
    pub rel_part: Option<Seq<u8>>,
}

impl View for GeneratedSheet {
    type V = SheetView;

    open spec fn view(&self) -> SheetView {
        SheetView {
            display_name: self.display_name@,
            part_name: self.part_name@,
            relationship_id: self.relationship_id@,
            sheet_numeric_id: self.sheet_numeric_id,
            body: self.body_bytes@,
            rel_part: match self.relationship_part_bytes {
                Some(ref v) => Some(v@),
                None => None::<Seq<u8>>,
            },
        }
    }
}

pub open spec fn sheets_view(s: Seq<GeneratedSheet>) -> Seq<SheetView> {
    s.map_values(|g: GeneratedSheet| g@)
}

/// The sheet-table entry of one generated sheet.
pub open spec fn wb_sheet_entry(v: SheetView) -> Seq<u8> {
    sb("<sheet name=\"") + escape_bytes(encode_utf8(v.display_name)) + sb("\" sheetId=\"")
        + encode_utf8(dec_digits(v.sheet_numeric_id as nat)) + sb("\" r:id=\"") + encode_utf8(
        v.relationship_id,
    ) + sb("\"/>")
}

pub open spec fn wb_sheet_entries(sv: Seq<SheetView>) -> Seq<u8>
    decreases sv.len(),
{
    if sv.len() == 0 {
        Seq::empty()
    } else {
        wb_sheet_entries(sv.drop_last()) + wb_sheet_entry(sv.last())
    }
}

/// The rewritten workbook definition: one sheet entry per generated sheet,
/// in row order.
pub open spec fn wb_xml_spec(sv: Seq<SheetView>) -> Seq<u8> {
    sb(
        "<?xml version=\"1.0\" encoding=\"UTF-8\" standalone=\"yes\"?><workbook xmlns=\"http://schemas.openxmlformats.org/spreadsheetml/2006/main\" xmlns:r=\"http://schemas.openxmlformats.org/officeDocument/2006/relationships\"><sheets>",
    ) + wb_sheet_entries(sv) + sb("</sheets></workbook>")
}

/// Builds the rewritten workbook definition.
#[verifier::rlimit(30)]
pub fn build_workbook_xml(sheets: &Vec<GeneratedSheet>) -> (r: Vec<u8>)
    ensures
        r@ == wb_xml_spec(sheets_view(sheets@)),
{
    let ghost sv = sheets_view(sheets@);
    let mut out: Vec<u8> = Vec::new();
    push_bytes(
        &mut out,
        "<?xml version=\"1.0\" encoding=\"UTF-8\" standalone=\"yes\"?><workbook xmlns=\"http://schemas.openxmlformats.org/spreadsheetml/2006/main\" xmlns:r=\"http://schemas.openxmlformats.org/officeDocument/2006/relationships\"><sheets>".as_bytes(),
    );
    let ghost head = out@;
    proof {
        assert(out@ =~= head + wb_sheet_entries(sv.take(0)));
    }
    let n = sheets.len();
    let mut k: usize = 0;
    while k < n
        invariant
            k <= n,
            n == sheets@.len(),
            sv == sheets_view(sheets@),
            sv.len() == n,
            out@ == head + wb_sheet_entries(sv.take(k as int)),
        decreases n - k,
    {
        proof {
            assert(sv.take(k + 1).drop_last() =~= sv.take(k as int));
            assert(sv.take(k + 1).last() == sv[k as int]);
        }
        push_bytes(&mut out, "<sheet name=\"".as_bytes());
        push_escaped_bytes(&mut out, sheets[k].display_name.as_str().as_bytes());
        push_bytes(&mut out, "\" sheetId=\"".as_bytes());
        let sid = dec_string(sheets[k].sheet_numeric_id as u64);
        push_bytes(&mut out, sid.as_str().as_bytes());
        push_bytes(&mut out, "\" r:id=\"".as_bytes());
        push_bytes(&mut out, sheets[k].relationship_id.as_str().as_bytes());
        push_bytes(&mut out, "\"/>".as_bytes());
        proof {
            assert(out@ =~= head + wb_sheet_entries(sv.take(k + 1)));
        }
        k += 1;
    }
    proof {
        assert(sv.take(n as int) =~= sv);
    }
    push_bytes(&mut out, "</sheets></workbook>".as_bytes());
    out
}

/// The relationship-table entry of one preserved relationship.
pub open spec fn preserved_rel_entry(r: (Seq<u8>, Seq<u8>, Seq<u8>)) -> Seq<u8> {
    sb("<Relationship Id=\"") + escape_bytes(r.0) + sb("\" Type=\"") + escape_bytes(r.2) + sb(
        "\" Target=\"",
    ) + escape_bytes(r.1) + sb("\"/>")
}

pub open spec fn preserved_rel_entries(rs: Seq<(Seq<u8>, Seq<u8>, Seq<u8>)>) -> Seq<u8>
    decreases rs.len(),
{
    if rs.len() == 0 {
        Seq::empty()
    } else {
        preserved_rel_entries(rs.drop_last()) + preserved_rel_entry(rs.last())
    }
}

/// The relationship-table entry of one generated sheet.
pub open spec fn sheet_rel_entry(v: SheetView) -> Seq<u8> {
    sb("<Relationship Id=\"") + escape_bytes(encode_utf8(v.relationship_id)) + sb(
        "\" Type=\"http://schemas.openxmlformats.org/officeDocument/2006/relationships/worksheet\" Target=\"",
    ) + escape_bytes(encode_utf8(v.part_name)) + sb("\"/>")
}

pub open spec fn sheet_rel_entries(sv: Seq<SheetView>) -> Seq<u8>
    decreases sv.len(),
{
    if sv.len() == 0 {
        Seq::empty()
    } else {
        sheet_rel_entries(sv.drop_last()) + sheet_rel_entry(sv.last())
    }
}

/// The rewritten workbook relationship table: every preserved relationship,
/// in its original order, followed by one worksheet relationship per
/// generated sheet, in row order.
pub open spec fn wb_rels_spec(
    preserved: Seq<(Seq<u8>, Seq<u8>, Seq<u8>)>,
    sv: Seq<SheetView>,
) -> Seq<u8> {
    sb(
        "<?xml version=\"1.0\" encoding=\"UTF-8\" standalone=\"yes\"?><Relationships xmlns=\"http://schemas.openxmlformats.org/package/2006/relationships\">",
    ) + preserved_rel_entries(preserved) + sheet_rel_entries(sv) + sb("</Relationships>")
}

/// Builds the rewritten workbook relationship table.
pub fn build_workbook_rels(preserved: &Vec<WorkbookRelationship>, sheets: &Vec<GeneratedSheet>) -> (r:
    Vec<u8>)
    ensures
        r@ == wb_rels_spec(crate::package::rels_view(preserved@), sheets_view(sheets@)),
{
    let ghost pv = crate::package::rels_view(preserved@);
    let ghost sv = sheets_view(sheets@);
    let mut out: Vec<u8> = Vec::new();
    push_bytes(
        &mut out,
        "<?xml version=\"1.0\" encoding=\"UTF-8\" standalone=\"yes\"?><Relationships xmlns=\"http://schemas.openxmlformats.org/package/2006/relationships\">".as_bytes(),
    );
    let ghost head = out@;
    proof {
        assert(out@ =~= head + preserved_rel_entries(pv.take(0)));
    }
    let n = preserved.len();
    let mut k: usize = 0;
    while k < n
        invariant
            k <= n,
            n == preserved@.len(),
            pv == crate::package::rels_view(preserved@),
            pv.len() == n,
            out@ == head + preserved_rel_entries(pv.take(k as int)),
        decreases n - k,
    {
        proof {
            assert(pv.take(k + 1).drop_last() =~= pv.take(k as int));
            assert(pv.take(k + 1).last() == pv[k as int]);
        }
        push_bytes(&mut out, "<Relationship Id=\"".as_bytes());
        push_escaped_bytes(&mut out, preserved[k].id.as_slice());
        push_bytes(&mut out, "\" Type=\"".as_bytes());
        push_escaped_bytes(&mut out, preserved[k].type_attr.as_slice());
        push_bytes(&mut out, "\" Target=\"".as_bytes());
        push_escaped_bytes(&mut out, preserved[k].target.as_slice());
        push_bytes(&mut out, "\"/>".as_bytes());
        proof {
            assert(out@ =~= head + preserved_rel_entries(pv.take(k + 1)));
        }
        k += 1;
    }
    proof {
        assert(pv.take(n as int) =~= pv);
    }
    let ghost mid = out@;
    proof {
        assert(out@ =~= mid + sheet_rel_entries(sv.take(0)));
    }
    let m = sheets.len();
    let mut j: usize = 0;
    while j < m
        invariant
            j <= m,
            m == sheets@.len(),
            sv == sheets_view(sheets@),
            sv.len() == m,
            out@ == mid + sheet_rel_entries(sv.take(j as int)),
        decreases m - j,
    {
        proof {
            assert(sv.take(j + 1).drop_last() =~= sv.take(j as int));
            assert(sv.take(j + 1).last() == sv[j as int]);
        }
        push_bytes(&mut out, "<Relationship Id=\"".as_bytes());
        push_escaped_bytes(&mut out, sheets[j].relationship_id.as_str().as_bytes());
        push_bytes(
            &mut out,
            "\" Type=\"http://schemas.openxmlformats.org/officeDocument/2006/relationships/worksheet\" Target=\"".as_bytes(),
        );
        push_escaped_bytes(&mut out, sheets[j].part_name.as_str().as_bytes());
        push_bytes(&mut out, "\"/>".as_bytes());
        proof {
            assert(out@ =~= mid + sheet_rel_entries(sv.take(j + 1)));
        }
        j += 1;
    }
    proof {
        assert(sv.take(m as int) =~= sv);
    }
    push_bytes(&mut out, "</Relationships>".as_bytes());
    out
}

/// The fixed root relationship part.
pub open spec fn root_rels_spec() -> Seq<u8> {
    sb(
        "<?xml version=\"1.0\" encoding=\"UTF-8\" standalone=\"yes\"?><Relationships xmlns=\"http://schemas.openxmlformats.org/package/2006/relationships\"><Relationship Id=\"rId1\" Type=\"http://schemas.openxmlformats.org/officeDocument/2006/relationships/officeDocument\" Target=\"xl/workbook.xml\"/><Relationship Id=\"rId2\" Type=\"http://schemas.openxmlformats.org/package/2006/relationships/metadata/core-properties\" Target=\"docProps/core.xml\"/><Relationship Id=\"rId3\" Type=\"http://schemas.openxmlformats.org/officeDocument/2006/relationships/extended-properties\" Target=\"docProps/app.xml\"/></Relationships>",
    )
}

/// Builds the fixed root relationship part.
pub fn build_root_relationships() -> (r: Vec<u8>)
    ensures
        r@ == root_rels_spec(),
{
    let mut out: Vec<u8> = Vec::new();
    push_bytes(
        &mut out,
        "<?xml version=\"1.0\" encoding=\"UTF-8\" standalone=\"yes\"?><Relationships xmlns=\"http://schemas.openxmlformats.org/package/2006/relationships\"><Relationship Id=\"rId1\" Type=\"http://schemas.openxmlformats.org/officeDocument/2006/relationships/officeDocument\" Target=\"xl/workbook.xml\"/><Relationship Id=\"rId2\" Type=\"http://schemas.openxmlformats.org/package/2006/relationships/metadata/core-properties\" Target=\"docProps/core.xml\"/><Relationship Id=\"rId3\" Type=\"http://schemas.openxmlformats.org/officeDocument/2006/relationships/extended-properties\" Target=\"docProps/app.xml\"/></Relationships>".as_bytes(),
    );
    out
}

pub open spec fn app_titles(sv: Seq<SheetView>) -> Seq<u8>
    decreases sv.len(),
{
    if sv.len() == 0 {
        Seq::empty()
    } else {
        app_titles(sv.drop_last()) + sb("<vt:lpstr>") + escape_bytes(
            encode_utf8(sv.last().display_name),
        ) + sb("</vt:lpstr>")
    }
}

/// The extended-properties document: the sheet count and the sheet titles.
pub open spec fn app_doc_spec(sv: Seq<SheetView>) -> Seq<u8> {
    sb(
        "<?xml version=\"1.0\" encoding=\"UTF-8\" standalone=\"yes\"?><Properties xmlns=\"http://schemas.openxmlformats.org/officeDocument/2006/extended-properties\" xmlns:vt=\"http://schemas.openxmlformats.org/officeDocument/2006/docPropsVTypes\"><Application>Bulk Sheet Editor</Application><DocSecurity>0</DocSecurity><ScaleCrop>false</ScaleCrop><HeadingPairs><vt:vector size=\"2\" baseType=\"variant\"><vt:variant><vt:lpstr>Worksheets</vt:lpstr></vt:variant><vt:variant><vt:i4>",
    ) + encode_utf8(dec_digits(sv.len())) + sb(
        "</vt:i4></vt:variant></vt:vector></HeadingPairs><TitlesOfParts><vt:vector size=\"",
    ) + encode_utf8(dec_digits(sv.len())) + sb("\" baseType=\"lpstr\">") + app_titles(sv) + sb(
        "</vt:vector></TitlesOfParts><Company></Company><LinksUpToDate>false</LinksUpToDate><SharedDoc>false</SharedDoc><HyperlinksChanged>false</HyperlinksChanged><AppVersion>16.0300</AppVersion></Properties>",
    )
}

/// Builds the extended-properties document.
pub fn build_app_doc(sheets: &Vec<GeneratedSheet>) -> (r: Vec<u8>)
    ensures
        r@ == app_doc_spec(sheets_view(sheets@)),
{
    let ghost sv = sheets_view(sheets@);
    let mut out: Vec<u8> = Vec::new();
    push_bytes(
        &mut out,
        "<?xml version=\"1.0\" encoding=\"UTF-8\" standalone=\"yes\"?><Properties xmlns=\"http://schemas.openxmlformats.org/officeDocument/2006/extended-properties\" xmlns:vt=\"http://schemas.openxmlformats.org/officeDocument/2006/docPropsVTypes\"><Application>Bulk Sheet Editor</Application><DocSecurity>0</DocSecurity><ScaleCrop>false</ScaleCrop><HeadingPairs><vt:vector size=\"2\" baseType=\"variant\"><vt:variant><vt:lpstr>Worksheets</vt:lpstr></vt:variant><vt:variant><vt:i4>".as_bytes(),
    );
    let count = dec_string(sheets.len() as u64);
    push_bytes(&mut out, count.as_str().as_bytes());
    push_bytes(
        &mut out,
        "</vt:i4></vt:variant></vt:vector></HeadingPairs><TitlesOfParts><vt:vector size=\"".as_bytes(),
    );
    push_bytes(&mut out, count.as_str().as_bytes());
    push_bytes(&mut out, "\" baseType=\"lpstr\">".as_bytes());
    let ghost head = out@;
    proof {
        assert(out@ =~= head + app_titles(sv.take(0)));
    }
    let n = sheets.len();
    let mut k: usize = 0;
    while k < n
        invariant
            k <= n,
            n == sheets@.len(),
            sv == sheets_view(sheets@),
            sv.len() == n,
            out@ == head + app_titles(sv.take(k as int)),
        decreases n - k,
    {
        proof {
            assert(sv.take(k + 1).drop_last() =~= sv.take(k as int));
            assert(sv.take(k + 1).last() == sv[k as int]);
        }
        push_bytes(&mut out, "<vt:lpstr>".as_bytes());
        push_escaped_bytes(&mut out, sheets[k].display_name.as_str().as_bytes());
        push_bytes(&mut out, "</vt:lpstr>".as_bytes());
        proof {
            assert(out@ =~= head + app_titles(sv.take(k + 1)));
        }
        k += 1;
    }
    proof {
        assert(sv.take(n as int) =~= sv);
    }
    push_bytes(
        &mut out,
        "</vt:vector></TitlesOfParts><Company></Company><LinksUpToDate>false</LinksUpToDate><SharedDoc>false</SharedDoc><HyperlinksChanged>false</HyperlinksChanged><AppVersion>16.0300</AppVersion></Properties>".as_bytes(),
    );
    out
}

/// The fixed core-properties document.
pub open spec fn core_doc_spec() -> Seq<u8> {
    sb(
        "<?xml version=\"1.0\" encoding=\"UTF-8\" standalone=\"yes\"?><cp:coreProperties xmlns:cp=\"http://schemas.openxmlformats.org/package/2006/metadata/core-properties\" xmlns:dc=\"http://purl.org/dc/elements/1.1/\" xmlns:dcterms=\"http://purl.org/dc/terms/\" xmlns:dcmitype=\"http://purl.org/dc/dcmitype/\" xmlns:xsi=\"http://www.w3.org/2001/XMLSchema-instance\"><dc:creator>Bulk Sheet Editor</dc:creator><cp:lastModifiedBy>Bulk Sheet Editor</cp:lastModifiedBy><dcterms:created xsi:type=\"dcterms:W3CDTF\">2024-01-01T00:00:00Z</dcterms:created><dcterms:modified xsi:type=\"dcterms:W3CDTF\">2024-01-01T00:00:00Z</dcterms:modified></cp:coreProperties>",
    )
}

/// Builds the fixed core-properties document.
pub fn build_core_doc() -> (r: Vec<u8>)
    ensures
        r@ == core_doc_spec(),
{
    let mut out: Vec<u8> = Vec::new();
    push_bytes(
        &mut out,
        "<?xml version=\"1.0\" encoding=\"UTF-8\" standalone=\"yes\"?><cp:coreProperties xmlns:cp=\"http://schemas.openxmlformats.org/package/2006/metadata/core-properties\" xmlns:dc=\"http://purl.org/dc/elements/1.1/\" xmlns:dcterms=\"http://purl.org/dc/terms/\" xmlns:dcmitype=\"http://purl.org/dc/dcmitype/\" xmlns:xsi=\"http://www.w3.org/2001/XMLSchema-instance\"><dc:creator>Bulk Sheet Editor</dc:creator><cp:lastModifiedBy>Bulk Sheet Editor</cp:lastModifiedBy><dcterms:created xsi:type=\"dcterms:W3CDTF\">2024-01-01T00:00:00Z</dcterms:created><dcterms:modified xsi:type=\"dcterms:W3CDTF\">2024-01-01T00:00:00Z</dcterms:modified></cp:coreProperties>".as_bytes(),
    );
    out
}

/// Whether a template part is replaced by a rewritten document or a
/// generated worksheet, and must therefore not be copied through.
pub open spec fn skip_entry_spec(nb: Seq<u8>) -> bool {
    ||| nb == sb("[Content_Types].xml")
    ||| nb == sb("_rels/.rels")
    ||| nb == sb("docProps/app.xml")
    ||| nb == sb("docProps/core.xml")
    ||| nb == sb("xl/workbook.xml")
    ||| nb == sb("xl/_rels/workbook.xml.rels")
    ||| (nb.len() >= 14 && nb.subrange(0, 14) == sb("xl/worksheets/"))
}

/// Decides whether a template part is dropped in favour of rewritten
/// content.
pub fn should_skip_entry(name: &str) -> (r: bool)
    ensures
        r == skip_entry_spec(encode_utf8(name@)),
{
    let nb = name.as_bytes();
    if bytes_eq(nb, "[Content_Types].xml".as_bytes()) {
        return true;
    }
    if bytes_eq(nb, "_rels/.rels".as_bytes()) {
        return true;
    }
    if bytes_eq(nb, "docProps/app.xml".as_bytes()) {
        return true;
    }
    if bytes_eq(nb, "docProps/core.xml".as_bytes()) {
        return true;
    }
    if bytes_eq(nb, "xl/workbook.xml".as_bytes()) {
        return true;
    }
    if bytes_eq(nb, "xl/_rels/workbook.xml.rels".as_bytes()) {
        return true;
    }
    if nb.len() >= 14 {
        if bytes_eq(slice_subrange(nb, 0, 14), "xl/worksheets/".as_bytes()) {
            return true;
        }
    }
    false
}

/// Whether the byte pattern occurs anywhere in the text.
pub open spec fn contains_seq(s: Seq<u8>, pat: Seq<u8>) -> bool {
    exists|j: int| 0 <= j && j + pat.len() <= s.len() && #[trigger] s.subrange(j, j + pat.len()) == pat
}

/// Tests whether the byte pattern occurs anywhere in the text.
pub fn contains_seq_x(s: &[u8], pat: &[u8]) -> (r: bool)
    ensures
        r == contains_seq(s@, pat@),
{
    let n = s.len();
    let p = pat.len();
    if p > n {
        return false;
    }
    if p == 0 {
        proof {
            assert(s@.subrange(0, 0 + pat@.len() as int) =~= pat@);
            assert(contains_seq(s@, pat@));
        }
        return true;
    }
    let mut j: usize = 0;
    while j <= n - p
        invariant
            1 <= p <= n,
            n == s@.len(),
            p == pat@.len(),
            j <= n - p + 1,
            forall|t: int| 0 <= t < j ==> #[trigger] s@.subrange(t, t + pat@.len()) != pat@,
        decreases n - p + 1 - j,
    {
        if bytes_eq(slice_subrange(s, j, j + p), pat) {
            return true;
        }
        j += 1;
    }
    proof {
        assert(forall|t: int|
            0 <= t && t + pat@.len() <= s@.len() ==> #[trigger] s@.subrange(t, t + pat@.len()) != pat@);
    }
    false
}


/// The content-type override line of one generated sheet.
pub open spec fn ct_override_line(v: SheetView) -> Seq<u8> {
    sb("\n    <Override PartName=\"/xl/") + encode_utf8(v.part_name) + sb(
        "\" ContentType=\"application/vnd.openxmlformats-officedocument.spreadsheetml.worksheet+xml\"/>",
    )
}

pub open spec fn ct_overrides(sv: Seq<SheetView>) -> Seq<u8>
    decreases sv.len(),
{
    if sv.len() == 0 {
        Seq::empty()
    } else {
        ct_overrides(sv.drop_last()) + ct_override_line(sv.last())
    }
}

/// Whether an event is a worksheet content-type override, which the rewrite
/// drops.
pub open spec fn is_ws_override(tok: SpecTok) -> bool {
    match tok {
        SpecTok::Empty { name, attrs } => name == sb("Override") && (match attr_of(
            attrs,
            sb("PartName"),
        ) {
            Some(pn) => contains_seq(pn, sb("/xl/worksheets/")),
            None => false,
        }),
        _ => false,
    }
}

/// Whether an event closes the content-type list, in front of which the
/// fresh overrides are injected.
pub open spec fn is_types_end(tok: SpecTok) -> bool {
    match tok {
        SpecTok::End { name } => name == sb("Types"),
        _ => false,
    }
}

/// The rewritten content-type list from byte position `i` on: original
/// worksheet overrides dropped, one fresh override per generated sheet
/// injected before the closing tag, everything else re-emitted verbatim.
pub open spec fn ct_from(s: Seq<u8>, i: int, sv: Seq<SheetView>) -> Option<Seq<u8>>
    decreases s.len() - i,
    when 0 <= i <= s.len()
    via ct_from_decreases
{
    if i >= s.len() {
        Some(Seq::empty())
    } else {
        match lex(s, i) {
            None => None,
            Some((tok, j)) => {
                let emitted = if is_ws_override(tok) {
                    Seq::<u8>::empty()
                } else if is_types_end(tok) {
                    ct_overrides(sv) + s.subrange(i, j)
                } else {
                    s.subrange(i, j)
                };
                match ct_from(s, j, sv) {
                    None => None,
                    Some(rest) => Some(emitted + rest),
                }
            },
        }
    }
}

#[via_fn]
proof fn ct_from_decreases(s: Seq<u8>, i: int, sv: Seq<SheetView>) {
    if 0 <= i < s.len() {
        crate::lexer::lemma_lex_bounds(s, i);
    }
}

/// Appends the fresh override lines, one per generated sheet.
fn emit_ct_overrides(out: &mut Vec<u8>, sheets: &Vec<GeneratedSheet>)
    ensures
        final(out)@ == old(out)@ + ct_overrides(sheets_view(sheets@)),
{
    let ghost sv = sheets_view(sheets@);
    let ghost head = out@;
    proof {
        assert(out@ =~= head + ct_overrides(sv.take(0)));
    }
    let n = sheets.len();
    let mut k: usize = 0;
    while k < n
        invariant
            k <= n,
            n == sheets@.len(),
            sv == sheets_view(sheets@),
            sv.len() == n,
            out@ == head + ct_overrides(sv.take(k as int)),
        decreases n - k,
    {
        proof {
            assert(sv.take(k + 1).drop_last() =~= sv.take(k as int));
            assert(sv.take(k + 1).last() == sv[k as int]);
        }
        push_bytes(out, "\n    <Override PartName=\"/xl/".as_bytes());
        push_bytes(out, sheets[k].part_name.as_str().as_bytes());
        push_bytes(
            out,
            "\" ContentType=\"application/vnd.openxmlformats-officedocument.spreadsheetml.worksheet+xml\"/>".as_bytes(),
        );
        proof {
            assert(out@ =~= head + ct_overrides(sv.take(k + 1)));
        }
        k += 1;
    }
    proof {
        assert(sv.take(n as int) =~= sv);
    }
}

/// Re-associates one emitted piece into the accumulated output.
proof fn lemma_ct_cat_step(s: Seq<u8>, sv: Seq<SheetView>, pre: Seq<u8>, piece: Seq<u8>, j: int)
    requires
        0 <= j <= s.len(),
    ensures
        (match ct_from(s, j, sv) {
            None => None::<Seq<u8>>,
            Some(rest) => Some(pre + (piece + rest)),
        }) == (match ct_from(s, j, sv) {
            None => None::<Seq<u8>>,
            Some(rest) => Some((pre + piece) + rest),
        }),
{
    match ct_from(s, j, sv) {
        None => {},
        Some(rest) => {
            assert(pre + (piece + rest) =~= (pre + piece) + rest);
        },
    }
}

/// Rewrites the content-type list for the generated sheets.
///
/// Original worksheet overrides are removed, one fresh override per
/// generated sheet is injected before the closing tag, and every other node
/// passes through byte-identical.  An unparsable list is reported as
/// `TemplateStructureInvalid`.
pub fn build_content_types(original: &[u8], sheets: &Vec<GeneratedSheet>) -> (r: Result<
    Vec<u8>,
    GenError,
>)
    ensures
        match ct_from(original@, 0, sheets_view(sheets@)) {
            Some(o) => (r matches Ok(out) && out@ == o),
            None => r == Err::<Vec<u8>, GenError>(GenError::TemplateStructureInvalid),
        },
{
    let ghost s = original@;
    let ghost sv = sheets_view(sheets@);
    let n = original.len();
    let mut out: Vec<u8> = Vec::new();
    let mut i: usize = 0;
    while i < n
        invariant
            i <= n,
            n == s.len(),
            s == original@,
            sv == sheets_view(sheets@),
            ct_from(s, 0, sv) == match ct_from(s, i as int, sv) {
                None => None::<Seq<u8>>,
                Some(rest) => Some(out@ + rest),
            },
        decreases n - i,
    {
        match lex_at(original, i) {
            None => {
                return Err(GenError::TemplateStructureInvalid);
            },
            Some((tok, j)) => {
                let ghost out_old = out@;
                let mut handled = false;
                match &tok {
                    Token::Empty { name, attrs } => {
                        if bytes_eq(name.as_slice(), "Override".as_bytes()) {
                            match attr_lookup(attrs, "PartName".as_bytes()) {
                                Some(pn) => {
                                    if contains_seq_x(pn.as_slice(), "/xl/worksheets/".as_bytes()) {
                                        handled = true;
                                        proof {
                                            assert(is_ws_override(tok@));
                                            lemma_ct_cat_step(s, sv, out_old, Seq::<u8>::empty(),
                                            j as int);
                                            assert(out_old + Seq::<u8>::empty() =~= out_old);
                                        }
                                    }
                                },
                                None => {},
                            }
                        }
                    },
                    Token::End { name } => {
                        if bytes_eq(name.as_slice(), "Types".as_bytes()) {
                            handled = true;
                            emit_ct_overrides(&mut out, sheets);
                            push_bytes(&mut out, slice_subrange(original, i, j));
                            proof {
                                assert(is_types_end(tok@));
                                assert(out@ =~= out_old + (ct_overrides(sv) + s.subrange(
                                    i as int,
                                    j as int,
                                )));
                                lemma_ct_cat_step(s, sv, out_old, ct_overrides(sv) + s.subrange(
                                    i as int,
                                    j as int,
                                ), j as int);
                            }
                        }
                    },
                    _ => {},
                }
                if !handled {
                    proof {
                        assert(!is_ws_override(tok@) && !is_types_end(tok@));
                    }
                    push_bytes(&mut out, slice_subrange(original, i, j));
                    proof {
                        lemma_ct_cat_step(s, sv, out_old, s.subrange(i as int, j as int), j as int);
                    }
                }
                i = j;
            },
        }
    }
    proof {
        assert(ct_from(s, n as int, sv) == Some(Seq::<u8>::empty()));
        assert(out@ + Seq::<u8>::empty() =~= out@);
    }
    Ok(out)
}

/// The views of a mapping list: (source column index, destination text).
pub open spec fn mapping_views(ms: Seq<crate::state::CellMapping>) -> Seq<(nat, Seq<char>)> {
    ms.map_values(|m: crate::state::CellMapping| (m.column_index as nat, m.cell_ref@))
}

/// The view of one input row.
pub open spec fn row_view(row: Seq<String>) -> Seq<Seq<char>> {
    row.map_values(|s: String| s@)
}

/// The replacement map of one row: mappings applied in order, a decodable
/// destination and an in-range source column required, a later mapping
/// overriding an earlier one with the same destination.  A mapping whose
/// source column lies beyond the row is skipped, leaving the template's
/// value in place.
pub open spec fn materialize_spec(ms: Seq<(nat, Seq<char>)>, row: Seq<Seq<char>>) -> Map<
    crate::cell::CellAddress,
    Seq<u8>,
>
    decreases ms.len(),
{
    if ms.len() == 0 {
        Map::empty()
    } else {
        let m = materialize_spec(ms.drop_last(), row);
        let mp = ms.last();
        match crate::cell::decode_spec(mp.1) {
            Some(p) => if mp.0 < row.len() {
                m.insert(
                    crate::cell::CellAddress { row: p.0, column: p.1 },
                    encode_utf8(row[mp.0 as int]),
                )
            } else {
                m
            },
            None => m,
        }
    }
}

/// Builds the replacement map of one row.
pub fn materialize(mappings: &Vec<crate::state::CellMapping>, row: &Vec<String>) -> (r:
    crate::patch::Replacements)
    ensures
        r@ == materialize_spec(mapping_views(mappings@), row_view(row@)),
{
    let ghost msv = mapping_views(mappings@);
    let ghost rv = row_view(row@);
    let mut reps = crate::patch::Replacements::new();
    let n = mappings.len();
    let mut k: usize = 0;
    proof {
        assert(msv.take(0) =~= Seq::<(nat, Seq<char>)>::empty());
    }
    while k < n
        invariant
            k <= n,
            n == mappings@.len(),
            msv == mapping_views(mappings@),
            rv == row_view(row@),
            msv.len() == n,
            rv.len() == row@.len(),
            reps@ == materialize_spec(msv.take(k as int), rv),
        decreases n - k,
    {
        proof {
            assert(msv.take(k + 1).drop_last() =~= msv.take(k as int));
            assert(msv.take(k + 1).last() == msv[k as int]);
        }
        match crate::cell::parse_cell_reference(mappings[k].cell_ref.as_str()) {
            Some(p) => {
                let idx = mappings[k].column_index;
                if idx < row.len() {
                    proof {
                        assert(rv[idx as int] == row@[idx as int]@);
                    }
                    let value = row[idx].as_str().as_bytes_vec();
                    reps.insert(p.0, p.1, value);
                }
            },
            None => {},
        }
        k += 1;
    }
    proof {
        assert(msv.take(n as int) =~= msv);
    }
    reps
}

/// The patched body of one sheet: the template itself for an empty
/// replacement map, the single-pass rewrite otherwise.
pub open spec fn body_spec(template: Seq<u8>, m: Map<crate::cell::CellAddress, Seq<u8>>) -> Option<
    Seq<u8>,
> {
    if m == Map::<crate::cell::CellAddress, Seq<u8>>::empty() {
        Some(template)
    } else {
        crate::patch::patch_from(template, 0, 0, m)
    }
}

/// The fixed naming scheme of the sheet generated for row `i` (zero-based):
/// display name `<template sheet name> <i+1>`, part name
/// `worksheets/sheet<i+1>.xml`, relationship id `rId<base+i+1>` past the
/// highest pre-existing id, sheet id `i+1`, and the template sheet's own
/// relationship part carried along.
pub open spec fn sheet_shape_ok(
    v: SheetView,
    name: Seq<char>,
    base: int,
    i: int,
    srel: Option<Seq<u8>>,
) -> bool {
    &&& v.display_name == name + " "@ + dec_digits((i + 1) as nat)
    &&& v.part_name == "worksheets/sheet"@ + dec_digits((i + 1) as nat) + ".xml"@
    &&& v.relationship_id == "rId"@ + dec_digits((base + i + 1) as nat)
    &&& v.sheet_numeric_id == i + 1
    &&& v.rel_part == srel
}

proof fn lemma_cancel_prefix(p: Seq<char>, x: Seq<char>, y: Seq<char>)
    requires
        p + x == p + y,
    ensures
        x == y,
{
    assert(x =~= (p + x).skip(p.len() as int));
    assert(y =~= (p + y).skip(p.len() as int));
}

proof fn lemma_cancel_suffix(x: Seq<char>, y: Seq<char>, s: Seq<char>)
    requires
        x + s == y + s,
    ensures
        x == y,
{
    assert((x + s).len() == (y + s).len());
    assert(x =~= (x + s).take(x.len() as int));
    assert(y =~= (y + s).take(y.len() as int));
}

proof fn lemma_dec_digits_inj(a: nat, b: nat)
    ensures
        dec_digits(a) == dec_digits(b) ==> a == b,
{
    crate::cell::lemma_dec_digits_wf(a);
    crate::cell::lemma_dec_digits_wf(b);
}

/// Sheets named by the fixed scheme carry pairwise distinct relationship
/// ids and pairwise distinct part names.
pub proof fn lemma_generated_sheets_distinct(
    sv: Seq<SheetView>,
    name: Seq<char>,
    base: int,
    srel: Option<Seq<u8>>,
)
    requires
        base >= 0,
        forall|i: int| 0 <= i < sv.len() ==> sheet_shape_ok(#[trigger] sv[i], name, base, i, srel),
    ensures
        forall|i: int, j: int|
            0 <= i < sv.len() && 0 <= j < sv.len() && i != j ==> #[trigger] sv[i].relationship_id
                != #[trigger] sv[j].relationship_id,
        forall|i: int, j: int|
            0 <= i < sv.len() && 0 <= j < sv.len() && i != j ==> #[trigger] sv[i].part_name
                != #[trigger] sv[j].part_name,
{
    assert forall|i: int, j: int|
        0 <= i < sv.len() && 0 <= j < sv.len() && i != j implies #[trigger] sv[i].relationship_id
        != #[trigger] sv[j].relationship_id by {
        if sv[i].relationship_id == sv[j].relationship_id {
            lemma_cancel_prefix(
                "rId"@,
                dec_digits((base + i + 1) as nat),
                dec_digits((base + j + 1) as nat),
            );
            lemma_dec_digits_inj((base + i + 1) as nat, (base + j + 1) as nat);
        }
    }
    assert forall|i: int, j: int|
        0 <= i < sv.len() && 0 <= j < sv.len() && i != j implies #[trigger] sv[i].part_name
        != #[trigger] sv[j].part_name by {
        if sv[i].part_name == sv[j].part_name {
            assert(("worksheets/sheet"@ + dec_digits((i + 1) as nat)) + ".xml"@
                =~= "worksheets/sheet"@ + (dec_digits((i + 1) as nat) + ".xml"@));
            assert(("worksheets/sheet"@ + dec_digits((j + 1) as nat)) + ".xml"@
                =~= "worksheets/sheet"@ + (dec_digits((j + 1) as nat) + ".xml"@));
            lemma_cancel_prefix(
                "worksheets/sheet"@,
                dec_digits((i + 1) as nat) + ".xml"@,
                dec_digits((j + 1) as nat) + ".xml"@,
            );
            lemma_cancel_suffix(dec_digits((i + 1) as nat), dec_digits((j + 1) as nat), ".xml"@);
            lemma_dec_digits_inj((i + 1) as nat, (j + 1) as nat);
        }
    }
}

proof fn lemma_digit_bytes_value(cs: Seq<char>, bs: Seq<u8>)
    requires
        bs.len() == cs.len(),
        forall|j: int| 0 <= j < cs.len() ==> bs[j] == #[trigger] cs[j] as u8,
        forall|j: int| 0 <= j < cs.len() ==> crate::cell::is_cell_digit(#[trigger] cs[j]),
    ensures
        crate::package::all_digit_bytes(bs),
        crate::package::bytes_dec_val(bs) == crate::cell::row_val(cs),
    decreases cs.len(),
{
    if cs.len() > 0 {
        assert forall|j: int|
            0 <= j < cs.len() - 1 implies bs.drop_last()[j] == #[trigger] cs.drop_last()[j] as u8
            && crate::cell::is_cell_digit(cs.drop_last()[j]) by {
            assert(cs.drop_last()[j] == cs[j]);
            assert(bs.drop_last()[j] == bs[j]);
            assert(bs[j] == cs[j] as u8);
            assert(crate::cell::is_cell_digit(cs[j]));
            vstd::utf8::char_u32_cast(cs[j], cs[j] as u32);
        };
        lemma_digit_bytes_value(cs.drop_last(), bs.drop_last());
        let k = cs.len() - 1;
        assert(bs[k] == cs[k] as u8);
        assert(crate::cell::is_cell_digit(cs[k]));
        assert(bs.last() == cs.last() as u8);
        assert(crate::package::all_digit_bytes(bs)) by {
            assert forall|j: int| 0 <= j < bs.len() implies 48 <= #[trigger] bs[j] <= 57 by {
                assert(bs[j] == cs[j] as u8);
                assert(crate::cell::is_cell_digit(cs[j]));
                vstd::utf8::char_u32_cast(cs[j], cs[j] as u32);
            };
        };
        assert(crate::package::bytes_dec_val(bs) == crate::package::bytes_dec_val(bs.drop_last())
            * 10 + (bs.last() - 48));
        assert(crate::cell::row_val(cs) == crate::cell::row_val(cs.drop_last()) * 10
            + crate::cell::digit_val(cs.last()));
        lemma_char_scalar(cs.last());
        assert((bs.last() - 48) as nat == crate::cell::digit_val(cs.last()));
    }
}

/// Pins a character's scalar value so casts and orderings line up.
proof fn lemma_char_scalar(c: char)
    ensures
        (c as u32) as char == c,
{
    vstd::utf8::char_u32_cast(c, c as u32);
}

/// The decimal digits of a number are ASCII text.
proof fn lemma_digits_ascii(n: nat)
    ensures
        vstd::utf8::is_ascii_chars(dec_digits(n)),
{
    crate::cell::lemma_dec_digits_wf(n);
    assert forall|j: int|
        0 <= j < dec_digits(n).len() implies '\0' <= #[trigger] dec_digits(n)[j] <= '\u{7f}' by {
        assert(crate::cell::is_cell_digit(dec_digits(n)[j]));
        lemma_char_scalar(dec_digits(n)[j]);
    };
}

/// An id of the fixed scheme reads back as exactly its number.
proof fn lemma_generated_id_val(n: nat)
    requires
        1 <= n <= u32::MAX,
    ensures
        crate::package::rid_val(encode_utf8("rId"@ + dec_digits(n))) == Some(n as u32),
{
    reveal_strlit("rId");
    crate::cell::lemma_dec_digits_wf(n);
    lemma_digits_ascii(n);
    let d = dec_digits(n);
    let g = "rId"@ + d;
    assert(vstd::utf8::is_ascii_chars("rId"@));
    vstd::utf8::is_ascii_chars_concat(g, "rId"@, d);
    vstd::utf8::is_ascii_chars_encode_utf8(g);
    let gb = encode_utf8(g);
    assert(vstd::utf8::is_ascii_chars("rId"@));
    vstd::utf8::is_ascii_chars_encode_utf8("rId"@);
    assert(gb.subrange(0, 3) =~= sb("rId"));
    let ds = gb.skip(3);
    assert(ds.len() == d.len());
    assert(forall|j: int| 0 <= j < d.len() ==> ds[j] == #[trigger] d[j] as u8) by {
        assert(forall|j: int| 0 <= j < d.len() ==> ds[j] == gb[j + 3] && g[j + 3] == d[j]);
    };
    lemma_digit_bytes_value(d, ds);
    assert(crate::package::bytes_dec_val(ds) == n);
    assert(crate::package::rid_val(gb) == Some(n as u32));
}

/// A part name of the fixed scheme lies under the worksheet folder.
proof fn lemma_generated_name_prefix(n: nat)
    requires
        1 <= n,
    ensures
        ({
            let g = "xl/"@ + ("worksheets/sheet"@ + dec_digits(n) + ".xml"@);
            &&& encode_utf8(g).len() >= 14
            &&& encode_utf8(g).subrange(0, 14) == sb("xl/worksheets/")
        }),
{
    reveal_strlit("xl/");
    reveal_strlit("worksheets/sheet");
    reveal_strlit(".xml");
    reveal_strlit("xl/worksheets/");
    crate::cell::lemma_dec_digits_wf(n);
    lemma_digits_ascii(n);
    let d = dec_digits(n);
    let g = "xl/"@ + ("worksheets/sheet"@ + d + ".xml"@);
    assert(vstd::utf8::is_ascii_chars("xl/"@));
    assert(vstd::utf8::is_ascii_chars("worksheets/sheet"@));
    assert(vstd::utf8::is_ascii_chars(".xml"@));
    vstd::utf8::is_ascii_chars_concat("worksheets/sheet"@ + d, "worksheets/sheet"@, d);
    vstd::utf8::is_ascii_chars_concat(
        ("worksheets/sheet"@ + d) + ".xml"@,
        "worksheets/sheet"@ + d,
        ".xml"@,
    );
    assert("worksheets/sheet"@ + d + ".xml"@ =~= ("worksheets/sheet"@ + d) + ".xml"@);
    vstd::utf8::is_ascii_chars_concat(g, "xl/"@, "worksheets/sheet"@ + d + ".xml"@);
    vstd::utf8::is_ascii_chars_encode_utf8(g);
    assert(vstd::utf8::is_ascii_chars("xl/worksheets/"@));
    vstd::utf8::is_ascii_chars_encode_utf8("xl/worksheets/"@);
    assert(encode_utf8(g).subrange(0, 14) =~= sb("xl/worksheets/"));
}

/// Beyond being pairwise distinct, the generated sheets collide with nothing
/// they join: each generated relationship id (as it is written into the
/// table) differs from every preserved relationship id, and each generated
/// part name (under `xl/`) differs from every part the run copies through.
/// The bound on the preserved ids is what
/// `crate::package::lemma_preserved_ids_bounded` yields from the parsed
/// relationship table.
pub proof fn lemma_generated_sheets_fresh(
    sv: Seq<SheetView>,
    name: Seq<char>,
    base: int,
    srel: Option<Seq<u8>>,
    preserved: Seq<(Seq<u8>, Seq<u8>, Seq<u8>)>,
    max_id: u32,
    entries: Seq<(Seq<char>, Seq<u8>)>,
)
    requires
        base == max_id as int,
        base + sv.len() <= u32::MAX,
        forall|i: int| 0 <= i < sv.len() ==> sheet_shape_ok(#[trigger] sv[i], name, base, i, srel),
        forall|k: int|
            0 <= k < preserved.len() ==> (match crate::package::rid_val(
                #[trigger] preserved[k].0,
            ) {
                Some(v) => v <= max_id,
                None => true,
            }),
    ensures
        forall|i: int, k: int|
            0 <= i < sv.len() && 0 <= k < preserved.len() ==> encode_utf8(
                #[trigger] sv[i].relationship_id,
            ) != #[trigger] preserved[k].0,
        forall|i: int, k: int|
            0 <= i < sv.len() && 0 <= k < entries.len() && !skip_entry_spec(
                encode_utf8(#[trigger] entries[k].0),
            ) ==> "xl/"@ + #[trigger] sv[i].part_name != entries[k].0,
{
    assert forall|i: int, k: int|
        0 <= i < sv.len() && 0 <= k < preserved.len() implies encode_utf8(
        #[trigger] sv[i].relationship_id,
    ) != #[trigger] preserved[k].0 by {
        lemma_generated_id_val((base + i + 1) as nat);
        if encode_utf8(sv[i].relationship_id) == preserved[k].0 {
            assert(crate::package::rid_val(preserved[k].0) == Some((base + i + 1) as u32));
        }
    };
    assert forall|i: int, k: int|
        0 <= i < sv.len() && 0 <= k < entries.len() && !skip_entry_spec(
            encode_utf8(#[trigger] entries[k].0),
        ) implies "xl/"@ + #[trigger] sv[i].part_name != entries[k].0 by {
        lemma_generated_name_prefix((i + 1) as nat);
        if "xl/"@ + sv[i].part_name == entries[k].0 {
            assert(skip_entry_spec(encode_utf8(entries[k].0)));
        }
    };
}

/// Whether every row's patch goes through.
pub open spec fn all_bodies_ok(
    tpl: Seq<u8>,
    msv: Seq<(nat, Seq<char>)>,
    rowsv: Seq<Vec<String>>,
) -> bool {
    forall|i: int|
        0 <= i < rowsv.len() ==> body_spec(
            tpl,
            materialize_spec(msv, row_view(#[trigger] rowsv[i]@)),
        ) is Some
}

/// The exact sheet list one run plans: for row `i`, the fixed names under
/// the naming scheme and the patched body.  Meaningful where every row's
/// patch goes through (`all_bodies_ok`).
#[verifier::opaque]
pub open spec fn planned_sheets(
    tpl: Seq<u8>,
    name: Seq<char>,
    base: int,
    srel: Option<Seq<u8>>,
    msv: Seq<(nat, Seq<char>)>,
    rowsv: Seq<Vec<String>>,
) -> Seq<SheetView> {
    Seq::new(
        rowsv.len(),
        |i: int|
            SheetView {
                display_name: name + " "@ + dec_digits((i + 1) as nat),
                part_name: "worksheets/sheet"@ + dec_digits((i + 1) as nat) + ".xml"@,
                relationship_id: "rId"@ + dec_digits((base + i + 1) as nat),
                sheet_numeric_id: (i + 1) as u32,
                body: (match body_spec(tpl, materialize_spec(msv, row_view(rowsv[i]@))) {
                    Some(b) => b,
                    None => Seq::<u8>::empty(),
                }),
                rel_part: srel,
            },
    )
}

/// Generates one sheet per input row: the row's replacements applied to the
/// template body, under the fixed naming scheme.  Fails with `MalformedXml`
/// exactly when some row's patch cannot parse the template.  The row-count
/// bound keeps every allocated sheet id inside `u32`.
pub fn generate_sheets(
    pkg: &crate::package::LoadedPackage,
    sheet_name: &str,
    mappings: &Vec<crate::state::CellMapping>,
    rows: &Vec<Vec<String>>,
) -> (r: Result<Vec<GeneratedSheet>, GenError>)
    requires
        rows@.len() < 0x8000_0000,
    ensures
        match r {
            Ok(sheets) => {
                let sv = sheets_view(sheets@);
                &&& sv.len() == rows@.len()
                &&& all_bodies_ok(pkg.template_sheet_xml@, mapping_views(mappings@), rows@)
                &&& sv == planned_sheets(
                    pkg.template_sheet_xml@,
                    sheet_name@,
                    pkg.next_relationship_index as int,
                    pkg.view_spec().sheet_rel,
                    mapping_views(mappings@),
                    rows@,
                )
                &&& forall|i: int|
                    0 <= i < sv.len() ==> sheet_shape_ok(
                        #[trigger] sv[i],
                        sheet_name@,
                        pkg.next_relationship_index as int,
                        i,
                        pkg.view_spec().sheet_rel,
                    )
                &&& forall|i: int|
                    0 <= i < sv.len() ==> body_spec(
                        pkg.template_sheet_xml@,
                        materialize_spec(mapping_views(mappings@), row_view(#[trigger] rows@[i]@)),
                    ) == Some(sv[i].body)
                &&& forall|i: int, j: int|
                    0 <= i < sv.len() && 0 <= j < sv.len() && i != j ==> #[trigger] sv[i].relationship_id
                        != #[trigger] sv[j].relationship_id
                &&& forall|i: int, j: int|
                    0 <= i < sv.len() && 0 <= j < sv.len() && i != j ==> #[trigger] sv[i].part_name
                        != #[trigger] sv[j].part_name
            },
            Err(e) => e == GenError::MalformedXml && !all_bodies_ok(
                pkg.template_sheet_xml@,
                mapping_views(mappings@),
                rows@,
            ),
        },
{
    let base: u64 = pkg.next_relationship_index as u64;
    let n = rows.len();
    let mut sheets: Vec<GeneratedSheet> = Vec::new();
    let mut k: usize = 0;
    while k < n
        invariant
            k <= n,
            n == rows@.len(),
            n < 0x8000_0000,
            base == pkg.next_relationship_index as u64,
            sheets@.len() == k,
            forall|i: int|
                0 <= i < k ==> sheet_shape_ok(
                    #[trigger] sheets_view(sheets@)[i],
                    sheet_name@,
                    base as int,
                    i,
                    pkg.view_spec().sheet_rel,
                ),
            forall|i: int|
                0 <= i < k ==> body_spec(
                    pkg.template_sheet_xml@,
                    materialize_spec(mapping_views(mappings@), row_view(#[trigger] rows@[i]@)),
                ) == Some(sheets_view(sheets@)[i].body),
        decreases n - k,
    {
        let reps = materialize(mappings, &rows[k]);
        let body = match crate::patch::patch(pkg.template_sheet_xml.as_slice(), &reps) {
            Ok(b) => b,
            Err(e) => {
                proof {
                    assert(body_spec(
                        pkg.template_sheet_xml@,
                        materialize_spec(mapping_views(mappings@), row_view(rows@[k as int]@)),
                    ) is None);
                }
                return Err(e);
            },
        };
        let mut display = sheet_name.to_owned();
        display.append(" ");
        let row_digits = crate::cell::dec_string((k + 1) as u64);
        display.append(row_digits.as_str());
        let mut part = "worksheets/sheet".to_owned();
        part.append(row_digits.as_str());
        part.append(".xml");
        let mut rid = "rId".to_owned();
        let rid_digits = crate::cell::dec_string(base + k as u64 + 1);
        rid.append(rid_digits.as_str());
        let rel_part: Option<Vec<u8>> = match &pkg.template_sheet_relationship {
            Some(v) => Some(slice_to_vec(v.as_slice())),
            None => None,
        };
        let g = GeneratedSheet {
            display_name: display,
            part_name: part,
            relationship_id: rid,
            sheet_numeric_id: (k + 1) as u32,
            body_bytes: body,
            relationship_part_bytes: rel_part,
        };
        let ghost old_sheets = sheets@;
        proof {
            assert(sheet_shape_ok(
                g@,
                sheet_name@,
                base as int,
                k as int,
                pkg.view_spec().sheet_rel,
            ));
        }
        sheets.push(g);
        proof {
            assert(sheets_view(sheets@) =~= sheets_view(old_sheets).push(g@));
            assert(forall|i: int|
                0 <= i < k ==> sheets_view(sheets@)[i] == sheets_view(old_sheets)[i]);
        }
        k += 1;
    }
    proof {
        lemma_generated_sheets_distinct(
            sheets_view(sheets@),
            sheet_name@,
            base as int,
            pkg.view_spec().sheet_rel,
        );
        reveal(planned_sheets);
        let sv = sheets_view(sheets@);
        let pl = planned_sheets(
            pkg.template_sheet_xml@,
            sheet_name@,
            base as int,
            pkg.view_spec().sheet_rel,
            mapping_views(mappings@),
            rows@,
        );
        assert forall|i: int| 0 <= i < sv.len() implies sv[i] == pl[i] by {
            assert(sheet_shape_ok(
                sv[i],
                sheet_name@,
                base as int,
                i,
                pkg.view_spec().sheet_rel,
            ));
            assert(body_spec(
                pkg.template_sheet_xml@,
                materialize_spec(mapping_views(mappings@), row_view(rows@[i]@)),
            ) == Some(sv[i].body));
        };
        assert(sv =~= pl);
    }
    Ok(sheets)
}


/// The position of the last occurrence of a character, if any.
pub open spec fn rfind_char(s: Seq<char>, c: char) -> Option<int>
    decreases s.len(),
{
    if s.len() == 0 {
        None
    } else if s.last() == c {
        Some(s.len() - 1)
    } else {
        rfind_char(s.drop_last(), c)
    }
}

/// The conventional sibling path of a generated sheet's relationship part.
pub open spec fn sheet_rel_path_chars(t: Seq<char>) -> Option<Seq<char>> {
    match rfind_char(t, '/') {
        None => None,
        Some(k) => Some(t.take(k) + "/_rels/"@ + t.skip(k + 1) + ".rels"@),
    }
}

fn sheet_rel_path_str(target: &str) -> (r: Option<String>)
    ensures
        match sheet_rel_path_chars(target@) {
            Some(g) => r matches Some(v) && v@ == g,
            None => r is None,
        },
{
    let n = target.unicode_len();
    proof {
        assert(target@.take(n as int) =~= target@);
    }
    let mut k = n;
    loop
        invariant
            k <= n,
            n == target@.len(),
            rfind_char(target@, '/') == rfind_char(target@.take(k as int), '/'),
        ensures
            k <= n,
            n == target@.len(),
            rfind_char(target@, '/') == rfind_char(target@.take(k as int), '/'),
            k == 0 || (k >= 1 && target@[k - 1] == '/' && rfind_char(target@, '/') == Some(
                k - 1 as int,
            )),
        decreases k,
    {
        if k == 0 {
            break ;
        }
        proof {
            let q = target@.take(k as int);
            assert(q.drop_last() =~= target@.take(k - 1));
            assert(q.last() == target@[k - 1]);
        }
        if target.get_char(k - 1) == '/' {
            break ;
        }
        k = k - 1;
    }
    if k == 0 {
        proof {
            assert(target@.take(0) =~= Seq::<char>::empty());
        }
        return None;
    }
    let folder = target.substring_char(0, k - 1);
    let file = target.substring_char(k, n);
    let mut out = folder.to_owned();
    out.append("/_rels/");
    out.append(file);
    out.append(".rels");
    proof {
        assert(target@.take(k - 1 as int) == target@.subrange(0, k - 1));
        assert(target@.skip(k as int) =~= target@.subrange(k as int, n as int));
    }
    Some(out)
}

/// The archive parts of one generated sheet: its body under `xl/`, and its
/// relationship part at the conventional sibling path when both the part
/// and a folder exist.
pub open spec fn sheet_part_pair(v: SheetView) -> Seq<(Seq<char>, Seq<u8>)> {
    seq![("xl/"@ + v.part_name, v.body)] + (match (v.rel_part, sheet_rel_path_chars(
        v.part_name,
    )) {
        (Some(b), Some(p)) => seq![("xl/"@ + p, b)],
        _ => Seq::<(Seq<char>, Seq<u8>)>::empty(),
    })
}

pub open spec fn gen_sheet_parts(sv: Seq<SheetView>) -> Seq<(Seq<char>, Seq<u8>)>
    decreases sv.len(),
{
    if sv.len() == 0 {
        Seq::empty()
    } else {
        gen_sheet_parts(sv.drop_last()) + sheet_part_pair(sv.last())
    }
}

/// The template parts copied through unchanged: everything but the
/// rewritten package-level documents and the worksheet parts.
pub open spec fn passthrough_parts(es: Seq<(Seq<char>, Seq<u8>)>) -> Seq<(Seq<char>, Seq<u8>)>
    decreases es.len(),
{
    if es.len() == 0 {
        Seq::empty()
    } else {
        passthrough_parts(es.drop_last()) + (if skip_entry_spec(encode_utf8(es.last().0)) {
            Seq::<(Seq<char>, Seq<u8>)>::empty()
        } else {
            seq![es.last()]
        })
    }
}

/// The whole output part list, in order: the rewritten content-type list,
/// the fixed root relationships, the two property documents, the rewritten
/// workbook definition and relationship table, each generated sheet's parts,
/// and every untouched template part; or nothing when the content-type list
/// cannot be parsed.
#[verifier::opaque]
pub open spec fn assembled_parts(
    pkg: crate::package::SpecPackage,
    entries: Seq<(Seq<char>, Seq<u8>)>,
    sv: Seq<SheetView>,
) -> Option<Seq<(Seq<char>, Seq<u8>)>> {
    match ct_from(pkg.content_types, 0, sv) {
        None => None,
        Some(ct) => Some(
            seq![
                ("[Content_Types].xml"@, ct),
                ("_rels/.rels"@, root_rels_spec()),
                ("docProps/app.xml"@, app_doc_spec(sv)),
                ("docProps/core.xml"@, core_doc_spec()),
                ("xl/workbook.xml"@, wb_xml_spec(sv)),
                ("xl/_rels/workbook.xml.rels"@, wb_rels_spec(pkg.preserved, sv)),
            ] + gen_sheet_parts(sv) + passthrough_parts(entries),
        ),
    }
}

pub open spec fn all_names_ok(av: Seq<(Seq<char>, Seq<u8>)>) -> bool {
    forall|i: int| 0 <= i < av.len() ==> crate::container::part_name_ok(#[trigger] av[i].0)
}

/// Whether the content-type list can be rewritten at all: its event stream
/// lexes to the end.  Which sheets are injected has no bearing on that.
pub open spec fn ct_parses(s: Seq<u8>) -> bool {
    ct_from(s, 0, Seq::<SheetView>::empty()) is Some
}

/// Whether the rewrite of the content-type list goes through does not
/// depend on the sheet list: only the lexing of the list decides it.
pub proof fn lemma_ct_from_sheets_independent(
    s: Seq<u8>,
    i: int,
    sv1: Seq<SheetView>,
    sv2: Seq<SheetView>,
)
    requires
        0 <= i <= s.len(),
    ensures
        (ct_from(s, i, sv1) is Some) == (ct_from(s, i, sv2) is Some),
    decreases s.len() - i,
{
    if i < s.len() {
        crate::lexer::lemma_lex_bounds(s, i);
        match lex(s, i) {
            None => {},
            Some((tok, j)) => {
                lemma_ct_from_sheets_independent(s, j, sv1, sv2);
            },
        }
    }
}

/// The assembled part list exists exactly when the content-type list can be
/// rewritten.
pub proof fn lemma_assembled_parses(
    pkg: crate::package::SpecPackage,
    entries: Seq<(Seq<char>, Seq<u8>)>,
    sv: Seq<SheetView>,
)
    ensures
        (assembled_parts(pkg, entries, sv) is Some) == ct_parses(pkg.content_types),
{
    reveal(assembled_parts);
    lemma_ct_from_sheets_independent(pkg.content_types, 0, sv, Seq::<SheetView>::empty());
}

/// A pair list with every part asked to be compressed, as the assembler
/// stores its output.
pub open spec fn with_compression(av: Seq<(Seq<char>, Seq<u8>)>) -> Seq<(Seq<char>, Seq<u8>, bool)> {
    av.map_values(|p: (Seq<char>, Seq<u8>)| (p.0, p.1, true))
}

fn part_name_ok_x(name: &str) -> (r: bool)
    ensures
        r == crate::container::part_name_ok(name@),
{
    let n = name.unicode_len();
    if n == 0 {
        return false;
    }
    let c = name.get_char(n - 1);
    c != '/' && c != '\\'
}

/// Appends the parts of every generated sheet, in row order.
fn push_generated(out: &mut Vec<ArchivePart>, sheets: &Vec<GeneratedSheet>)
    ensures
        crate::container::parts_view(final(out)@) == crate::container::parts_view(old(out)@)
            + gen_sheet_parts(sheets_view(sheets@)),
        final(out)@.len() >= old(out)@.len(),
        forall|i: int| 0 <= i < old(out)@.len() ==> final(out)@[i] == old(out)@[i],
        forall|i: int|
            old(out)@.len() <= i < final(out)@.len() ==> (#[trigger] final(out)@[i]).compress,
{
    let ghost sv = sheets_view(sheets@);
    let ghost head = crate::container::parts_view(out@);
    proof {
        assert(head =~= head + gen_sheet_parts(sv.take(0)));
    }
    let n = sheets.len();
    let mut k: usize = 0;
    while k < n
        invariant
            k <= n,
            n == sheets@.len(),
            sv == sheets_view(sheets@),
            sv.len() == n,
            head == crate::container::parts_view(old(out)@),
            crate::container::parts_view(out@) == head + gen_sheet_parts(sv.take(k as int)),
            out@.len() >= old(out)@.len(),
            forall|i: int| 0 <= i < old(out)@.len() ==> out@[i] == old(out)@[i],
            forall|i: int| old(out)@.len() <= i < out@.len() ==> (#[trigger] out@[i]).compress,
        decreases n - k,
    {
        proof {
            assert(sv.take(k + 1).drop_last() =~= sv.take(k as int));
            assert(sv.take(k + 1).last() == sv[k as int]);
            assert(sv[k as int] == sheets@[k as int]@);
        }
        let ghost snap = crate::container::parts_view(out@);
        let ghost v = sv[k as int];
        let mut nm = "xl/".to_owned();
        nm.append(sheets[k].part_name.as_str());
        out.push(
            ArchivePart {
                name: nm,
                data: slice_to_vec(sheets[k].body_bytes.as_slice()),
                compress: true,
            },
        );
        proof {
            assert(crate::container::parts_view(out@) =~~= snap + seq![
                ("xl/"@ + v.part_name, v.body),
            ]);
        }
        match &sheets[k].relationship_part_bytes {
            Some(rel_data) => {
                match sheet_rel_path_str(sheets[k].part_name.as_str()) {
                    Some(rel_path) => {
                        let mut rn = "xl/".to_owned();
                        rn.append(rel_path.as_str());
                        let ghost rp = rel_path@;
                        out.push(
                            ArchivePart {
                                name: rn,
                                data: slice_to_vec(rel_data.as_slice()),
                                compress: true,
                            },
                        );
                        proof {
                            assert(crate::container::parts_view(out@) =~~= snap + seq![
                                ("xl/"@ + v.part_name, v.body),
                            ] + seq![("xl/"@ + rp, rel_data@)]);
                            assert(sheet_part_pair(v) =~= seq![("xl/"@ + v.part_name, v.body)]
                                + seq![("xl/"@ + rp, rel_data@)]);
                            assert(crate::container::parts_view(out@) =~~= snap + sheet_part_pair(
                                v,
                            ));
                        }
                    },
                    None => {
                        proof {
                            assert(sheet_part_pair(v) =~= seq![("xl/"@ + v.part_name, v.body)]);
                            assert(crate::container::parts_view(out@) =~~= snap + sheet_part_pair(
                                v,
                            ));
                        }
                    },
                }
            },
            None => {
                proof {
                    assert(sheet_part_pair(v) =~= seq![("xl/"@ + v.part_name, v.body)]);
                    assert(crate::container::parts_view(out@) =~~= snap + sheet_part_pair(v));
                }
            },
        }
        proof {
            assert(gen_sheet_parts(sv.take(k + 1)) == gen_sheet_parts(sv.take(k as int))
                + sheet_part_pair(v));
            assert(crate::container::parts_view(out@) =~~= head + gen_sheet_parts(sv.take(k + 1)));
        }
        k += 1;
    }
    proof {
        assert(sv.take(n as int) =~= sv);
    }
}

/// Appends every untouched template part, in stored order.
fn push_passthrough(out: &mut Vec<ArchivePart>, entries: &Vec<ArchivePart>)
    ensures
        crate::container::parts_view(final(out)@) == crate::container::parts_view(old(out)@)
            + passthrough_parts(crate::container::parts_view(entries@)),
        final(out)@.len() >= old(out)@.len(),
        forall|i: int| 0 <= i < old(out)@.len() ==> final(out)@[i] == old(out)@[i],
        forall|i: int|
            old(out)@.len() <= i < final(out)@.len() ==> (#[trigger] final(out)@[i]).compress,
{
    let ghost ev = crate::container::parts_view(entries@);
    let ghost head = crate::container::parts_view(out@);
    proof {
        assert(ev.take(0) =~= Seq::<(Seq<char>, Seq<u8>)>::empty());
        assert(head =~= head + passthrough_parts(ev.take(0)));
    }
    let m = entries.len();
    let mut j: usize = 0;
    while j < m
        invariant
            j <= m,
            m == entries@.len(),
            ev == crate::container::parts_view(entries@),
            ev.len() == m,
            head == crate::container::parts_view(old(out)@),
            crate::container::parts_view(out@) == head + passthrough_parts(ev.take(j as int)),
            out@.len() >= old(out)@.len(),
            forall|i: int| 0 <= i < old(out)@.len() ==> out@[i] == old(out)@[i],
            forall|i: int| old(out)@.len() <= i < out@.len() ==> (#[trigger] out@[i]).compress,
        decreases m - j,
    {
        proof {
            assert(ev.take(j + 1).drop_last() =~= ev.take(j as int));
            assert(ev.take(j + 1).last() == ev[j as int]);
            assert(ev[j as int] == (entries@[j as int].name@, entries@[j as int].data@));
        }
        let ghost snap = crate::container::parts_view(out@);
        if !should_skip_entry(entries[j].name.as_str()) {
            out.push(
                ArchivePart {
                    name: entries[j].name.clone(),
                    data: slice_to_vec(entries[j].data.as_slice()),
                    compress: true,
                },
            );
            proof {
                assert(crate::container::parts_view(out@) =~~= snap + seq![ev[j as int]]);
                assert(passthrough_parts(ev.take(j + 1)) == passthrough_parts(ev.take(j as int))
                    + seq![ev[j as int]]);
                assert(crate::container::parts_view(out@) =~~= head + passthrough_parts(
                    ev.take(j + 1),
                ));
            }
        } else {
            proof {
                assert(passthrough_parts(ev.take(j + 1)) =~= passthrough_parts(ev.take(j as int)));
                assert(crate::container::parts_view(out@) =~~= head + passthrough_parts(
                    ev.take(j + 1),
                ));
            }
        }
        j += 1;
    }
    proof {
        assert(ev.take(m as int) =~= ev);
    }
}

/// Tests every output part name against what the archive writer accepts.
fn check_part_names(parts: &Vec<ArchivePart>) -> (r: bool)
    ensures
        r == all_names_ok(crate::container::parts_view(parts@)),
{
    let ghost pv = crate::container::parts_view(parts@);
    let total = parts.len();
    let mut c: usize = 0;
    while c < total
        invariant
            c <= total,
            total == parts@.len(),
            pv == crate::container::parts_view(parts@),
            pv.len() == total,
            forall|i: int| 0 <= i < c ==> crate::container::part_name_ok(#[trigger] pv[i].0),
        decreases total - c,
    {
        proof {
            assert(pv[c as int].0 == parts@[c as int].name@);
        }
        if !part_name_ok_x(parts[c].name.as_str()) {
            assert(!crate::container::part_name_ok(pv[c as int].0));
            return false;
        }
        c += 1;
    }
    true
}

/// Lays the output part list out, in order.  Fails with
/// `TemplateStructureInvalid` when the content-type list cannot be parsed,
/// and with `ContainerWriteFailed` when some part's name is one the archive
/// writer cannot store.
pub fn assemble_parts(pkg: &crate::package::LoadedPackage, sheets: &Vec<GeneratedSheet>) -> (r:
    Result<Vec<ArchivePart>, GenError>)
    ensures
        match r {
            Ok(ps) => assembled_parts(
                pkg.view_spec(),
                crate::container::parts_view(pkg.entries@),
                sheets_view(sheets@),
            ) == Some(crate::container::parts_view(ps@)) && all_names_ok(
                crate::container::parts_view(ps@),
            ) && (forall|i: int| 0 <= i < ps@.len() ==> (#[trigger] ps@[i]).compress),
            Err(e) => (e == GenError::TemplateStructureInvalid && assembled_parts(
                pkg.view_spec(),
                crate::container::parts_view(pkg.entries@),
                sheets_view(sheets@),
            ) is None) || (e == GenError::ContainerWriteFailed && (match assembled_parts(
                pkg.view_spec(),
                crate::container::parts_view(pkg.entries@),
                sheets_view(sheets@),
            ) {
                Some(av) => !all_names_ok(av),
                None => false,
            })),
        },
{
    proof {
        reveal(assembled_parts);
    }
    let ghost sv = sheets_view(sheets@);
    let ghost ev = crate::container::parts_view(pkg.entries@);
    let ct = match build_content_types(pkg.content_types_xml.as_slice(), sheets) {
        Ok(v) => v,
        Err(e) => {
            return Err(e);
        },
    };
    let ghost ctv = ct@;
    let mut out: Vec<ArchivePart> = Vec::new();
    out.push(ArchivePart { name: "[Content_Types].xml".to_owned(), data: ct, compress: true });
    out.push(
        ArchivePart {
            name: "_rels/.rels".to_owned(),
            data: build_root_relationships(),
            compress: true,
        },
    );
    out.push(
        ArchivePart {
            name: "docProps/app.xml".to_owned(),
            data: build_app_doc(sheets),
            compress: true,
        },
    );
    out.push(
        ArchivePart {
            name: "docProps/core.xml".to_owned(),
            data: build_core_doc(),
            compress: true,
        },
    );
    out.push(
        ArchivePart {
            name: "xl/workbook.xml".to_owned(),
            data: build_workbook_xml(sheets),
            compress: true,
        },
    );
    out.push(
        ArchivePart {
            name: "xl/_rels/workbook.xml.rels".to_owned(),
            data: build_workbook_rels(&pkg.preserved_relationships, sheets),
            compress: true,
        },
    );
    let ghost head_parts = seq![
        ("[Content_Types].xml"@, ctv),
        ("_rels/.rels"@, root_rels_spec()),
        ("docProps/app.xml"@, app_doc_spec(sv)),
        ("docProps/core.xml"@, core_doc_spec()),
        ("xl/workbook.xml"@, wb_xml_spec(sv)),
        (
            "xl/_rels/workbook.xml.rels"@,
            wb_rels_spec(crate::package::rels_view(pkg.preserved_relationships@), sv),
        ),
    ];
    proof {
        assert(crate::container::parts_view(out@) =~~= head_parts);
        assert(forall|i: int| 0 <= i < out@.len() ==> (#[trigger] out@[i]).compress);
    }
    push_generated(&mut out, sheets);
    push_passthrough(&mut out, &pkg.entries);
    proof {
        assert(forall|i: int| 0 <= i < out@.len() ==> (#[trigger] out@[i]).compress);
    }
    proof {
        assert(crate::container::parts_view(out@) == head_parts + gen_sheet_parts(sv)
            + passthrough_parts(ev));
        assert(assembled_parts(pkg.view_spec(), ev, sv) == Some(
            crate::container::parts_view(out@),
        ));
    }
    if !check_part_names(&out) {
        return Err(GenError::ContainerWriteFailed);
    }
    Ok(out)
}

/// Whether any mapping's destination text is a valid cell address.
pub open spec fn has_usable_mapping(ms: Seq<(nat, Seq<char>)>) -> bool {
    exists|k: int| 0 <= k < ms.len() && crate::cell::decode_spec(#[trigger] ms[k].1) is Some
}

/// Tests whether any mapping's destination text is a valid cell address.
pub fn has_usable_mapping_x(mappings: &Vec<crate::state::CellMapping>) -> (r: bool)
    ensures
        r == has_usable_mapping(mapping_views(mappings@)),
{
    let ghost msv = mapping_views(mappings@);
    let nm = mappings.len();
    let mut k: usize = 0;
    while k < nm
        invariant
            k <= nm,
            nm == mappings@.len(),
            msv == mapping_views(mappings@),
            msv.len() == nm,
            forall|t: int| 0 <= t < k ==> crate::cell::decode_spec(#[trigger] msv[t].1) is None,
        decreases nm - k,
    {
        match crate::cell::parse_cell_reference(mappings[k].cell_ref.as_str()) {
            Some(_) => {
                proof {
                    assert(crate::cell::decode_spec(msv[k as int].1) is Some);
                }
                return true;
            },
            None => {},
        }
        k += 1;
    }
    false
}

/// What a successful generation run guarantees of its output bytes: the
/// template bytes read as a package, the sheet name resolved, and the output
/// archive holds exactly the assembled part list of a sheet list that
/// follows the fixed naming scheme and the per-row patch relation.
#[verifier::opaque]
pub open spec fn run_ok(
    template: Seq<u8>,
    name: Seq<char>,
    msv: Seq<(nat, Seq<char>)>,
    rowsv: Seq<Vec<String>>,
    out_bytes: Seq<u8>,
) -> bool {
    match crate::container::archive_parts_of(template) {
        None => false,
        Some(parts) => match crate::package::load_spec(parts, encode_utf8(name)) {
            Err(_) => false,
            Ok(pkg) => {
                let sv = planned_sheets(
                    pkg.sheet_xml,
                    name,
                    pkg.next_rel as int,
                    pkg.sheet_rel,
                    msv,
                    rowsv,
                );
                &&& all_bodies_ok(pkg.sheet_xml, msv, rowsv)
                &&& (match assembled_parts(pkg, parts, sv) {
                    Some(av) => crate::container::archive_parts_of(out_bytes) == Some(av),
                    None => false,
                })
            },
        },
    }
}

/// Exactly which outcome the pipeline owes once the template loaded: the
/// patcher's failure, the content-type rewrite's failure, a part name the
/// archive writer cannot store, and the archive writer's own outcome each
/// decide the result, in that order.
#[verifier::opaque]
pub open spec fn pipeline_outcome_ok(
    template: Seq<u8>,
    name: Seq<char>,
    msv: Seq<(nat, Seq<char>)>,
    rowsv: Seq<Vec<String>>,
    r: Result<(Vec<u8>, usize), GenError>,
) -> bool {
    match crate::container::archive_parts_of(template) {
        None => true,
        Some(parts) => match crate::package::load_spec(parts, encode_utf8(name)) {
            Err(_) => true,
            Ok(pkg) => {
                let sv = planned_sheets(
                    pkg.sheet_xml,
                    name,
                    pkg.next_rel as int,
                    pkg.sheet_rel,
                    msv,
                    rowsv,
                );
                &&& ((r == Err::<(Vec<u8>, usize), GenError>(GenError::MalformedXml))
                    == !all_bodies_ok(pkg.sheet_xml, msv, rowsv))
                &&& (all_bodies_ok(pkg.sheet_xml, msv, rowsv) ==> ((r == Err::<
                    (Vec<u8>, usize),
                    GenError,
                >(GenError::TemplateStructureInvalid)) == !ct_parses(pkg.content_types)))
                &&& ((all_bodies_ok(pkg.sheet_xml, msv, rowsv) && ct_parses(pkg.content_types))
                    ==> (match assembled_parts(pkg, parts, sv) {
                    Some(av) => {
                        &&& ((r == Err::<(Vec<u8>, usize), GenError>(
                            GenError::ContainerWriteFailed,
                        )) == (!all_names_ok(av) || !crate::container::archive_write_ok(
                            with_compression(av),
                        )))
                        &&& ((r is Ok) == (all_names_ok(av)
                            && crate::container::archive_write_ok(with_compression(av))))
                    },
                    None => false,
                }))
            },
        },
    }
}

/// The constructive form of `run_ok`: the planned sheet list's assembled
/// parts are what the output bytes hold.
proof fn lemma_run_ok(
    template: Seq<u8>,
    name: Seq<char>,
    msv: Seq<(nat, Seq<char>)>,
    rowsv: Seq<Vec<String>>,
    bytes: Seq<u8>,
    pv: Seq<(Seq<char>, Seq<u8>)>,
    pkgv: crate::package::SpecPackage,
)
    requires
        crate::container::archive_parts_of(template) == Some(pv),
        crate::package::load_spec(pv, encode_utf8(name)) == Ok::<
            crate::package::SpecPackage,
            GenError,
        >(pkgv),
        all_bodies_ok(pkgv.sheet_xml, msv, rowsv),
        match assembled_parts(
            pkgv,
            pv,
            planned_sheets(pkgv.sheet_xml, name, pkgv.next_rel as int, pkgv.sheet_rel, msv, rowsv),
        ) {
            Some(av) => crate::container::archive_parts_of(bytes) == Some(av),
            None => false,
        },
    ensures
        run_ok(template, name, msv, rowsv, bytes),
{
    reveal(run_ok);
}

/// The pipeline behind `generate_workbook`, once the input dataset and the
/// mapping list are known to be usable.
#[verifier::rlimit(100)]
fn run_generation(
    template_bytes: &[u8],
    sheet_name: &str,
    mappings: &Vec<crate::state::CellMapping>,
    rows: &Vec<Vec<String>>,
) -> (r: Result<(Vec<u8>, usize), GenError>)
    requires
        0 < rows@.len() < 0x8000_0000,
    ensures
        r != Err::<(Vec<u8>, usize), GenError>(GenError::InputEmpty),
        r != Err::<(Vec<u8>, usize), GenError>(GenError::NoMappings),
        (r == Err::<(Vec<u8>, usize), GenError>(GenError::ContainerOpenFailed)) == (
        crate::container::archive_parts_of(template_bytes@) is None),
        match crate::container::archive_parts_of(template_bytes@) {
            Some(parts) => match crate::package::load_spec(parts, encode_utf8(sheet_name@)) {
                Err(e2) => r == Err::<(Vec<u8>, usize), GenError>(e2),
                Ok(_) => true,
            },
            None => true,
        },
        match r {
            Ok(out) => out.1 == rows@.len() && run_ok(
                template_bytes@,
                sheet_name@,
                mapping_views(mappings@),
                rows@,
                out.0@,
            ),
            Err(_) => true,
        },
        pipeline_outcome_ok(template_bytes@, sheet_name@, mapping_views(mappings@), rows@, r),
{
    let ghost msv = mapping_views(mappings@);
    let parts = match crate::container::read_archive(template_bytes) {
        Ok(p) => p,
        Err(e) => {
            proof {
                reveal(pipeline_outcome_ok);
            }
            return Err(e);
        },
    };
    let pkg = match crate::package::LoadedPackage::load(parts, sheet_name) {
        Ok(p) => p,
        Err(e) => {
            proof {
                crate::package::lemma_load_spec_err_kinds(
                    crate::container::parts_view(parts@),
                    encode_utf8(sheet_name@),
                );
                reveal(pipeline_outcome_ok);
            }
            return Err(e);
        },
    };
    let ghost pv = crate::container::parts_view(pkg.entries@);
    let ghost pkgv = pkg.view_spec();
    let ghost planned = planned_sheets(
        pkgv.sheet_xml,
        sheet_name@,
        pkgv.next_rel as int,
        pkgv.sheet_rel,
        msv,
        rows@,
    );
    let sheets = match generate_sheets(&pkg, sheet_name, mappings, rows) {
        Ok(s) => s,
        Err(e) => {
            proof {
                reveal(pipeline_outcome_ok);
            }
            return Err(e);
        },
    };
    let count = sheets.len();
    let out_parts = match assemble_parts(&pkg, &sheets) {
        Ok(p) => p,
        Err(e) => {
            proof {
                assert(sheets_view(sheets@) == planned);
                lemma_assembled_parses(pkgv, pv, planned);
                reveal(pipeline_outcome_ok);
            }
            return Err(e);
        },
    };
    proof {
        assert forall|i: int|
            0 <= i < out_parts@.len() implies crate::container::part_name_ok(
            #[trigger] out_parts@[i].name@,
        ) by {
            assert(crate::container::parts_view(out_parts@)[i].0 == out_parts@[i].name@);
        };
    }
    let bytes = match crate::container::write_archive(&out_parts) {
        Ok(b) => b,
        Err(e) => {
            proof {
                assert(sheets_view(sheets@) == planned);
                lemma_assembled_parses(pkgv, pv, planned);
                assert(with_compression(crate::container::parts_view(out_parts@))
                    =~~= crate::container::parts_full_view(out_parts@));
                reveal(pipeline_outcome_ok);
            }
            return Err(e);
        },
    };
    proof {
        lemma_run_ok(template_bytes@, sheet_name@, msv, rows@, bytes@, pv, pkgv);
        assert(sheets_view(sheets@) == planned);
        lemma_assembled_parses(pkgv, pv, planned);
        assert(with_compression(crate::container::parts_view(out_parts@))
            =~~= crate::container::parts_full_view(out_parts@));
        reveal(pipeline_outcome_ok);
    }
    Ok((bytes, count))
}

/// Runs one whole generation: loads the template package from its bytes,
/// generates one patched sheet per input row, rewrites the package-level
/// documents, and renders the output archive bytes together with the sheet
/// count.  No file is touched: the caller persists the bytes only on
/// success.  The row-count bound keeps every allocated sheet id inside
/// `u32`.
pub fn generate_workbook(
    template_bytes: &[u8],
    sheet_name: &str,
    mappings: &Vec<crate::state::CellMapping>,
    rows: &Vec<Vec<String>>,
) -> (r: Result<(Vec<u8>, usize), GenError>)
    requires
        rows@.len() < 0x8000_0000,
    ensures
        (rows@.len() == 0) == (r == Err::<(Vec<u8>, usize), GenError>(GenError::InputEmpty)),
        (rows@.len() > 0 && !has_usable_mapping(mapping_views(mappings@))) == (r == Err::<
            (Vec<u8>, usize),
            GenError,
        >(GenError::NoMappings)),
        (rows@.len() > 0 && has_usable_mapping(mapping_views(mappings@))
            && crate::container::archive_parts_of(template_bytes@) is None) == (r == Err::<
            (Vec<u8>, usize),
            GenError,
        >(GenError::ContainerOpenFailed)),
        rows@.len() > 0 && has_usable_mapping(mapping_views(mappings@)) ==> (match crate::container::archive_parts_of(
            template_bytes@,
        ) {
            Some(parts) => match crate::package::load_spec(parts, encode_utf8(sheet_name@)) {
                Err(e2) => r == Err::<(Vec<u8>, usize), GenError>(e2),
                Ok(_) => true,
            },
            None => true,
        }),
        match r {
            Ok(out) => out.1 == rows@.len() && run_ok(
                template_bytes@,
                sheet_name@,
                mapping_views(mappings@),
                rows@,
                out.0@,
            ),
            Err(_) => true,
        },
        rows@.len() > 0 && has_usable_mapping(mapping_views(mappings@)) ==> pipeline_outcome_ok(
            template_bytes@,
            sheet_name@,
            mapping_views(mappings@),
            rows@,
            r,
        ),
{
    if rows.len() == 0 {
        return Err(GenError::InputEmpty);
    }
    if !has_usable_mapping_x(mappings) {
        return Err(GenError::NoMappings);
    }
    run_generation(template_bytes, sheet_name, mappings, rows)
}


proof fn lemma_rel_entry_at(rs: Seq<(Seq<u8>, Seq<u8>, Seq<u8>)>, k: int)
    requires
        0 <= k < rs.len(),
    ensures
        contains_seq(preserved_rel_entries(rs), preserved_rel_entry(rs[k])),
    decreases rs.len(),
{
    let whole = preserved_rel_entries(rs);
    let entry = preserved_rel_entry(rs[k]);
    if k == rs.len() - 1 {
        let pre = preserved_rel_entries(rs.drop_last());
        assert(whole == pre + entry);
        let a = pre.len() as int;
        assert(whole.subrange(a, a + entry.len() as int) =~= entry);
        assert(contains_seq(whole, entry));
    } else {
        lemma_rel_entry_at(rs.drop_last(), k);
        assert(rs.drop_last()[k] == rs[k]);
        let pre = preserved_rel_entries(rs.drop_last());
        let a = choose|a: int|
            0 <= a && a + entry.len() <= pre.len() && #[trigger] pre.subrange(
                a,
                a + entry.len() as int,
            ) == entry;
        assert(whole == pre + preserved_rel_entry(rs.last()));
        assert(whole.subrange(a, a + entry.len() as int) =~= pre.subrange(
            a,
            a + entry.len() as int,
        ));
        assert(contains_seq(whole, entry));
    }
}

/// Every relationship that the source package's relationship table holds
/// with a non-worksheet type appears, rendered unmodified and in its
/// original order, inside the rewritten workbook relationship table, for
/// any list of generated sheets.
pub proof fn lemma_other_relationships_preserved(
    rels_xml: Seq<u8>,
    rid: Seq<u8>,
    parsed: (Seq<u8>, Seq<(Seq<u8>, Seq<u8>, Seq<u8>)>, u32),
    sv: Seq<SheetView>,
    k: int,
)
    requires
        crate::package::rels_spec(rels_xml, rid) == Ok::<
            (Seq<u8>, Seq<(Seq<u8>, Seq<u8>, Seq<u8>)>, u32),
            GenError,
        >(parsed),
        0 <= k < parsed.1.len(),
    ensures
        contains_seq(wb_rels_spec(parsed.1, sv), preserved_rel_entry(parsed.1[k])),
{
    lemma_rel_entry_at(parsed.1, k);
    let entries = preserved_rel_entries(parsed.1);
    let entry = preserved_rel_entry(parsed.1[k]);
    let a = choose|a: int|
        0 <= a && a + entry.len() <= entries.len() && #[trigger] entries.subrange(
            a,
            a + entry.len() as int,
        ) == entry;
    let head = sb(
        "<?xml version=\"1.0\" encoding=\"UTF-8\" standalone=\"yes\"?><Relationships xmlns=\"http://schemas.openxmlformats.org/package/2006/relationships\">",
    );
    let whole = wb_rels_spec(parsed.1, sv);
    let b = head.len() + a;
    assert(whole.subrange(b, b + entry.len() as int) =~= entries.subrange(
        a,
        a + entry.len() as int,
    ));
    assert(contains_seq(whole, entry));
}

/// The round trip: a run over a single row whose replacement map is empty
/// (for one, a mapping list whose source columns all lie beyond the row)
/// stores the template sheet's bytes unchanged in the output archive, as
/// the first generated sheet's part.
#[verifier::rlimit(50)]
pub proof fn lemma_template_round_trip(
    template: Seq<u8>,
    name: Seq<char>,
    msv: Seq<(nat, Seq<char>)>,
    rowsv: Seq<Vec<String>>,
    out_bytes: Seq<u8>,
)
    requires
        run_ok(template, name, msv, rowsv, out_bytes),
        rowsv.len() == 1,
        materialize_spec(msv, row_view(rowsv[0]@)) == Map::<
            crate::cell::CellAddress,
            Seq<u8>,
        >::empty(),
    ensures
        match crate::container::archive_parts_of(template) {
            Some(parts) => match crate::package::load_spec(parts, encode_utf8(name)) {
                Ok(pkg) => match crate::container::archive_parts_of(out_bytes) {
                    Some(outp) => exists|i: int|
                        0 <= i < outp.len() && #[trigger] outp[i] == (
                            "xl/"@ + ("worksheets/sheet"@ + dec_digits(1) + ".xml"@),
                            pkg.sheet_xml,
                        ),
                    None => false,
                },
                Err(_) => false,
            },
            None => false,
        },
{
    reveal(run_ok);
    reveal(assembled_parts);
    reveal(planned_sheets);
    let parts = crate::container::archive_parts_of(template)->Some_0;
    let pkg = crate::package::load_spec(parts, encode_utf8(name))->Ok_0;
    let sv = planned_sheets(pkg.sheet_xml, name, pkg.next_rel as int, pkg.sheet_rel, msv, rowsv);
    assert(body_spec(pkg.sheet_xml, materialize_spec(msv, row_view(rowsv[0]@))) == Some(
        pkg.sheet_xml,
    ));
    assert(sv[0].body == pkg.sheet_xml);
    let av = assembled_parts(pkg, parts, sv)->Some_0;
    assert(gen_sheet_parts(sv) == gen_sheet_parts(sv.drop_last()) + sheet_part_pair(sv[0])) by {
        assert(sv.last() == sv[0]);
    }
    assert(sv.drop_last() =~= Seq::<SheetView>::empty());
    assert(gen_sheet_parts(sv.drop_last()) =~= Seq::<(Seq<char>, Seq<u8>)>::empty());
    assert(sheet_part_pair(sv[0])[0] == ("xl/"@ + sv[0].part_name, sv[0].body));
    assert(av[6] == ("xl/"@ + sv[0].part_name, sv[0].body));
    assert(sv[0].part_name == "worksheets/sheet"@ + dec_digits(1) + ".xml"@);
    assert(0 <= 6 < av.len());
}

} // verus!