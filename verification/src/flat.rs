//! The flat-package strategy: a single synthesized spreadsheet document
//! wrapped in a minimal archive of exactly three fixed parts (the
//! identifying media-type marker, the content document and the manifest),
//! built from scratch rather than from a template archive.

use vstd::prelude::*;
use vstd::utf8::encode_utf8;

use crate::container::ArchivePart;
use crate::patch::sb;
use crate::workflow::CellPreview;
use crate::workflow::ColumnMapping;
use crate::xml::escape_chars;
use crate::xml::xml_escape;

verus! {

/// A decoded destination address as a pair of indices, if the text decodes.
pub open spec fn dec_addr(s: Seq<char>) -> Option<(int, int)> {
    match crate::cell::decode_spec(s) {
        Some(p) => Some((p.0 as int, p.1 as int)),
        None => None,
    }
}

/// The writes a template cell list makes: each cell's decoded address and
/// its value.
pub open spec fn cell_writes(cells: Seq<CellPreview>) -> Seq<(Option<(int, int)>, Seq<char>)> {
    cells.map_values(|cp: CellPreview| (dec_addr(cp.address@), cp.value@))
}

/// The writes a mapping list makes against one row: each mapping's decoded
/// destination and the row's value at its source column.  A mapping whose
/// source column lies beyond the row writes nothing at all, leaving the
/// template's value at its destination intact.
pub open spec fn mapping_writes(ms: Seq<ColumnMapping>, row: Seq<String>) -> Seq<
    (Option<(int, int)>, Seq<char>),
> {
    ms.map_values(
        |m: ColumnMapping|
            (
                if (m.column_index as int) < row.len() {
                    dec_addr(m.cell_address@)
                } else {
                    None
                },
                if (m.column_index as int) < row.len() {
                    row[m.column_index as int]@
                } else {
                    Seq::<char>::empty()
                },
            ),
    )
}

/// The value the last write to a position left, if any wrote there.
pub open spec fn last_write(
    ws: Seq<(Option<(int, int)>, Seq<char>)>,
    r: int,
    c: int,
) -> Option<Seq<char>>
    decreases ws.len(),
{
    if ws.len() == 0 {
        None
    } else if ws.last().0 == Some((r, c)) {
        Some(ws.last().1)
    } else {
        last_write(ws.drop_last(), r, c)
    }
}

/// The largest row and column index any write names.
pub open spec fn max_pos(ws: Seq<(Option<(int, int)>, Seq<char>)>) -> (int, int)
    decreases ws.len(),
{
    if ws.len() == 0 {
        (0, 0)
    } else {
        let m = max_pos(ws.drop_last());
        match ws.last().0 {
            Some(p) => (if p.0 > m.0 { p.0 } else { m.0 }, if p.1 > m.1 { p.1 } else { m.1 }),
            None => m,
        }
    }
}

/// The writes whose positions size the grid: every template cell and every
/// mapped destination.
pub open spec fn sizing_writes(cells: Seq<CellPreview>, ms: Seq<ColumnMapping>) -> Seq<
    (Option<(int, int)>, Seq<char>),
> {
    cell_writes(cells) + ms.map_values(
        |m: ColumnMapping| (dec_addr(m.cell_address@), Seq::<char>::empty()),
    )
}

/// One generated sheet's value at a position: the last mapping write there,
/// else the last template cell there, else empty.
pub open spec fn flat_sheet_value(
    cells: Seq<CellPreview>,
    ms: Seq<ColumnMapping>,
    row: Seq<String>,
    r: int,
    c: int,
) -> Seq<char> {
    match last_write(mapping_writes(ms, row), r, c) {
        Some(v) => v,
        None => match last_write(cell_writes(cells), r, c) {
            Some(v) => v,
            None => Seq::<char>::empty(),
        },
    }
}

/// The base sheet's value at a position, with no row applied.
pub open spec fn flat_base_value(cells: Seq<CellPreview>, r: int, c: int) -> Seq<char> {
    match last_write(cell_writes(cells), r, c) {
        Some(v) => v,
        None => Seq::<char>::empty(),
    }
}

fn last_mapping_value(
    ms: &Vec<ColumnMapping>,
    row: &Vec<String>,
    rr: usize,
    cc: usize,
) -> (r: Option<String>)
    ensures
        match last_write(mapping_writes(ms@, row@), rr as int, cc as int) {
            Some(v) => r matches Some(s) && s@ == v,
            None => r is None,
        },
{
    let ghost ws = mapping_writes(ms@, row@);
    proof {
        assert(ws.take(ms@.len() as int) =~= ws);
    }
    let mut k = ms.len();
    while k > 0
        invariant
            k <= ms@.len(),
            ws == mapping_writes(ms@, row@),
            ws.len() == ms@.len(),
            last_write(ws, rr as int, cc as int) == last_write(
                ws.take(k as int),
                rr as int,
                cc as int,
            ),
        decreases k,
    {
        k = k - 1;
        proof {
            let q = ws.take(k + 1);
            assert(q.drop_last() =~= ws.take(k as int));
            assert(q.last() == ws[k as int]);
        }
        let idx = ms[k].column_index;
        if idx >= row.len() {
            proof {
                assert(ws[k as int].0 is None);
            }
            continue ;
        }
        match crate::cell::parse_cell_address(ms[k].cell_address.as_str()) {
            Some(p) => {
                if p.0 == rr && p.1 == cc {
                    proof {
                        assert(ws[k as int].0 == Some((rr as int, cc as int)));
                    }
                    return Some(row[idx].clone());
                }
                proof {
                    assert(ws[k as int].0 != Some((rr as int, cc as int)));
                }
            },
            None => {
                proof {
                    assert(ws[k as int].0 is None);
                }
            },
        }
    }
    proof {
        assert(ws.take(0) =~= Seq::<(Option<(int, int)>, Seq<char>)>::empty());
    }
    None
}

fn last_cell_value(cells: &Vec<CellPreview>, rr: usize, cc: usize) -> (r: Option<String>)
    ensures
        match last_write(cell_writes(cells@), rr as int, cc as int) {
            Some(v) => r matches Some(s) && s@ == v,
            None => r is None,
        },
{
    let ghost ws = cell_writes(cells@);
    proof {
        assert(ws.take(cells@.len() as int) =~= ws);
    }
    let mut k = cells.len();
    while k > 0
        invariant
            k <= cells@.len(),
            ws == cell_writes(cells@),
            ws.len() == cells@.len(),
            last_write(ws, rr as int, cc as int) == last_write(
                ws.take(k as int),
                rr as int,
                cc as int,
            ),
        decreases k,
    {
        k = k - 1;
        proof {
            let q = ws.take(k + 1);
            assert(q.drop_last() =~= ws.take(k as int));
            assert(q.last() == ws[k as int]);
        }
        match crate::cell::parse_cell_address(cells[k].address.as_str()) {
            Some(p) => {
                if p.0 == rr && p.1 == cc {
                    proof {
                        assert(ws[k as int].0 == Some((rr as int, cc as int)));
                    }
                    return Some(cells[k].value.clone());
                }
                proof {
                    assert(ws[k as int].0 != Some((rr as int, cc as int)));
                }
            },
            None => {
                proof {
                    assert(ws[k as int].0 is None);
                }
            },
        }
    }
    proof {
        assert(ws.take(0) =~= Seq::<(Option<(int, int)>, Seq<char>)>::empty());
    }
    None
}

fn grid_dims(cells: &Vec<CellPreview>, ms: &Vec<ColumnMapping>) -> (r: (usize, usize))
    ensures
        ({
            let m = max_pos(sizing_writes(cells@, ms@));
            &&& r.0 as int == (if m.0 + 1 > usize::MAX as int {
                usize::MAX as int
            } else {
                m.0 + 1
            })
            &&& r.1 as int == (if m.1 + 1 > usize::MAX as int {
                usize::MAX as int
            } else {
                m.1 + 1
            })
        }),
{
    let ghost ws = sizing_writes(cells@, ms@);
    let nc = cells.len();
    let nm = ms.len();
    let mut max_r: usize = 0;
    let mut max_c: usize = 0;
    proof {
        assert(ws.take(0) =~= Seq::<(Option<(int, int)>, Seq<char>)>::empty());
    }
    let mut k: usize = 0;
    while k < nc
        invariant
            k <= nc,
            nc == cells@.len(),
            nm == ms@.len(),
            ws == sizing_writes(cells@, ms@),
            ws.len() == nc + nm,
            max_pos(ws.take(k as int)) == (max_r as int, max_c as int),
        decreases nc - k,
    {
        proof {
            assert(ws.take(k + 1).drop_last() =~= ws.take(k as int));
            assert(ws.take(k + 1).last() == ws[k as int]);
            assert(ws[k as int] == (dec_addr(cells@[k as int].address@), cells@[k as int].value@));
        }
        match crate::cell::parse_cell_address(cells[k].address.as_str()) {
            Some(p) => {
                if p.0 > max_r {
                    max_r = p.0;
                }
                if p.1 > max_c {
                    max_c = p.1;
                }
            },
            None => {},
        }
        k += 1;
    }
    let mut j: usize = 0;
    while j < nm
        invariant
            j <= nm,
            nc == cells@.len(),
            nm == ms@.len(),
            ws == sizing_writes(cells@, ms@),
            ws.len() == nc + nm,
            max_pos(ws.take(nc + j as int)) == (max_r as int, max_c as int),
        decreases nm - j,
    {
        proof {
            assert(ws.take(nc + j + 1).drop_last() =~= ws.take(nc + j as int));
            assert(ws.take(nc + j + 1).last() == ws[nc + j as int]);
            assert(ws[nc + j as int] == (
                dec_addr(ms@[j as int].cell_address@),
                Seq::<char>::empty(),
            ));
        }
        match crate::cell::parse_cell_address(ms[j].cell_address.as_str()) {
            Some(p) => {
                if p.0 > max_r {
                    max_r = p.0;
                }
                if p.1 > max_c {
                    max_c = p.1;
                }
            },
            None => {},
        }
        j += 1;
    }
    proof {
        assert(ws.take((nc + nm) as int) =~= ws);
    }
    let rows = if max_r == usize::MAX {
        usize::MAX
    } else {
        max_r + 1
    };
    let cols = if max_c == usize::MAX {
        usize::MAX
    } else {
        max_c + 1
    };
    (rows, cols)
}

/// Whether a 3-level grid has exactly the given dimensions.
pub open spec fn grid_dims_ok(sheet: Seq<Vec<String>>, rows: int, cols: int) -> bool {
    sheet.len() == rows && forall|rr: int| 0 <= rr < rows ==> (#[trigger] sheet[rr])@.len() == cols
}

fn build_one_sheet(
    cells: &Vec<CellPreview>,
    ms: &Vec<ColumnMapping>,
    row: Option<&Vec<String>>,
    rows: usize,
    cols: usize,
) -> (r: Vec<Vec<String>>)
    ensures
        grid_dims_ok(r@, rows as int, cols as int),
        forall|rr: int, cc: int|
            0 <= rr < rows && 0 <= cc < cols ==> (#[trigger] r@[rr]@[cc])@ == (match row {
                Some(rw) => flat_sheet_value(cells@, ms@, rw@, rr, cc),
                None => flat_base_value(cells@, rr, cc),
            }),
{
    let mut sheet: Vec<Vec<String>> = Vec::new();
    let mut rr: usize = 0;
    while rr < rows
        invariant
            rr <= rows,
            sheet@.len() == rr,
            forall|a: int| 0 <= a < rr ==> (#[trigger] sheet@[a])@.len() == cols,
            forall|a: int, b: int|
                0 <= a < rr && 0 <= b < cols ==> (#[trigger] sheet@[a]@[b])@ == (match row {
                    Some(rw) => flat_sheet_value(cells@, ms@, rw@, a, b),
                    None => flat_base_value(cells@, a, b),
                }),
        decreases rows - rr,
    {
        let mut line: Vec<String> = Vec::new();
        let mut cc: usize = 0;
        while cc < cols
            invariant
                cc <= cols,
                line@.len() == cc,
                forall|b: int|
                    0 <= b < cc ==> (#[trigger] line@[b])@ == (match row {
                        Some(rw) => flat_sheet_value(cells@, ms@, rw@, rr as int, b),
                        None => flat_base_value(cells@, rr as int, b),
                    }),
            decreases cols - cc,
        {
            let v: String = match row {
                Some(rw) => {
                    match last_mapping_value(ms, rw, rr, cc) {
                        Some(s) => s,
                        None => match last_cell_value(cells, rr, cc) {
                            Some(s) => s,
                            None => String::new(),
                        },
                    }
                },
                None => {
                    match last_cell_value(cells, rr, cc) {
                        Some(s) => s,
                        None => String::new(),
                    }
                },
            };
            line.push(v);
            cc += 1;
        }
        sheet.push(line);
        rr += 1;
    }
    sheet
}

/// What the generated grids hold: one grid per input row (or a single base
/// grid), each sized to the largest addressed position, every cell holding
/// the last mapping write there, else the last template cell there, else
/// empty.
pub open spec fn sheet_grids_ok(
    r: Seq<Vec<Vec<String>>>,
    cells: Seq<CellPreview>,
    ms: Seq<ColumnMapping>,
    rows: Seq<Vec<String>>,
) -> bool {
    &&& r.len() == (if rows.len() == 0 {
        1int
    } else {
        rows.len() as int
    })
    &&& (forall|i: int|
        0 <= i < r.len() ==> grid_dims_ok((#[trigger] r[i])@, ({
            let m = max_pos(sizing_writes(cells, ms));
            if m.0 + 1 > usize::MAX as int {
                usize::MAX as int
            } else {
                m.0 + 1
            }
        }), ({
            let m = max_pos(sizing_writes(cells, ms));
            if m.1 + 1 > usize::MAX as int {
                usize::MAX as int
            } else {
                m.1 + 1
            }
        })))
    &&& (forall|i: int, rr: int, cc: int|
        0 <= i < rows.len() && 0 <= rr < r[i]@.len() && 0 <= cc < r[i]@[rr]@.len() ==> (
        #[trigger] r[i]@[rr]@[cc])@ == flat_sheet_value(cells, ms, rows[i]@, rr, cc))
    &&& (rows.len() == 0 ==> forall|rr: int, cc: int|
        0 <= rr < r[0]@.len() && 0 <= cc < r[0]@[rr]@.len() ==> (#[trigger] r[0]@[rr]@[cc])@
            == flat_base_value(cells, rr, cc))
}

/// Builds the generated sheet grids: one per input row, each sized to the
/// largest addressed position, every cell holding the last mapping write
/// there, else the last template cell there, else empty; with no input row
/// at all, a single base sheet holding the template cells alone.
pub fn build_sheet_data(
    template_cells: &Vec<CellPreview>,
    mappings: &Vec<ColumnMapping>,
    csv_rows: &Vec<Vec<String>>,
) -> (r: Vec<Vec<Vec<String>>>)
    ensures
        sheet_grids_ok(r@, template_cells@, mappings@, csv_rows@),
{
    let (rows, cols) = grid_dims(template_cells, mappings);
    let n = csv_rows.len();
    let mut sheets: Vec<Vec<Vec<String>>> = Vec::new();
    if n == 0 {
        let base = build_one_sheet(template_cells, mappings, None, rows, cols);
        sheets.push(base);
        return sheets;
    }
    let mut i: usize = 0;
    while i < n
        invariant
            i <= n,
            n == csv_rows@.len(),
            sheets@.len() == i,
            rows as int == ({
                let m = max_pos(sizing_writes(template_cells@, mappings@));
                if m.0 + 1 > usize::MAX as int {
                    usize::MAX as int
                } else {
                    m.0 + 1
                }
            }),
            cols as int == ({
                let m = max_pos(sizing_writes(template_cells@, mappings@));
                if m.1 + 1 > usize::MAX as int {
                    usize::MAX as int
                } else {
                    m.1 + 1
                }
            }),
            forall|a: int|
                0 <= a < i ==> grid_dims_ok((#[trigger] sheets@[a])@, ({
                    let m = max_pos(sizing_writes(template_cells@, mappings@));
                    if m.0 + 1 > usize::MAX as int {
                        usize::MAX as int
                    } else {
                        m.0 + 1
                    }
                }), ({
                    let m = max_pos(sizing_writes(template_cells@, mappings@));
                    if m.1 + 1 > usize::MAX as int {
                        usize::MAX as int
                    } else {
                        m.1 + 1
                    }
                })),
            forall|a: int, rr: int, cc: int|
                0 <= a < i && 0 <= rr < sheets@[a]@.len() && 0 <= cc < sheets@[a]@[rr]@.len() ==> (
                #[trigger] sheets@[a]@[rr]@[cc])@ == flat_sheet_value(
                    template_cells@,
                    mappings@,
                    csv_rows@[a]@,
                    rr,
                    cc,
                ),
        decreases n - i,
    {
        let sheet = build_one_sheet(template_cells, mappings, Some(&csv_rows[i]), rows, cols);
        sheets.push(sheet);
        i += 1;
    }
    sheets
}

/// The content-document block of one cell.
pub open spec fn flat_cell_block(v: Seq<char>) -> Seq<char> {
    if v.len() == 0 {
        "          <table:table-cell/>\n"@
    } else {
        "          <table:table-cell office:value-type=\"string\"><text:p>"@ + escape_chars(v)
            + "</text:p></table:table-cell>\n"@
    }
}

pub open spec fn flat_cells_chunk(row: Seq<String>) -> Seq<char>
    decreases row.len(),
{
    if row.len() == 0 {
        Seq::empty()
    } else {
        flat_cells_chunk(row.drop_last()) + flat_cell_block(row.last()@)
    }
}

/// The content-document block of one sheet row.
pub open spec fn flat_row_block(row: Seq<String>) -> Seq<char> {
    "        <table:table-row>\n"@ + flat_cells_chunk(row) + "        </table:table-row>\n"@
}

pub open spec fn flat_rows_chunk(sheet: Seq<Vec<String>>) -> Seq<char>
    decreases sheet.len(),
{
    if sheet.len() == 0 {
        Seq::empty()
    } else {
        flat_rows_chunk(sheet.drop_last()) + flat_row_block(sheet.last()@)
    }
}

/// The content-document block of one named sheet.
pub open spec fn flat_table_block(name: Seq<char>, sheet: Seq<Vec<String>>) -> Seq<char> {
    "      <table:table table:name=\""@ + escape_chars(name) + "\">\n"@ + flat_rows_chunk(sheet)
        + "      </table:table>\n"@
}

pub open spec fn flat_tables_chunk(
    names: Seq<String>,
    data: Seq<Vec<Vec<String>>>,
    n: int,
) -> Seq<char>
    decreases n,
{
    if n <= 0 {
        Seq::empty()
    } else {
        flat_tables_chunk(names, data, n - 1) + flat_table_block(names[n - 1]@, data[n - 1]@)
    }
}

/// The whole content document: one table per generated sheet, paired with
/// its name, as far as both lists reach.
pub open spec fn flat_content_spec(names: Seq<String>, data: Seq<Vec<Vec<String>>>) -> Seq<char> {
    let n = if names.len() <= data.len() {
        names.len() as int
    } else {
        data.len() as int
    };
    "<?xml version=\"1.0\" encoding=\"UTF-8\"?>\n"@
        + "<office:document-content xmlns:office=\"urn:oasis:names:tc:opendocument:xmlns:office:1.0\" xmlns:table=\"urn:oasis:names:tc:opendocument:xmlns:table:1.0\" xmlns:text=\"urn:oasis:names:tc:opendocument:xmlns:text:1.0\">\n"@
        + "  <office:body>\n    <office:spreadsheet>\n"@ + flat_tables_chunk(names, data, n)
        + "    </office:spreadsheet>\n  </office:body>\n</office:document-content>\n"@
}

/// Builds the content document of a flat package.
pub fn build_content_xml(sheet_names: &Vec<String>, sheet_data: &Vec<Vec<Vec<String>>>) -> (r:
    String)
    ensures
        r@ == flat_content_spec(sheet_names@, sheet_data@),
{
    let mut out = "<?xml version=\"1.0\" encoding=\"UTF-8\"?>\n".to_owned();
    out.append(
        "<office:document-content xmlns:office=\"urn:oasis:names:tc:opendocument:xmlns:office:1.0\" xmlns:table=\"urn:oasis:names:tc:opendocument:xmlns:table:1.0\" xmlns:text=\"urn:oasis:names:tc:opendocument:xmlns:text:1.0\">\n",
    );
    out.append("  <office:body>\n    <office:spreadsheet>\n");
    let ghost head = out@;
    let n = if sheet_names.len() <= sheet_data.len() {
        sheet_names.len()
    } else {
        sheet_data.len()
    };
    let mut i: usize = 0;
    proof {
        assert(out@ =~= head + flat_tables_chunk(sheet_names@, sheet_data@, 0));
    }
    while i < n
        invariant
            i <= n,
            n == (if sheet_names@.len() <= sheet_data@.len() {
                sheet_names@.len() as int
            } else {
                sheet_data@.len() as int
            }),
            out@ == head + flat_tables_chunk(sheet_names@, sheet_data@, i as int),
        decreases n - i,
    {
        out.append("      <table:table table:name=\"");
        let esc = xml_escape(sheet_names[i].as_str());
        out.append(esc.as_str());
        out.append("\">\n");
        let ghost trow = out@;
        let sheet = &sheet_data[i];
        let ghost sv = sheet@;
        let m = sheet.len();
        let mut rr: usize = 0;
        proof {
            assert(sv.take(0) =~= Seq::<Vec<String>>::empty());
            assert(out@ =~= trow + flat_rows_chunk(sv.take(0)));
        }
        while rr < m
            invariant
                rr <= m,
                m == sv.len(),
                sv == sheet_data@[i as int]@,
                i < sheet_data@.len(),
                out@ == trow + flat_rows_chunk(sv.take(rr as int)),
            decreases m - rr,
        {
            proof {
                assert(sv.take(rr + 1).drop_last() =~= sv.take(rr as int));
                assert(sv.take(rr + 1).last() == sv[rr as int]);
            }
            out.append("        <table:table-row>\n");
            let ghost tcells = out@;
            let line = &sheet_data[i][rr];
            let ghost lv = line@;
            let w = line.len();
            let mut cc: usize = 0;
            proof {
                assert(lv.take(0) =~= Seq::<String>::empty());
                assert(out@ =~= tcells + flat_cells_chunk(lv.take(0)));
            }
            while cc < w
                invariant
                    cc <= w,
                    w == lv.len(),
                    lv == sheet_data@[i as int]@[rr as int]@,
                    i < sheet_data@.len(),
                    rr < sheet_data@[i as int]@.len(),
                    out@ == tcells + flat_cells_chunk(lv.take(cc as int)),
                decreases w - cc,
            {
                proof {
                    assert(lv.take(cc + 1).drop_last() =~= lv.take(cc as int));
                    assert(lv.take(cc + 1).last() == lv[cc as int]);
                }
                let value = &sheet_data[i][rr][cc];
                if value.as_str().is_empty() {
                    out.append("          <table:table-cell/>\n");
                } else {
                    out.append("          <table:table-cell office:value-type=\"string\"><text:p>");
                    let ev = xml_escape(value.as_str());
                    out.append(ev.as_str());
                    out.append("</text:p></table:table-cell>\n");
                }
                cc += 1;
            }
            proof {
                assert(lv.take(w as int) =~= lv);
            }
            out.append("        </table:table-row>\n");
            rr += 1;
        }
        proof {
            assert(sv.take(m as int) =~= sv);
        }
        out.append("      </table:table>\n");
        proof {
            assert(out@ =~= head + flat_tables_chunk(sheet_names@, sheet_data@, i + 1));
        }
        i += 1;
    }
    out.append("    </office:spreadsheet>\n  </office:body>\n</office:document-content>\n");
    out
}

/// The fixed manifest document of a flat package.
pub open spec fn flat_manifest_spec() -> Seq<char> {
    "<?xml version=\"1.0\" encoding=\"UTF-8\"?>\n<manifest:manifest xmlns:manifest=\"urn:oasis:names:tc:opendocument:xmlns:manifest:1.0\">\n  <manifest:file-entry manifest:full-path=\"/\" manifest:media-type=\"application/vnd.oasis.opendocument.spreadsheet\"/>\n  <manifest:file-entry manifest:full-path=\"content.xml\" manifest:media-type=\"text/xml\"/>\n</manifest:manifest>\n"@
}

/// Builds the fixed manifest document.
pub fn build_manifest_xml() -> (r: String)
    ensures
        r@ == flat_manifest_spec(),
{
    "<?xml version=\"1.0\" encoding=\"UTF-8\"?>\n<manifest:manifest xmlns:manifest=\"urn:oasis:names:tc:opendocument:xmlns:manifest:1.0\">\n  <manifest:file-entry manifest:full-path=\"/\" manifest:media-type=\"application/vnd.oasis.opendocument.spreadsheet\"/>\n  <manifest:file-entry manifest:full-path=\"content.xml\" manifest:media-type=\"text/xml\"/>\n</manifest:manifest>\n".to_owned()
}

/// The three fixed parts of a flat package, in mandatory order: the stored
/// (uncompressed) media-type marker first, then the manifest and the
/// content document.
pub open spec fn flat_parts_spec(content: Seq<char>, manifest: Seq<char>) -> Seq<
    (Seq<char>, Seq<u8>),
> {
    seq![
        ("mimetype"@, sb("application/vnd.oasis.opendocument.spreadsheet")),
        ("META-INF/manifest.xml"@, encode_utf8(manifest)),
        ("content.xml"@, encode_utf8(content)),
    ]
}

/// The three fixed parts with their storage choices: the media-type marker
/// stored uncompressed, the other two compressed.
pub open spec fn flat_parts_full_spec(content: Seq<char>, manifest: Seq<char>) -> Seq<
    (Seq<char>, Seq<u8>, bool),
> {
    seq![
        ("mimetype"@, sb("application/vnd.oasis.opendocument.spreadsheet"), false),
        ("META-INF/manifest.xml"@, encode_utf8(manifest), true),
        ("content.xml"@, encode_utf8(content), true),
    ]
}

/// Lays the three fixed parts of a flat package out.
pub fn flat_package_parts(content_xml: &str, manifest_xml: &str) -> (r: Vec<ArchivePart>)
    ensures
        crate::container::parts_view(r@) == flat_parts_spec(content_xml@, manifest_xml@),
        crate::container::parts_full_view(r@) == flat_parts_full_spec(content_xml@, manifest_xml@),
        r@.len() == 3,
        r@[0].compress == false,
        r@[1].compress == true,
        r@[2].compress == true,
{
    let mut out: Vec<ArchivePart> = Vec::new();
    out.push(
        ArchivePart {
            name: "mimetype".to_owned(),
            data: "application/vnd.oasis.opendocument.spreadsheet".as_bytes_vec(),
            compress: false,
        },
    );
    out.push(
        ArchivePart {
            name: "META-INF/manifest.xml".to_owned(),
            data: manifest_xml.as_bytes_vec(),
            compress: true,
        },
    );
    out.push(
        ArchivePart {
            name: "content.xml".to_owned(),
            data: content_xml.as_bytes_vec(),
            compress: true,
        },
    );
    proof {
        assert(crate::container::parts_view(out@) =~~= flat_parts_spec(
            content_xml@,
            manifest_xml@,
        ));
        assert(crate::container::parts_full_view(out@) =~~= flat_parts_full_spec(
            content_xml@,
            manifest_xml@,
        ));
    }
    out
}

} // verus!
