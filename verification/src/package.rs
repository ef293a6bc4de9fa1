//! The package model: the in-memory representation of a loaded template.
//!
//! Loading locates the content-type list, resolves the requested sheet's
//! relationship id in the workbook's sheet table, partitions the workbook's
//! relationship table into worksheet-typed and other entries, and retrieves
//! the template sheet's raw XML bytes together with its optional per-sheet
//! relationship part.

use vstd::prelude::*;
use vstd::slice::slice_subrange;
use vstd::slice::slice_to_vec;

use crate::container::ArchivePart;
use crate::container::parts_view;
use crate::errors::GenError;
use crate::lexer::SpecTok;
use crate::lexer::Token;
use crate::lexer::lex;
use crate::lexer::lex_at;
use crate::patch::attr_lookup;
use crate::patch::attr_of;
use crate::patch::sb;
use crate::xml::bytes_eq;
use crate::xml::push_bytes;

verus! {

/// One preserved workbook relationship, held as the raw attribute bytes it
/// was parsed from.
pub struct WorkbookRelationship {
    pub id: Vec<u8>,
    pub target: Vec<u8>,
    pub type_attr: Vec<u8>,
}

pub open spec fn rels_view(s: Seq<WorkbookRelationship>) -> Seq<(Seq<u8>, Seq<u8>, Seq<u8>)> {
    s.map_values(|r: WorkbookRelationship| (r.id@, r.target@, r.type_attr@))
}

/// The first part with the given name (compared as UTF-8 bytes), if any.
pub open spec fn find_part_spec(parts: Seq<(Seq<char>, Seq<u8>)>, name: Seq<u8>) -> Option<Seq<u8>>
    decreases parts.len(),
{
    if parts.len() == 0 {
        None
    } else if vstd::utf8::encode_utf8(parts[0].0) == name {
        Some(parts[0].1)
    } else {
        find_part_spec(parts.drop_first(), name)
    }
}

/// Looks the first part with the given name up.
pub fn find_part<'a>(parts: &'a Vec<ArchivePart>, name: &[u8]) -> (r: Option<&'a Vec<u8>>)
    ensures
        match find_part_spec(parts_view(parts@), name@) {
            Some(d) => r matches Some(v) && v@ == d,
            None => r is None,
        },
{
    let ghost pv = parts_view(parts@);
    proof {
        assert(pv.skip(0) =~= pv);
    }
    let n = parts.len();
    let mut k: usize = 0;
    while k < n
        invariant
            k <= n,
            n == parts@.len(),
            pv == parts_view(parts@),
            pv.len() == n,
            find_part_spec(pv, name@) == find_part_spec(pv.skip(k as int), name@),
        decreases n - k,
    {
        proof {
            assert(pv.skip(k as int)[0] == pv[k as int]);
            assert(pv.skip(k as int).drop_first() =~= pv.skip(k + 1));
            assert(pv[k as int] == (parts@[k as int].name@, parts@[k as int].data@));
        }
        if bytes_eq(parts[k].name.as_str().as_bytes(), name) {
            return Some(&parts[k].data);
        }
        k += 1;
    }
    proof {
        assert(pv.skip(n as int) =~= Seq::<(Seq<char>, Seq<u8>)>::empty());
    }
    None
}

/// The decimal value of a digit-byte run.
pub open spec fn bytes_dec_val(ds: Seq<u8>) -> nat
    decreases ds.len(),
{
    if ds.len() == 0 {
        0
    } else {
        bytes_dec_val(ds.drop_last()) * 10 + (if 48 <= ds.last() <= 57 {
            (ds.last() - 48) as nat
        } else {
            0
        })
    }
}

pub open spec fn all_digit_bytes(ds: Seq<u8>) -> bool {
    forall|k: int| 0 <= k < ds.len() ==> 48 <= #[trigger] ds[k] <= 57
}

/// The numeric suffix of a relationship id of the canonical `rId<number>`
/// shape, when the number fits.
pub open spec fn rid_val(id: Seq<u8>) -> Option<u32> {
    if id.len() > 3 && id.subrange(0, 3) == sb("rId") && all_digit_bytes(id.skip(3))
        && bytes_dec_val(id.skip(3)) <= u32::MAX {
        Some(bytes_dec_val(id.skip(3)) as u32)
    } else {
        None
    }
}

/// Reads the numeric suffix of a canonical `rId<number>` id.
pub fn rid_val_x(id: &[u8]) -> (r: Option<u32>)
    ensures
        r == rid_val(id@),
{
    let n = id.len();
    if n <= 3 {
        return None;
    }
    if !bytes_eq(slice_subrange(id, 0, 3), "rId".as_bytes()) {
        return None;
    }
    let ghost ds = id@.skip(3);
    let mut i: usize = 3;
    let mut val: u64 = 0;
    let mut over: bool = false;
    while i < n
        invariant
            3 <= i <= n,
            n == id@.len(),
            ds == id@.skip(3),
            id@.subrange(0, 3) == sb("rId"),
            forall|k: int| 3 <= k < i ==> 48 <= #[trigger] id@[k] <= 57,
            !over ==> val == bytes_dec_val(ds.take(i - 3)) && val <= u32::MAX as u64,
            over ==> bytes_dec_val(ds.take(i - 3)) > u32::MAX,
        decreases n - i,
    {
        let b = id[i];
        if !(48 <= b && b <= 57) {
            assert(id@.skip(3)[i - 3] == id@[i as int]);
            assert(!all_digit_bytes(id@.skip(3)));
            return None;
        }
        proof {
            assert(ds[i - 3] == id@[i as int]);
            assert(ds.take(i + 1 - 3).drop_last() =~= ds.take(i - 3));
            assert(ds.take(i + 1 - 3).last() == ds[i - 3]);
        }
        if !over {
            let nv = val * 10 + ((b - 48) as u64);
            if nv > u32::MAX as u64 {
                over = true;
                val = 0;
            } else {
                val = nv;
            }
        } else {
            proof {
                assert(bytes_dec_val(ds.take(i + 1 - 3)) >= bytes_dec_val(ds.take(i - 3))) by {
                    assert(bytes_dec_val(ds.take(i - 3)) * 10 - bytes_dec_val(ds.take(i - 3)) == 9
                        * bytes_dec_val(ds.take(i - 3)));
                }
            }
        }
        i += 1;
    }
    proof {
        assert(ds.take(n - 3) =~= ds);
    }
    if over {
        return None;
    }
    assert(all_digit_bytes(id@.skip(3)));
    Some(val as u32)
}

/// Whether a relationship type marks a worksheet relationship.
pub open spec fn is_worksheet_type(kd: Seq<u8>) -> bool {
    kd.len() >= 10 && kd.skip(kd.len() - 10) == sb("/worksheet")
}

pub fn is_worksheet_type_x(kd: &[u8]) -> (r: bool)
    ensures
        r == is_worksheet_type(kd@),
{
    let n = kd.len();
    if n < 10 {
        return false;
    }
    let r = bytes_eq(slice_subrange(kd, n - 10, n), "/worksheet".as_bytes());
    proof {
        assert(kd@.subrange(n - 10, n as int) =~= kd@.skip(n - 10));
    }
    r
}

/// The state of one pass over the workbook's sheet table: the relationship
/// id of the last sheet entry whose display name matched, if any.
pub open spec fn sheet_step(
    tok: SpecTok,
    sheet_name: Seq<u8>,
    acc: Option<Seq<u8>>,
) -> Option<Seq<u8>> {
    match tok {
        SpecTok::Empty { name, attrs } => {
            if name == sb("sheet") {
                match (attr_of(attrs, sb("name")), attr_of(attrs, sb("r:id"))) {
                    (Some(nm), Some(rid)) => if nm == sheet_name {
                        Some(rid)
                    } else {
                        acc
                    },
                    _ => acc,
                }
            } else {
                acc
            }
        },
        _ => acc,
    }
}

/// One pass over the workbook definition: the matched sheet's relationship
/// id, or a parse failure.
pub open spec fn sheet_rel_from(
    s: Seq<u8>,
    i: int,
    sheet_name: Seq<u8>,
    acc: Option<Seq<u8>>,
) -> Result<Option<Seq<u8>>, ()>
    decreases s.len() - i,
    when 0 <= i <= s.len()
    via sheet_rel_from_decreases
{
    if i >= s.len() {
        Ok(acc)
    } else {
        match lex(s, i) {
            None => Err(()),
            Some((tok, j)) => sheet_rel_from(s, j, sheet_name, sheet_step(tok, sheet_name, acc)),
        }
    }
}

#[via_fn]
proof fn sheet_rel_from_decreases(s: Seq<u8>, i: int, sheet_name: Seq<u8>, acc: Option<Seq<u8>>) {
    if 0 <= i < s.len() {
        crate::lexer::lemma_lex_bounds(s, i);
    }
}

/// What resolving a sheet display name against the workbook definition
/// yields: the sheet's relationship id; `SheetNotFound` when no sheet entry
/// carries the name; `TemplateStructureInvalid` when the document cannot be
/// parsed.
pub open spec fn sheet_rel_spec(s: Seq<u8>, sheet_name: Seq<u8>) -> Result<Seq<u8>, GenError> {
    match sheet_rel_from(s, 0, sheet_name, None) {
        Err(_) => Err(GenError::TemplateStructureInvalid),
        Ok(None) => Err(GenError::SheetNotFound),
        Ok(Some(rid)) => Ok(rid),
    }
}

/// Resolves a sheet display name to its relationship id.
pub fn parse_sheet_mapping(workbook_xml: &[u8], sheet_name: &[u8]) -> (r: Result<Vec<u8>, GenError>)
    ensures
        match r {
            Ok(v) => sheet_rel_spec(workbook_xml@, sheet_name@) == Ok::<Seq<u8>, GenError>(v@),
            Err(e) => sheet_rel_spec(workbook_xml@, sheet_name@) == Err::<Seq<u8>, GenError>(e),
        },
{
    let ghost s = workbook_xml@;
    let n = workbook_xml.len();
    let mut i: usize = 0;
    let mut acc: Option<Vec<u8>> = None;
    while i < n
        invariant
            i <= n,
            n == s.len(),
            s == workbook_xml@,
            sheet_rel_from(s, 0, sheet_name@, None) == sheet_rel_from(
                s,
                i as int,
                sheet_name@,
                match acc {
                    Some(ref v) => Some(v@),
                    None => None::<Seq<u8>>,
                },
            ),
        decreases n - i,
    {
        match lex_at(workbook_xml, i) {
            None => {
                return Err(GenError::TemplateStructureInvalid);
            },
            Some((tok, j)) => {
                match &tok {
                    Token::Empty { name, attrs } => {
                        if bytes_eq(name.as_slice(), "sheet".as_bytes()) {
                            let nm = attr_lookup(attrs, "name".as_bytes());
                            let rid = attr_lookup(attrs, "r:id".as_bytes());
                            match (nm, rid) {
                                (Some(nm_v), Some(rid_v)) => {
                                    if bytes_eq(nm_v.as_slice(), sheet_name) {
                                        acc = Some(slice_to_vec(rid_v.as_slice()));
                                    }
                                },
                                _ => {},
                            }
                        }
                    },
                    _ => {},
                }
                i = j;
            },
        }
    }
    proof {
        let accv = match acc {
            Some(ref v) => Some(v@),
            None => None::<Seq<u8>>,
        };
        assert(sheet_rel_from(s, n as int, sheet_name@, accv) == Ok::<Option<Seq<u8>>, ()>(accv));
    }
    match acc {
        Some(v) => Ok(v),
        None => Err(GenError::SheetNotFound),
    }
}

/// The state of one pass over the workbook's relationship table.
pub struct RelState {
    pub target: Option<Seq<u8>>,
    pub preserved: Seq<(Seq<u8>, Seq<u8>, Seq<u8>)>,
    pub max_id: u32,
}

/// How one event changes the relationship-table state: a `Relationship`
/// entry must carry `Id`, `Target` and `Type`; its numeric id suffix raises
/// the highest seen; a worksheet-typed entry either resolves the template
/// sheet's target or is dropped, and every other entry is preserved in
/// order.
pub open spec fn rel_step(tok: SpecTok, rid: Seq<u8>, st: RelState) -> Result<RelState, ()> {
    match tok {
        SpecTok::Empty { name, attrs } => {
            if name == sb("Relationship") {
                match (attr_of(attrs, sb("Id")), attr_of(attrs, sb("Target")), attr_of(
                    attrs,
                    sb("Type"),
                )) {
                    (Some(id), Some(tg), Some(kd)) => {
                        let m2 = match rid_val(id) {
                            Some(v) => if v > st.max_id {
                                v
                            } else {
                                st.max_id
                            },
                            None => st.max_id,
                        };
                        if is_worksheet_type(kd) {
                            if id == rid {
                                Ok(RelState { target: Some(tg), preserved: st.preserved, max_id: m2 })
                            } else {
                                Ok(RelState { target: st.target, preserved: st.preserved, max_id: m2 })
                            }
                        } else {
                            Ok(
                                RelState {
                                    target: st.target,
                                    preserved: st.preserved.push((id, tg, kd)),
                                    max_id: m2,
                                },
                            )
                        }
                    },
                    _ => Err(()),
                }
            } else {
                Ok(st)
            }
        },
        _ => Ok(st),
    }
}

/// One pass over the relationship table.
pub open spec fn rels_from(s: Seq<u8>, i: int, rid: Seq<u8>, st: RelState) -> Result<RelState, ()>
    decreases s.len() - i,
    when 0 <= i <= s.len()
    via rels_from_decreases
{
    if i >= s.len() {
        Ok(st)
    } else {
        match lex(s, i) {
            None => Err(()),
            Some((tok, j)) => match rel_step(tok, rid, st) {
                Err(_) => Err(()),
                Ok(st2) => rels_from(s, j, rid, st2),
            },
        }
    }
}

#[via_fn]
proof fn rels_from_decreases(s: Seq<u8>, i: int, rid: Seq<u8>, st: RelState) {
    if 0 <= i < s.len() {
        crate::lexer::lemma_lex_bounds(s, i);
    }
}

/// What partitioning the relationship table yields: the template sheet's
/// target, the preserved non-worksheet relationships in order, and the
/// highest numeric id suffix.  `RelationshipMissing` when no worksheet entry
/// carries the requested id; `TemplateStructureInvalid` when the table
/// cannot be parsed or an entry lacks a required attribute.
pub open spec fn rels_spec(s: Seq<u8>, rid: Seq<u8>) -> Result<
    (Seq<u8>, Seq<(Seq<u8>, Seq<u8>, Seq<u8>)>, u32),
    GenError,
> {
    match rels_from(s, 0, rid, RelState { target: None, preserved: Seq::empty(), max_id: 0 }) {
        Err(_) => Err(GenError::TemplateStructureInvalid),
        Ok(st) => match st.target {
            None => Err(GenError::RelationshipMissing),
            Some(t) => Ok((t, st.preserved, st.max_id)),
        },
    }
}

/// Partitions the workbook's relationship table.
pub fn parse_workbook_relationships(xml: &[u8], template_rel_id: &[u8]) -> (r: Result<
    (Vec<u8>, Vec<WorkbookRelationship>, u32),
    GenError,
>)
    ensures
        match r {
            Ok(v) => rels_spec(xml@, template_rel_id@) == Ok::<_, GenError>(
                (v.0@, rels_view(v.1@), v.2),
            ),
            Err(e) => rels_spec(xml@, template_rel_id@) == Err::<
                (Seq<u8>, Seq<(Seq<u8>, Seq<u8>, Seq<u8>)>, u32),
                GenError,
            >(e),
        },
{
    let ghost s = xml@;
    let ghost rid = template_rel_id@;
    let n = xml.len();
    let mut i: usize = 0;
    let mut target: Option<Vec<u8>> = None;
    let mut preserved: Vec<WorkbookRelationship> = Vec::new();
    let mut max_id: u32 = 0;
    proof {
        assert(rels_view(preserved@) =~= Seq::<(Seq<u8>, Seq<u8>, Seq<u8>)>::empty());
    }
    while i < n
        invariant
            i <= n,
            n == s.len(),
            s == xml@,
            rid == template_rel_id@,
            rels_from(
                s,
                0,
                rid,
                RelState { target: None, preserved: Seq::empty(), max_id: 0 },
            ) == rels_from(
                s,
                i as int,
                rid,
                RelState {
                    target: match target {
                        Some(ref v) => Some(v@),
                        None => None::<Seq<u8>>,
                    },
                    preserved: rels_view(preserved@),
                    max_id: max_id,
                },
            ),
        decreases n - i,
    {
        match lex_at(xml, i) {
            None => {
                return Err(GenError::TemplateStructureInvalid);
            },
            Some((tok, j)) => {
                match &tok {
                    Token::Empty { name, attrs } => {
                        if bytes_eq(name.as_slice(), "Relationship".as_bytes()) {
                            let id_a = attr_lookup(attrs, "Id".as_bytes());
                            let tg_a = attr_lookup(attrs, "Target".as_bytes());
                            let kd_a = attr_lookup(attrs, "Type".as_bytes());
                            match (id_a, tg_a, kd_a) {
                                (Some(id_v), Some(tg_v), Some(kd_v)) => {
                                    match rid_val_x(id_v.as_slice()) {
                                        Some(v) => {
                                            if v > max_id {
                                                max_id = v;
                                            }
                                        },
                                        None => {},
                                    }
                                    if is_worksheet_type_x(kd_v.as_slice()) {
                                        if bytes_eq(id_v.as_slice(), template_rel_id) {
                                            target = Some(slice_to_vec(tg_v.as_slice()));
                                        }
                                    } else {
                                        let ghost pre_old = rels_view(preserved@);
                                        preserved.push(
                                            WorkbookRelationship {
                                                id: slice_to_vec(id_v.as_slice()),
                                                target: slice_to_vec(tg_v.as_slice()),
                                                type_attr: slice_to_vec(kd_v.as_slice()),
                                            },
                                        );
                                        proof {
                                            assert(rels_view(preserved@) =~= pre_old.push(
                                                (id_v@, tg_v@, kd_v@),
                                            ));
                                        }
                                    }
                                },
                                _ => {
                                    return Err(GenError::TemplateStructureInvalid);
                                },
                            }
                        }
                    },
                    _ => {},
                }
                i = j;
            },
        }
    }
    proof {
        let st = RelState {
            target: match target {
                Some(ref v) => Some(v@),
                None => None::<Seq<u8>>,
            },
            preserved: rels_view(preserved@),
            max_id: max_id,
        };
        assert(rels_from(s, n as int, rid, st) == Ok::<RelState, ()>(st));
    }
    match target {
        Some(t) => Ok((t, preserved, max_id)),
        None => Err(GenError::RelationshipMissing),
    }
}

proof fn lemma_rels_from_bounded(s: Seq<u8>, i: int, rid: Seq<u8>, st: RelState)
    requires
        0 <= i <= s.len(),
        forall|k: int|
            0 <= k < st.preserved.len() ==> (match rid_val(#[trigger] st.preserved[k].0) {
                Some(v) => v <= st.max_id,
                None => true,
            }),
    ensures
        match rels_from(s, i, rid, st) {
            Ok(st2) => st2.max_id >= st.max_id && forall|k: int|
                0 <= k < st2.preserved.len() ==> (match rid_val(#[trigger] st2.preserved[k].0) {
                    Some(v) => v <= st2.max_id,
                    None => true,
                }),
            Err(_) => true,
        },
    decreases s.len() - i,
{
    if i < s.len() {
        crate::lexer::lemma_lex_bounds(s, i);
        match lex(s, i) {
            None => {},
            Some((tok, j)) => {
                match rel_step(tok, rid, st) {
                    Err(_) => {},
                    Ok(st2) => {
                        assert(st2.max_id >= st.max_id);
                        assert(forall|k: int|
                            0 <= k < st2.preserved.len() ==> (match rid_val(
                                #[trigger] st2.preserved[k].0,
                            ) {
                                Some(v) => v <= st2.max_id,
                                None => true,
                            })) by {
                            assert(forall|k: int|
                                0 <= k < st.preserved.len() ==> st2.preserved[k]
                                    == st.preserved[k]);
                        };
                        lemma_rels_from_bounded(s, j, rid, st2);
                    },
                }
            },
        }
    }
}

/// Every preserved relationship's id that reads as a canonical `rId<number>`
/// has a number no larger than the recorded highest suffix: a fresh id past
/// that suffix collides with no preserved id.
pub proof fn lemma_preserved_ids_bounded(
    s: Seq<u8>,
    rid: Seq<u8>,
    parsed: (Seq<u8>, Seq<(Seq<u8>, Seq<u8>, Seq<u8>)>, u32),
)
    requires
        rels_spec(s, rid) == Ok::<(Seq<u8>, Seq<(Seq<u8>, Seq<u8>, Seq<u8>)>, u32), GenError>(
            parsed,
        ),
    ensures
        forall|k: int|
            0 <= k < parsed.1.len() ==> (match rid_val(#[trigger] parsed.1[k].0) {
                Some(v) => v <= parsed.2,
                None => true,
            }),
{
    let st0 = RelState { target: None, preserved: Seq::empty(), max_id: 0 };
    lemma_rels_from_bounded(s, 0, rid, st0);
}

/// The position of the last occurrence of byte `b`, if any.
pub open spec fn rfind_byte(s: Seq<u8>, b: u8) -> Option<int>
    decreases s.len(),
{
    if s.len() == 0 {
        None
    } else if s.last() == b {
        Some(s.len() - 1)
    } else {
        rfind_byte(s.drop_last(), b)
    }
}

fn rfind_byte_x(s: &[u8], b: u8) -> (r: Option<usize>)
    ensures
        match rfind_byte(s@, b) {
            Some(g) => r matches Some(e) && e as int == g && e < s@.len(),
            None => r is None,
        },
{
    let n = s.len();
    proof {
        assert(s@.take(n as int) =~= s@);
    }
    let mut k = n;
    while k > 0
        invariant
            k <= n,
            n == s@.len(),
            rfind_byte(s@, b) == rfind_byte(s@.take(k as int), b),
        decreases k,
    {
        k = k - 1;
        proof {
            let q = s@.take(k + 1);
            assert(q.drop_last() =~= s@.take(k as int));
            assert(q.last() == s@[k as int]);
        }
        if s[k] == b {
            return Some(k);
        }
    }
    proof {
        assert(s@.take(0) =~= Seq::<u8>::empty());
    }
    None
}

/// The conventional sibling path of a worksheet part's own relationship
/// part: `folder/_rels/file.rels`, or nothing for a target without a folder.
pub open spec fn sheet_rel_path(target: Seq<u8>) -> Option<Seq<u8>> {
    match rfind_byte(target, 47) {
        None => None,
        Some(k) => Some(target.take(k) + sb("/_rels/") + target.skip(k + 1) + sb(".rels")),
    }
}

/// Builds the conventional per-sheet relationship part path.
pub fn sheet_relationship_path(target: &[u8]) -> (r: Option<Vec<u8>>)
    ensures
        match sheet_rel_path(target@) {
            Some(g) => r matches Some(v) && v@ == g,
            None => r is None,
        },
{
    match rfind_byte_x(target, 47) {
        None => None,
        Some(k) => {
            let n = target.len();
            let mut out: Vec<u8> = Vec::new();
            push_bytes(&mut out, slice_subrange(target, 0, k));
            push_bytes(&mut out, "/_rels/".as_bytes());
            push_bytes(&mut out, slice_subrange(target, k + 1, n));
            push_bytes(&mut out, ".rels".as_bytes());
            proof {
                assert(target@.take(k as int) == target@.subrange(0, k as int));
                assert(target@.skip(k + 1) =~= target@.subrange(k + 1, target@.len() as int));
            }
            Some(out)
        },
    }
}

/// The ghost shape of a loaded package.
pub struct SpecPackage {
    pub content_types: Seq<u8>,
    pub preserved: Seq<(Seq<u8>, Seq<u8>, Seq<u8>)>,
    pub next_rel: u32,
    pub target: Seq<u8>,
    pub sheet_xml: Seq<u8>,
    pub sheet_rel: Option<Seq<u8>>,
}

/// What loading a part list against a sheet display name yields, step by
/// step: the content-type list, the workbook definition and its relationship
/// table must exist as valid UTF-8 text; the sheet name must resolve to a
/// relationship id; that id must resolve to a worksheet target; and the
/// targeted part must exist.  The per-sheet relationship part is picked up
/// opportunistically.
#[verifier::opaque]
pub open spec fn load_spec(parts: Seq<(Seq<char>, Seq<u8>)>, sheet_name: Seq<u8>) -> Result<
    SpecPackage,
    GenError,
> {
    match (
        find_part_spec(parts, sb("[Content_Types].xml")),
        find_part_spec(parts, sb("xl/workbook.xml")),
        find_part_spec(parts, sb("xl/_rels/workbook.xml.rels")),
    ) {
        (Some(ct), Some(wb), Some(rl)) => {
            if !vstd::utf8::valid_utf8(ct) || !vstd::utf8::valid_utf8(wb)
                || !vstd::utf8::valid_utf8(rl) {
                Err(GenError::TemplateStructureInvalid)
            } else {
                match sheet_rel_spec(wb, sheet_name) {
                    Err(e) => Err(e),
                    Ok(rid) => match rels_spec(rl, rid) {
                        Err(e) => Err(e),
                        Ok((target, preserved, maxid)) => match find_part_spec(
                            parts,
                            sb("xl/") + target,
                        ) {
                            None => Err(GenError::PartMissing),
                            Some(sx) => Ok(
                                SpecPackage {
                                    content_types: ct,
                                    preserved,
                                    next_rel: maxid,
                                    target,
                                    sheet_xml: sx,
                                    sheet_rel: match sheet_rel_path(target) {
                                        None => None,
                                        Some(p) => find_part_spec(parts, sb("xl/") + p),
                                    },
                                },
                            ),
                        },
                    },
                }
            }
        },
        _ => Err(GenError::TemplateStructureInvalid),
    }
}

/// Relies on `str::from_utf8`: it accepts a byte slice exactly when the
/// bytes are valid UTF-8, the property `vstd::utf8::valid_utf8` defines.
#[verifier::external_body]
fn is_valid_utf8(bytes: &[u8]) -> (r: bool)
    ensures
        r == vstd::utf8::valid_utf8(bytes@),
{
    core::str::from_utf8(bytes).is_ok()
}

/// Loading fails only with a structural kind: an absent or unparsable
/// package document, an unmatched sheet name, an unresolved relationship,
/// or a missing part.
pub proof fn lemma_load_spec_err_kinds(parts: Seq<(Seq<char>, Seq<u8>)>, name: Seq<u8>)
    ensures
        match load_spec(parts, name) {
            Err(e) => e == GenError::TemplateStructureInvalid || e == GenError::SheetNotFound
                || e == GenError::RelationshipMissing || e == GenError::PartMissing,
            Ok(_) => true,
        },
{
    reveal(load_spec);
}

/// A loaded template package: the raw parts, the parsed relationship
/// partition, the content-type list and the template sheet's bytes.
/// Read-only for the remainder of one generation run.
pub struct LoadedPackage {
    pub entries: Vec<ArchivePart>,
    pub content_types_xml: Vec<u8>,
    pub preserved_relationships: Vec<WorkbookRelationship>,
    pub next_relationship_index: u32,
    pub template_target: Vec<u8>,
    pub template_sheet_xml: Vec<u8>,
    pub template_sheet_relationship: Option<Vec<u8>>,
}

impl LoadedPackage {
    /// The view of a loaded package.
    pub open spec fn view_spec(&self) -> SpecPackage {
        SpecPackage {
            content_types: self.content_types_xml@,
            preserved: rels_view(self.preserved_relationships@),
            next_rel: self.next_relationship_index,
            target: self.template_target@,
            sheet_xml: self.template_sheet_xml@,
            sheet_rel: match self.template_sheet_relationship {
                Some(ref v) => Some(v@),
                None => None::<Seq<u8>>,
            },
        }
    }

    /// Loads a template from its parts and the chosen sheet's display name.
    pub fn load(parts: Vec<ArchivePart>, sheet_name: &str) -> (r: Result<LoadedPackage, GenError>)
        ensures
            match r {
                Ok(p) => load_spec(parts_view(parts@), vstd::utf8::encode_utf8(sheet_name@))
                    == Ok::<SpecPackage, GenError>(p.view_spec()) && p.entries@ == parts@,
                Err(e) => load_spec(parts_view(parts@), vstd::utf8::encode_utf8(sheet_name@))
                    == Err::<SpecPackage, GenError>(e),
            },
    {
        proof {
            reveal(load_spec);
        }
        let ct = match find_part(&parts, "[Content_Types].xml".as_bytes()) {
            Some(v) => slice_to_vec(v.as_slice()),
            None => {
                return Err(GenError::TemplateStructureInvalid);
            },
        };
        if !is_valid_utf8(ct.as_slice()) {
            return Err(GenError::TemplateStructureInvalid);
        }
        let wb = match find_part(&parts, "xl/workbook.xml".as_bytes()) {
            Some(v) => slice_to_vec(v.as_slice()),
            None => {
                return Err(GenError::TemplateStructureInvalid);
            },
        };
        if !is_valid_utf8(wb.as_slice()) {
            return Err(GenError::TemplateStructureInvalid);
        }
        let rl = match find_part(&parts, "xl/_rels/workbook.xml.rels".as_bytes()) {
            Some(v) => slice_to_vec(v.as_slice()),
            None => {
                return Err(GenError::TemplateStructureInvalid);
            },
        };
        if !is_valid_utf8(rl.as_slice()) {
            return Err(GenError::TemplateStructureInvalid);
        }
        let rid = match parse_sheet_mapping(wb.as_slice(), sheet_name.as_bytes()) {
            Ok(v) => v,
            Err(e) => {
                return Err(e);
            },
        };
        let (target, preserved, maxid) = match parse_workbook_relationships(
            rl.as_slice(),
            rid.as_slice(),
        ) {
            Ok(v) => v,
            Err(e) => {
                return Err(e);
            },
        };
        let mut sheet_entry: Vec<u8> = Vec::new();
        push_bytes(&mut sheet_entry, "xl/".as_bytes());
        push_bytes(&mut sheet_entry, target.as_slice());
        let sheet_xml = match find_part(&parts, sheet_entry.as_slice()) {
            Some(v) => slice_to_vec(v.as_slice()),
            None => {
                return Err(GenError::PartMissing);
            },
        };
        let sheet_rel: Option<Vec<u8>> = match sheet_relationship_path(target.as_slice()) {
            None => None,
            Some(p) => {
                let mut rel_entry: Vec<u8> = Vec::new();
                push_bytes(&mut rel_entry, "xl/".as_bytes());
                push_bytes(&mut rel_entry, p.as_slice());
                match find_part(&parts, rel_entry.as_slice()) {
                    Some(v) => Some(slice_to_vec(v.as_slice())),
                    None => None,
                }
            },
        };
        Ok(
            LoadedPackage {
                entries: parts,
                content_types_xml: ct,
                preserved_relationships: preserved,
                next_relationship_index: maxid,
                template_target: target,
                template_sheet_xml: sheet_xml,
                template_sheet_relationship: sheet_rel,
            },
        )
    }
}

} // verus!
