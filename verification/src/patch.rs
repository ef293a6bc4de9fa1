//! The streaming cell patcher.
//!
//! One forward pass over the template sheet's XML event stream re-emits every
//! event's bytes verbatim, except that a cell node whose address attribute
//! decodes to an address in the replacement map is replaced wholesale by a
//! canonical inline-string cell node, and the original node's content is
//! suppressed up to its matching close.

use vstd::prelude::*;
use vstd::slice::slice_subrange;
use vstd::slice::slice_to_vec;
use vstd::utf8::encode_utf8;

use crate::cell::CellAddress;
use crate::cell::decode_spec;
use crate::errors::GenError;
use crate::lexer::SpecAttr;
use crate::lexer::SpecTok;
use crate::lexer::Token;
use crate::lexer::XmlAttr;
use crate::lexer::attrs_view;
use crate::lexer::lex;
use crate::lexer::lex_at;
use crate::lexer::lemma_lex_bounds;
use crate::xml::bytes_eq;
use crate::xml::escape_bytes;
use crate::xml::push_bytes;
use crate::xml::push_escaped_bytes;

verus! {

/// The UTF-8 bytes of a string literal.
pub open spec fn sb(s: &str) -> Seq<u8> {
    encode_utf8(s@)
}

/// An address text held as raw bytes, decoded by the same grammar as the
/// character-level codec.
pub open spec fn decode_bytes(s: Seq<u8>) -> Option<CellAddress> {
    match decode_spec(s.map_values(|b: u8| b as char)) {
        Some(p) => Some(CellAddress { row: p.0, column: p.1 }),
        None => None,
    }
}

/// Decodes an address held as raw bytes.
pub fn parse_cell_ref_bytes(v: &[u8]) -> (r: Option<CellAddress>)
    ensures
        r == decode_bytes(v@),
{
    let ghost mc = v@.map_values(|b: u8| b as char);
    let n = v.len();
    let mut i: usize = 0;
    let mut col: u64 = 0;
    let mut col_over: bool = false;
    loop
        invariant
            i <= n,
            n == v@.len() == mc.len(),
            mc == v@.map_values(|b: u8| b as char),
            forall|j: int| 0 <= j < i ==> crate::cell::is_cell_alpha(mc[j]),
            !col_over ==> col == crate::cell::col_val(mc.take(i as int)) && col
                <= 0x1_0000_0000u64,
            col_over ==> crate::cell::col_val(mc.take(i as int)) > 0x1_0000_0000u64,
        ensures
            i <= n,
            n == mc.len(),
            i == n || !crate::cell::is_cell_alpha(mc[i as int]),
            forall|j: int| 0 <= j < i ==> crate::cell::is_cell_alpha(mc[j]),
            !col_over ==> col == crate::cell::col_val(mc.take(i as int)) && col
                <= 0x1_0000_0000u64,
            col_over ==> crate::cell::col_val(mc.take(i as int)) > 0x1_0000_0000u64,
        decreases n - i,
    {
        if i == n {
            break ;
        }
        let b = v[i];
        let lv: u64 = if 65 <= b && b <= 90 {
            (b - 64) as u64
        } else if 97 <= b && b <= 122 {
            (b - 96) as u64
        } else {
            0
        };
        assert(mc[i as int] == v@[i as int] as char);
        if lv == 0 {
            assert(!crate::cell::is_cell_alpha(mc[i as int]));
            break ;
        }
        assert(lv == crate::cell::letter_val(mc[i as int]) && crate::cell::is_cell_alpha(
            mc[i as int],
        ));
        proof {
            assert(mc.take(i + 1).drop_last() =~= mc.take(i as int));
            assert(mc.take(i + 1).last() == mc[i as int]);
        }
        if !col_over {
            let nv = col * 26 + lv;
            if nv > 0x1_0000_0000u64 {
                col_over = true;
                col = 0;
            } else {
                col = nv;
            }
        } else {
            proof {
                assert(crate::cell::col_val(mc.take(i + 1)) == crate::cell::col_val(
                    mc.take(i as int),
                ) * 26 + crate::cell::letter_val(mc[i as int]));
                assert(crate::cell::col_val(mc.take(i as int)) * 26 >= crate::cell::col_val(
                    mc.take(i as int),
                )) by {
                    assert(crate::cell::col_val(mc.take(i as int)) * 26 - crate::cell::col_val(
                        mc.take(i as int),
                    ) == 25 * crate::cell::col_val(mc.take(i as int)));
                }
            }
        }
        i += 1;
    }
    let k = i;
    proof {
        crate::cell::lemma_alpha_prefix_len_char(mc, k as nat);
    }
    if k == 0 || k == n {
        return None;
    }
    let ghost d = mc.skip(k as int);
    let mut row: u64 = 0;
    let mut row_over: bool = false;
    while i < n
        invariant
            k <= i <= n,
            n == v@.len() == mc.len(),
            mc == v@.map_values(|b: u8| b as char),
            d == mc.skip(k as int),
            1 <= k < n,
            crate::cell::alpha_prefix_len(mc) == k,
            forall|j: int| k <= j < i ==> crate::cell::is_cell_digit(mc[j]),
            !row_over ==> row == crate::cell::row_val(d.take(i - k as int)) && row
                <= 0x1_0000_0000u64,
            row_over ==> crate::cell::row_val(d.take(i - k as int)) > 0x1_0000_0000u64,
        decreases n - i,
    {
        let b = v[i];
        assert(mc[i as int] == v@[i as int] as char);
        if !(48 <= b && b <= 57) {
            assert(!crate::cell::is_cell_digit(mc[i as int]));
            assert(!crate::cell::cell_text_ok(mc));
            return None;
        }
        let dv: u64 = (b - 48) as u64;
        assert(dv == crate::cell::digit_val(mc[i as int]) && crate::cell::is_cell_digit(
            mc[i as int],
        ));
        proof {
            assert(d[i - k as int] == mc[i as int]);
            assert(d.take(i + 1 - k as int).drop_last() =~= d.take(i - k as int));
            assert(d.take(i + 1 - k as int).last() == d[i - k as int]);
        }
        if !row_over {
            let nv = row * 10 + dv;
            if nv > 0x1_0000_0000u64 {
                row_over = true;
                row = 0;
            } else {
                row = nv;
            }
        } else {
            proof {
                assert(crate::cell::row_val(d.take(i + 1 - k as int)) == crate::cell::row_val(
                    d.take(i - k as int),
                ) * 10 + crate::cell::digit_val(d[i - k as int]));
                assert(crate::cell::row_val(d.take(i - k as int)) * 10 >= crate::cell::row_val(
                    d.take(i - k as int),
                )) by {
                    assert(crate::cell::row_val(d.take(i - k as int)) * 10 - crate::cell::row_val(
                        d.take(i - k as int),
                    ) == 9 * crate::cell::row_val(d.take(i - k as int)));
                }
            }
        }
        i += 1;
    }
    proof {
        assert(d.take(n - k as int) =~= d);
        assert(mc.take(k as int).len() == k);
    }
    if col_over || row_over {
        return None;
    }
    if row == 0 {
        return None;
    }
    Some(CellAddress { row: (row - 1) as u32, column: (col - 1) as u32 })
}

/// The per-row replacement table: destination address to replacement value
/// bytes, with a later entry for the same address overriding an earlier one.
pub struct Replacements {
    entries: Vec<(u32, u32, Vec<u8>)>,
}

/// The map that a list of (row, column, value) entries builds up, a later
/// entry winning over an earlier one with the same address.
pub open spec fn map_of(s: Seq<(u32, u32, Vec<u8>)>) -> Map<CellAddress, Seq<u8>>
    decreases s.len(),
{
    if s.len() == 0 {
        Map::empty()
    } else {
        map_of(s.drop_last()).insert(
            CellAddress { row: s.last().0, column: s.last().1 },
            s.last().2@,
        )
    }
}

impl View for Replacements {
    type V = Map<CellAddress, Seq<u8>>;

    closed spec fn view(&self) -> Map<CellAddress, Seq<u8>> {
        map_of(self.entries@)
    }
}

impl Replacements {
    /// The table starts empty.
    pub fn new() -> (r: Replacements)
        ensures
            r@ == Map::<CellAddress, Seq<u8>>::empty(),
    {
        let r = Replacements { entries: Vec::new() };
        proof {
            assert(r@ =~= Map::<CellAddress, Seq<u8>>::empty());
        }
        r
    }

    /// Whether the table binds no address at all.
    pub fn is_empty(&self) -> (r: bool)
        ensures
            r == (self@ == Map::<CellAddress, Seq<u8>>::empty()),
    {
        proof {
            if self.entries@.len() > 0 {
                let a = CellAddress {
                    row: self.entries@.last().0,
                    column: self.entries@.last().1,
                };
                assert(map_of(self.entries@).contains_key(a));
                assert(!Map::<CellAddress, Seq<u8>>::empty().contains_key(a));
            }
        }
        self.entries.len() == 0
    }

    /// Binds an address to a value, overriding any earlier binding.
    pub fn insert(&mut self, row: u32, column: u32, value: Vec<u8>)
        ensures
            final(self)@ == old(self)@.insert(CellAddress { row, column }, value@),
    {
        self.entries.push((row, column, value));
        proof {
            assert(self.entries@.drop_last() =~= old(self).entries@);
        }
    }

    /// Looks an address up, honouring the later-entry-wins rule.
    pub fn lookup(&self, row: u32, column: u32) -> (r: Option<&Vec<u8>>)
        ensures
            match r {
                Some(v) => self@.contains_key(CellAddress { row, column }) && v@ == self@[
                    CellAddress { row, column }
                ],
                None => !self@.contains_key(CellAddress { row, column }),
            },
    {
        let ghost a = CellAddress { row, column };
        proof {
            assert(self.entries@.take(self.entries@.len() as int) =~= self.entries@);
        }
        let mut k = self.entries.len();
        while k > 0
            invariant
                k <= self.entries@.len(),
                a == (CellAddress { row, column }),
                self@.contains_key(a) == map_of(self.entries@.take(k as int)).contains_key(a),
                self@.contains_key(a) ==> self@[a] == map_of(self.entries@.take(k as int))[a],
            decreases k,
        {
            k = k - 1;
            let e = &self.entries[k];
            proof {
                let q = self.entries@.take(k + 1);
                assert(q.drop_last() =~= self.entries@.take(k as int));
                assert(q.last() == self.entries@[k as int]);
                assert(map_of(q) == map_of(self.entries@.take(k as int)).insert(
                    CellAddress {
                        row: self.entries@[k as int].0,
                        column: self.entries@[k as int].1,
                    },
                    self.entries@[k as int].2@,
                ));
            }
            if e.0 == row && e.1 == column {
                return Some(&e.2);
            }
        }
        proof {
            assert(self.entries@.take(0) =~= Seq::<(u32, u32, Vec<u8>)>::empty());
        }
        None
    }
}

/// The first attribute with the given name, if any.
pub open spec fn attr_of(attrs: Seq<SpecAttr>, name: Seq<u8>) -> Option<Seq<u8>>
    decreases attrs.len(),
{
    if attrs.len() == 0 {
        None
    } else if attrs[0].name == name {
        Some(attrs[0].value)
    } else {
        attr_of(attrs.drop_first(), name)
    }
}

/// Looks up the first attribute with the given name.
pub fn attr_lookup<'a>(attrs: &'a Vec<XmlAttr>, name: &[u8]) -> (r: Option<&'a Vec<u8>>)
    ensures
        match attr_of(attrs_view(attrs@), name@) {
            Some(v) => r matches Some(e) && e@ == v,
            None => r is None,
        },
{
    let ghost av = attrs_view(attrs@);
    proof {
        assert(av.skip(0) =~= av);
    }
    let n = attrs.len();
    let mut k: usize = 0;
    while k < n
        invariant
            k <= n,
            n == attrs@.len(),
            av == attrs_view(attrs@),
            av.len() == n,
            attr_of(av, name@) == attr_of(av.skip(k as int), name@),
        decreases n - k,
    {
        proof {
            assert(av.skip(k as int)[0] == av[k as int]);
            assert(av.skip(k as int).drop_first() =~= av.skip(k + 1));
        }
        if bytes_eq(attrs[k].name.as_slice(), name) {
            assert(attr_of(av.skip(k as int), name@) == Some(av[k as int].value));
            return Some(&attrs[k].value);
        }
        k += 1;
    }
    proof {
        assert(av.skip(n as int) =~= Seq::<SpecAttr>::empty());
    }
    None
}

/// The re-emitted attributes of a replaced cell: every original attribute
/// except the address and the value-type attribute, in order.
pub open spec fn repl_attrs(attrs: Seq<SpecAttr>) -> Seq<u8>
    decreases attrs.len(),
{
    if attrs.len() == 0 {
        Seq::empty()
    } else {
        repl_attrs(attrs.drop_last()) + (if attrs.last().name == sb("r") || attrs.last().name == sb(
            "t",
        ) {
            Seq::<u8>::empty()
        } else {
            sb(" ") + attrs.last().name + sb("=\"") + attrs.last().value + sb("\"")
        })
    }
}

/// The canonical inline-string replacement node for one cell: the original
/// address text, the kept original attributes, a fixed inline-string type,
/// and the XML-escaped replacement value as the single text child.
pub open spec fn repl_node(rv: Seq<u8>, attrs: Seq<SpecAttr>, value: Seq<u8>) -> Seq<u8> {
    sb("<c r=\"") + rv + sb("\"") + repl_attrs(attrs) + sb(" t=\"inlineStr\"><is><t>")
        + escape_bytes(value) + sb("</t></is></c>")
}

/// When a tag named `c` carries an address attribute that decodes to a
/// replaced address: the raw address bytes and the replacement value.
pub open spec fn cell_target(
    name: Seq<u8>,
    attrs: Seq<SpecAttr>,
    m: Map<CellAddress, Seq<u8>>,
) -> Option<(Seq<u8>, Seq<u8>)> {
    if name == sb("c") {
        match attr_of(attrs, sb("r")) {
            Some(rv) => match decode_bytes(rv) {
                Some(a) => if m.contains_key(a) {
                    Some((rv, m[a]))
                } else {
                    None
                },
                None => None,
            },
            None => None,
        }
    } else {
        None
    }
}

/// The whole patched output from byte position `i` on, given the current
/// suppression depth, or nothing when the event stream is malformed.
///
/// Outside a suppressed region every event's bytes are re-emitted verbatim;
/// a replaced cell emits its replacement node instead and opens a suppressed
/// region (unless self-closed) that its matching close ends.
pub open spec fn patch_from(
    s: Seq<u8>,
    i: int,
    depth: int,
    m: Map<CellAddress, Seq<u8>>,
) -> Option<Seq<u8>>
    decreases s.len() - i,
    when 0 <= i <= s.len() && depth >= 0
    via patch_from_decreases
{
    if i >= s.len() {
        Some(Seq::empty())
    } else {
        match lex(s, i) {
            None => None,
            Some((tok, j)) => match tok {
                SpecTok::Start { name, attrs } => {
                    if depth > 0 {
                        patch_from(s, j, depth + 1, m)
                    } else {
                        match cell_target(name, attrs, m) {
                            Some((rv, value)) => match patch_from(s, j, 1, m) {
                                None => None,
                                Some(rest) => Some(repl_node(rv, attrs, value) + rest),
                            },
                            None => match patch_from(s, j, 0, m) {
                                None => None,
                                Some(rest) => Some(s.subrange(i, j) + rest),
                            },
                        }
                    }
                },
                SpecTok::Empty { name, attrs } => {
                    if depth > 0 {
                        patch_from(s, j, depth, m)
                    } else {
                        match cell_target(name, attrs, m) {
                            Some((rv, value)) => match patch_from(s, j, 0, m) {
                                None => None,
                                Some(rest) => Some(repl_node(rv, attrs, value) + rest),
                            },
                            None => match patch_from(s, j, 0, m) {
                                None => None,
                                Some(rest) => Some(s.subrange(i, j) + rest),
                            },
                        }
                    }
                },
                SpecTok::End { name } => {
                    if depth == 1 && name == sb("c") {
                        patch_from(s, j, 0, m)
                    } else if depth > 1 {
                        patch_from(s, j, depth - 1, m)
                    } else if depth == 1 {
                        patch_from(s, j, 1, m)
                    } else {
                        match patch_from(s, j, 0, m) {
                            None => None,
                            Some(rest) => Some(s.subrange(i, j) + rest),
                        }
                    }
                },
                _ => {
                    if depth > 0 {
                        patch_from(s, j, depth, m)
                    } else {
                        match patch_from(s, j, depth, m) {
                            None => None,
                            Some(rest) => Some(s.subrange(i, j) + rest),
                        }
                    }
                },
            },
        }
    }
}

#[via_fn]
proof fn patch_from_decreases(s: Seq<u8>, i: int, depth: int, m: Map<CellAddress, Seq<u8>>) {
    if 0 <= i < s.len() {
        lemma_lex_bounds(s, i);
    }
}

/// Appends the replacement node for one cell.
fn emit_repl(out: &mut Vec<u8>, rv: &Vec<u8>, attrs: &Vec<XmlAttr>, value: &Vec<u8>)
    ensures
        final(out)@ == old(out)@ + repl_node(rv@, attrs_view(attrs@), value@),
{
    let ghost av = attrs_view(attrs@);
    push_bytes(out, "<c r=\"".as_bytes());
    push_bytes(out, rv.as_slice());
    push_bytes(out, "\"".as_bytes());
    let ghost before_attrs = out@;
    let n = attrs.len();
    let mut k: usize = 0;
    while k < n
        invariant
            k <= n,
            n == attrs@.len(),
            av == attrs_view(attrs@),
            av.len() == n,
            out@ == before_attrs + repl_attrs(av.take(k as int)),
        decreases n - k,
    {
        proof {
            assert(av.take(k + 1).drop_last() =~= av.take(k as int));
            assert(av.take(k + 1).last() == av[k as int]);
        }
        let keep = !bytes_eq(attrs[k].name.as_slice(), "r".as_bytes()) && !bytes_eq(
            attrs[k].name.as_slice(),
            "t".as_bytes(),
        );
        if keep {
            push_bytes(out, " ".as_bytes());
            push_bytes(out, attrs[k].name.as_slice());
            push_bytes(out, "=\"".as_bytes());
            push_bytes(out, attrs[k].value.as_slice());
            push_bytes(out, "\"".as_bytes());
        }
        proof {
            assert(out@ =~= before_attrs + repl_attrs(av.take(k + 1)));
        }
        k += 1;
    }
    proof {
        assert(av.take(n as int) =~= av);
    }
    push_bytes(out, " t=\"inlineStr\"><is><t>".as_bytes());
    push_escaped_bytes(out, value.as_slice());
    push_bytes(out, "</t></is></c>".as_bytes());
    proof {
        assert(final(out)@ =~= old(out)@ + repl_node(rv@, attrs_view(attrs@), value@));
    }
}

/// When this tag is a replaced cell, its raw address bytes (borrowed from
/// the attribute list) and its replacement value (borrowed from the table).
fn find_target<'a, 'b>(name: &Vec<u8>, attrs: &'a Vec<XmlAttr>, reps: &'b Replacements) -> (r:
    Option<(&'a Vec<u8>, &'b Vec<u8>)>)
    ensures
        match cell_target(name@, attrs_view(attrs@), reps@) {
            Some(g) => r matches Some(e) && e.0@ == g.0 && e.1@ == g.1,
            None => r is None,
        },
{
    if !bytes_eq(name.as_slice(), "c".as_bytes()) {
        return None;
    }
    match attr_lookup(attrs, "r".as_bytes()) {
        None => None,
        Some(rv) => match parse_cell_ref_bytes(rv.as_slice()) {
            None => None,
            Some(a) => match reps.lookup(a.row, a.column) {
                None => None,
                Some(value) => Some((rv, value)),
            },
        },
    }
}

/// Patches one template sheet body.
///
/// With an empty replacement table the input is returned byte-identical,
/// without re-serialization.  Otherwise the output is exactly the single
/// forward-pass rewrite that `patch_from` describes, and a stream that
/// cannot be parsed is reported as `MalformedXml`.
pub fn patch(template: &[u8], reps: &Replacements) -> (r: Result<Vec<u8>, GenError>)
    ensures
        reps@ == Map::<CellAddress, Seq<u8>>::empty() ==> (r matches Ok(out) && out@ == template@),
        reps@ != Map::<CellAddress, Seq<u8>>::empty() ==> match patch_from(
            template@,
            0,
            0,
            reps@,
        ) {
            Some(o) => (r matches Ok(out) && out@ == o),
            None => r == Err::<Vec<u8>, GenError>(GenError::MalformedXml),
        },
{
    if reps.is_empty() {
        return Ok(slice_to_vec(template));
    }
    let ghost s = template@;
    let ghost m = reps@;
    let n = template.len();
    let mut out: Vec<u8> = Vec::new();
    let mut i: usize = 0;
    let mut depth: usize = 0;
    loop
        invariant
            i <= n,
            depth <= i,
            n == s.len(),
            s == template@,
            m == reps@,
            m != Map::<CellAddress, Seq<u8>>::empty(),
            patch_from(s, 0, 0, m) == match patch_from(s, i as int, depth as int, m) {
                None => None::<Seq<u8>>,
                Some(rest) => Some(out@ + rest),
            },
        decreases n - i,
    {
        if i >= n {
            proof {
                assert(patch_from(s, i as int, depth as int, m) == Some(Seq::<u8>::empty()));
                assert(out@ + Seq::<u8>::empty() =~= out@);
            }
            return Ok(out);
        }
        let r = lex_at(template, i);
        if r.is_none() {
            assert(patch_from(s, i as int, depth as int, m) is None);
            return Err(GenError::MalformedXml);
        }
        let (tok, j) = r.unwrap();
        let ghost out_old = out@;
        let ghost d_old = depth as int;
        match &tok {
            Token::Start { name, attrs } => {
                if depth > 0 {
                    depth += 1;
                } else {
                    match find_target(name, attrs, reps) {
                        Some((rv, value)) => {
                            emit_repl(&mut out, rv, attrs, value);
                            depth = 1;
                            proof {
                                lemma_cat_step(
                                    s,
                                    m,
                                    out_old,
                                    repl_node(rv@, attrs_view(attrs@), value@),
                                    j as int,
                                    1,
                                );
                            }
                        },
                        None => {
                            push_bytes(&mut out, slice_subrange(template, i, j));
                            proof {
                                lemma_cat_step(s, m, out_old, s.subrange(i as int, j as int),
                                j as int, 0);
                            }
                        },
                    }
                }
            },
            Token::Empty { name, attrs } => {
                if depth == 0 {
                    match find_target(name, attrs, reps) {
                        Some((rv, value)) => {
                            emit_repl(&mut out, rv, attrs, value);
                            proof {
                                lemma_cat_step(
                                    s,
                                    m,
                                    out_old,
                                    repl_node(rv@, attrs_view(attrs@), value@),
                                    j as int,
                                    0,
                                );
                            }
                        },
                        None => {
                            push_bytes(&mut out, slice_subrange(template, i, j));
                            proof {
                                lemma_cat_step(s, m, out_old, s.subrange(i as int, j as int),
                                j as int, 0);
                            }
                        },
                    }
                }
            },
            Token::End { name } => {
                if depth == 1 && bytes_eq(name.as_slice(), "c".as_bytes()) {
                    depth = 0;
                } else if depth > 1 {
                    depth -= 1;
                } else if depth == 0 {
                    push_bytes(&mut out, slice_subrange(template, i, j));
                    proof {
                        lemma_cat_step(s, m, out_old, s.subrange(i as int, j as int), j as int, 0);
                    }
                }
            },
            _ => {
                if depth == 0 {
                    push_bytes(&mut out, slice_subrange(template, i, j));
                    proof {
                        lemma_cat_step(s, m, out_old, s.subrange(i as int, j as int), j as int, 0);
                    }
                }
            },
        }
        i = j;
    }
}

/// Re-associates one emitted piece into the accumulated output.
proof fn lemma_cat_step(
    s: Seq<u8>,
    m: Map<CellAddress, Seq<u8>>,
    pre: Seq<u8>,
    piece: Seq<u8>,
    j: int,
    d: int,
)
    requires
        0 <= j <= s.len(),
        d >= 0,
    ensures
        (match patch_from(s, j, d, m) {
            None => None::<Seq<u8>>,
            Some(rest) => Some(pre + (piece + rest)),
        }) == (match patch_from(s, j, d, m) {
            None => None::<Seq<u8>>,
            Some(rest) => Some((pre + piece) + rest),
        }),
{
    match patch_from(s, j, d, m) {
        None => {},
        Some(rest) => {
            assert(pre + (piece + rest) =~= (pre + piece) + rest);
        },
    }
}

} // verus!
