//! A single-pass XML event lexer over raw bytes.
//!
//! Each call scans exactly one event at a byte position: a text run, a
//! comment, a CDATA section, a declaration or processing instruction, a
//! doctype, an opening tag with its attributes, a self-closed tag, or a
//! closing tag.  Every event owns a contiguous byte span of the input, so a
//! consumer that re-emits spans verbatim reproduces the input byte for byte.

use vstd::prelude::*;

use crate::xml::sub_vec;

verus! {

/// One attribute of a tag: raw name bytes and raw (still escaped) value
/// bytes.
pub struct SpecAttr {
    pub name: Seq<u8>,
    pub value: Seq<u8>,
}

/// The shape of one lexed event.  Events that the consumers only ever copy
/// verbatim carry no payload; their bytes are the span between the position
/// lexed at and the returned end position.
pub enum SpecTok {
    Text,
    Comment,
    CData,
    Pi,
    DocType,
    Start { name: Seq<u8>, attrs: Seq<SpecAttr> },
    Empty { name: Seq<u8>, attrs: Seq<SpecAttr> },
    End { name: Seq<u8> },
}

pub open spec fn is_ws(b: u8) -> bool {
    b == 32 || b == 9 || b == 13 || b == 10
}

/// A byte that ends a tag name: whitespace, `/` or `>`.
pub open spec fn is_name_end(b: u8) -> bool {
    is_ws(b) || b == 47 || b == 62
}

/// A byte that ends an attribute name: whitespace, `=`, `/` or `>`.
pub open spec fn is_attr_name_end(b: u8) -> bool {
    is_ws(b) || b == 61 || b == 47 || b == 62
}

/// First position `j >= i` holding `<`, or the length.
pub open spec fn scan_to_lt(s: Seq<u8>, i: int) -> int
    decreases s.len() - i,
    when 0 <= i <= s.len()
{
    if i >= s.len() {
        s.len() as int
    } else if s[i] == 60 {
        i
    } else {
        scan_to_lt(s, i + 1)
    }
}

/// First position `j >= i` holding a non-whitespace byte, or the length.
pub open spec fn scan_non_ws(s: Seq<u8>, i: int) -> int
    decreases s.len() - i,
    when 0 <= i <= s.len()
{
    if i >= s.len() {
        s.len() as int
    } else if !is_ws(s[i]) {
        i
    } else {
        scan_non_ws(s, i + 1)
    }
}

/// First position `j >= i` holding a name-ending byte, or the length.
pub open spec fn scan_name_end(s: Seq<u8>, i: int) -> int
    decreases s.len() - i,
    when 0 <= i <= s.len()
{
    if i >= s.len() {
        s.len() as int
    } else if is_name_end(s[i]) {
        i
    } else {
        scan_name_end(s, i + 1)
    }
}

/// First position `j >= i` holding an attribute-name-ending byte, or the
/// length.
pub open spec fn scan_attr_name_end(s: Seq<u8>, i: int) -> int
    decreases s.len() - i,
    when 0 <= i <= s.len()
{
    if i >= s.len() {
        s.len() as int
    } else if is_attr_name_end(s[i]) {
        i
    } else {
        scan_attr_name_end(s, i + 1)
    }
}

/// First position `j >= i` holding byte `b`, if any.
pub open spec fn find_byte(s: Seq<u8>, i: int, b: u8) -> Option<int>
    decreases s.len() - i,
    when 0 <= i <= s.len()
{
    if i >= s.len() {
        None
    } else if s[i] == b {
        Some(i)
    } else {
        find_byte(s, i + 1, b)
    }
}

/// First position `j >= i` where bytes `b1 b2` occur in order, if any.
pub open spec fn find2(s: Seq<u8>, i: int, b1: u8, b2: u8) -> Option<int>
    decreases s.len() - i,
    when 0 <= i <= s.len()
{
    if i + 2 > s.len() {
        None
    } else if s[i] == b1 && s[i + 1] == b2 {
        Some(i)
    } else {
        find2(s, i + 1, b1, b2)
    }
}

/// First position `j >= i` where bytes `b1 b2 b3` occur in order, if any.
pub open spec fn find3(s: Seq<u8>, i: int, b1: u8, b2: u8, b3: u8) -> Option<int>
    decreases s.len() - i,
    when 0 <= i <= s.len()
{
    if i + 3 > s.len() {
        None
    } else if s[i] == b1 && s[i + 1] == b2 && s[i + 2] == b3 {
        Some(i)
    } else {
        find3(s, i + 1, b1, b2, b3)
    }
}

pub proof fn lemma_scan_to_lt(s: Seq<u8>, i: int)
    requires
        0 <= i <= s.len(),
    ensures
        i <= scan_to_lt(s, i) <= s.len(),
        forall|j: int| i <= j < scan_to_lt(s, i) ==> s[j] != 60,
        scan_to_lt(s, i) < s.len() ==> s[scan_to_lt(s, i)] == 60,
    decreases s.len() - i,
{
    if i < s.len() && s[i] != 60 {
        lemma_scan_to_lt(s, i + 1);
    }
}

pub proof fn lemma_scan_non_ws(s: Seq<u8>, i: int)
    requires
        0 <= i <= s.len(),
    ensures
        i <= scan_non_ws(s, i) <= s.len(),
        forall|j: int| i <= j < scan_non_ws(s, i) ==> is_ws(s[j]),
        scan_non_ws(s, i) < s.len() ==> !is_ws(s[scan_non_ws(s, i)]),
    decreases s.len() - i,
{
    if i < s.len() && is_ws(s[i]) {
        lemma_scan_non_ws(s, i + 1);
    }
}

pub proof fn lemma_scan_name_end(s: Seq<u8>, i: int)
    requires
        0 <= i <= s.len(),
    ensures
        i <= scan_name_end(s, i) <= s.len(),
        forall|j: int| i <= j < scan_name_end(s, i) ==> !is_name_end(s[j]),
        scan_name_end(s, i) < s.len() ==> is_name_end(s[scan_name_end(s, i)]),
    decreases s.len() - i,
{
    if i < s.len() && !is_name_end(s[i]) {
        lemma_scan_name_end(s, i + 1);
    }
}

pub proof fn lemma_scan_attr_name_end(s: Seq<u8>, i: int)
    requires
        0 <= i <= s.len(),
    ensures
        i <= scan_attr_name_end(s, i) <= s.len(),
        forall|j: int| i <= j < scan_attr_name_end(s, i) ==> !is_attr_name_end(s[j]),
        scan_attr_name_end(s, i) < s.len() ==> is_attr_name_end(s[scan_attr_name_end(s, i)]),
    decreases s.len() - i,
{
    if i < s.len() && !is_attr_name_end(s[i]) {
        lemma_scan_attr_name_end(s, i + 1);
    }
}

pub proof fn lemma_find_byte(s: Seq<u8>, i: int, b: u8)
    requires
        0 <= i <= s.len(),
    ensures
        match find_byte(s, i, b) {
            Some(j) => i <= j < s.len() && s[j] == b && forall|t: int| i <= t < j ==> s[t] != b,
            None => forall|t: int| i <= t < s.len() ==> s[t] != b,
        },
    decreases s.len() - i,
{
    if i < s.len() && s[i] != b {
        lemma_find_byte(s, i + 1, b);
    }
}

pub proof fn lemma_find2(s: Seq<u8>, i: int, b1: u8, b2: u8)
    requires
        0 <= i <= s.len(),
    ensures
        match find2(s, i, b1, b2) {
            Some(j) => i <= j && j + 2 <= s.len() && s[j] == b1 && s[j + 1] == b2,
            None => true,
        },
    decreases s.len() - i,
{
    if i + 2 <= s.len() && !(s[i] == b1 && s[i + 1] == b2) {
        lemma_find2(s, i + 1, b1, b2);
    }
}

pub proof fn lemma_find3(s: Seq<u8>, i: int, b1: u8, b2: u8, b3: u8)
    requires
        0 <= i <= s.len(),
    ensures
        match find3(s, i, b1, b2, b3) {
            Some(j) => i <= j && j + 3 <= s.len() && s[j] == b1 && s[j + 1] == b2 && s[j + 2] == b3,
            None => true,
        },
    decreases s.len() - i,
{
    if i + 3 <= s.len() && !(s[i] == b1 && s[i + 1] == b2 && s[i + 2] == b3) {
        lemma_find3(s, i + 1, b1, b2, b3);
    }
}

/// The attribute list of a tag, from position `i` (just after the tag name)
/// up to and including the closing `>` or `/>`.  Yields the attributes, a
/// flag saying whether the tag was self-closed, and the position just after
/// the closing `>`.
pub open spec fn lex_attrs(s: Seq<u8>, i: int) -> Option<(Seq<SpecAttr>, bool, int)>
    decreases s.len() - i,
    when 0 <= i <= s.len()
    via lex_attrs_decreases
{
    let j = scan_non_ws(s, i);
    if j >= s.len() {
        None
    } else if s[j] == 62 {
        Some((Seq::empty(), false, j + 1))
    } else if s[j] == 47 {
        if j + 1 < s.len() && s[j + 1] == 62 {
            Some((Seq::empty(), true, j + 2))
        } else {
            None
        }
    } else {
        let ne = scan_attr_name_end(s, j);
        if ne == j {
            None
        } else {
            let eq = scan_non_ws(s, ne);
            if eq >= s.len() || s[eq] != 61 {
                None
            } else {
                let vq = scan_non_ws(s, eq + 1);
                if vq >= s.len() || (s[vq] != 34 && s[vq] != 39) {
                    None
                } else {
                    match find_byte(s, vq + 1, s[vq]) {
                        None => None,
                        Some(ve) => match lex_attrs(s, ve + 1) {
                            None => None,
                            Some((rest, emp, end)) => Some(
                                (
                                    seq![
                                        SpecAttr {
                                            name: s.subrange(j, ne),
                                            value: s.subrange(vq + 1, ve),
                                        },
                                    ] + rest,
                                    emp,
                                    end,
                                ),
                            ),
                        },
                    }
                }
            }
        }
    }
}

#[via_fn]
proof fn lex_attrs_decreases(s: Seq<u8>, i: int) {
    lemma_scan_non_ws(s, i);
    let j = scan_non_ws(s, i);
    if j < s.len() && s[j] != 62 && s[j] != 47 {
        lemma_scan_attr_name_end(s, j);
        let ne = scan_attr_name_end(s, j);
        if ne != j {
            lemma_scan_non_ws(s, ne);
            let eq = scan_non_ws(s, ne);
            if eq < s.len() && s[eq] == 61 {
                lemma_scan_non_ws(s, eq + 1);
                let vq = scan_non_ws(s, eq + 1);
                if vq < s.len() && (s[vq] == 34 || s[vq] == 39) {
                    lemma_find_byte(s, vq + 1, s[vq]);
                }
            }
        }
    }
}

/// Bounds of a successful attribute scan: it always advances.
pub proof fn lemma_lex_attrs_bounds(s: Seq<u8>, i: int)
    requires
        0 <= i <= s.len(),
    ensures
        match lex_attrs(s, i) {
            Some(r) => i < r.2 <= s.len(),
            None => true,
        },
    decreases s.len() - i,
{
    lemma_scan_non_ws(s, i);
    let j = scan_non_ws(s, i);
    if j < s.len() && s[j] != 62 && s[j] != 47 {
        lemma_scan_attr_name_end(s, j);
        let ne = scan_attr_name_end(s, j);
        if ne != j {
            lemma_scan_non_ws(s, ne);
            let eq = scan_non_ws(s, ne);
            if eq < s.len() && s[eq] == 61 {
                lemma_scan_non_ws(s, eq + 1);
                let vq = scan_non_ws(s, eq + 1);
                if vq < s.len() && (s[vq] == 34 || s[vq] == 39) {
                    lemma_find_byte(s, vq + 1, s[vq]);
                    match find_byte(s, vq + 1, s[vq]) {
                        Some(ve) => {
                            lemma_lex_attrs_bounds(s, ve + 1);
                        },
                        None => {},
                    }
                }
            }
        }
    }
}

/// One lexed event at position `i`: the event and the position just after
/// it, or nothing when the stream is malformed at `i`.
pub open spec fn lex(s: Seq<u8>, i: int) -> Option<(SpecTok, int)>
    recommends
        0 <= i < s.len(),
{
    if s[i] != 60 {
        Some((SpecTok::Text, scan_to_lt(s, i + 1)))
    } else if i + 3 < s.len() && s[i + 1] == 33 && s[i + 2] == 45 && s[i + 3] == 45 {
        match find3(s, i + 4, 45, 45, 62) {
            Some(j) => Some((SpecTok::Comment, j + 3)),
            None => None,
        }
    } else if i + 8 < s.len() && s[i + 1] == 33 && s[i + 2] == 91 && s[i + 3] == 67 && s[i + 4]
        == 68 && s[i + 5] == 65 && s[i + 6] == 84 && s[i + 7] == 65 && s[i + 8] == 91 {
        match find3(s, i + 9, 93, 93, 62) {
            Some(j) => Some((SpecTok::CData, j + 3)),
            None => None,
        }
    } else if i + 1 < s.len() && s[i + 1] == 33 {
        match find_byte(s, i + 2, 62) {
            Some(j) => Some((SpecTok::DocType, j + 1)),
            None => None,
        }
    } else if i + 1 < s.len() && s[i + 1] == 63 {
        match find2(s, i + 2, 63, 62) {
            Some(j) => Some((SpecTok::Pi, j + 2)),
            None => None,
        }
    } else if i + 1 < s.len() && s[i + 1] == 47 {
        let ne = scan_name_end(s, i + 2);
        if ne == i + 2 {
            None
        } else {
            let g = scan_non_ws(s, ne);
            if g < s.len() && s[g] == 62 {
                Some((SpecTok::End { name: s.subrange(i + 2, ne) }, g + 1))
            } else {
                None
            }
        }
    } else if i + 1 < s.len() {
        let ne = scan_name_end(s, i + 1);
        if ne == i + 1 {
            None
        } else {
            match lex_attrs(s, ne) {
                None => None,
                Some((attrs, emp, end)) => if emp {
                    Some((SpecTok::Empty { name: s.subrange(i + 1, ne), attrs }, end))
                } else {
                    Some((SpecTok::Start { name: s.subrange(i + 1, ne), attrs }, end))
                },
            }
        }
    } else {
        None
    }
}

/// A successful lex always advances and stays inside the input.
pub proof fn lemma_lex_bounds(s: Seq<u8>, i: int)
    requires
        0 <= i < s.len(),
    ensures
        match lex(s, i) {
            Some(r) => i < r.1 <= s.len(),
            None => true,
        },
{
    if s[i] != 60 {
        lemma_scan_to_lt(s, i + 1);
    } else if i + 3 < s.len() && s[i + 1] == 33 && s[i + 2] == 45 && s[i + 3] == 45 {
        lemma_find3(s, i + 4, 45, 45, 62);
    } else if i + 8 < s.len() && s[i + 1] == 33 && s[i + 2] == 91 && s[i + 3] == 67 && s[i + 4]
        == 68 && s[i + 5] == 65 && s[i + 6] == 84 && s[i + 7] == 65 && s[i + 8] == 91 {
        lemma_find3(s, i + 9, 93, 93, 62);
    } else if i + 1 < s.len() && s[i + 1] == 33 {
        lemma_find_byte(s, i + 2, 62);
    } else if i + 1 < s.len() && s[i + 1] == 63 {
        lemma_find2(s, i + 2, 63, 62);
    } else if i + 1 < s.len() && s[i + 1] == 47 {
        lemma_scan_name_end(s, i + 2);
        let ne = scan_name_end(s, i + 2);
        if ne != i + 2 {
            lemma_scan_non_ws(s, ne);
        }
    } else if i + 1 < s.len() {
        lemma_scan_name_end(s, i + 1);
        let ne = scan_name_end(s, i + 1);
        if ne != i + 1 {
            lemma_lex_attrs_bounds(s, ne);
        }
    }
}

/// One attribute as lexed at run time.
pub struct XmlAttr {
    pub name: Vec<u8>,
    pub value: Vec<u8>,
}

impl View for XmlAttr {
    type V = SpecAttr;

    open spec fn view(&self) -> SpecAttr {
        SpecAttr { name: self.name@, value: self.value@ }
    }
}

/// The view of an attribute list.
pub open spec fn attrs_view(v: Seq<XmlAttr>) -> Seq<SpecAttr> {
    v.map_values(|a: XmlAttr| a@)
}

/// One event as lexed at run time.
pub enum Token {
    Text,
    Comment,
    CData,
    Pi,
    DocType,
    Start { name: Vec<u8>, attrs: Vec<XmlAttr> },
    Empty { name: Vec<u8>, attrs: Vec<XmlAttr> },
    End { name: Vec<u8> },
}

impl View for Token {
    type V = SpecTok;

    open spec fn view(&self) -> SpecTok {
        match self {
            Token::Text => SpecTok::Text,
            Token::Comment => SpecTok::Comment,
            Token::CData => SpecTok::CData,
            Token::Pi => SpecTok::Pi,
            Token::DocType => SpecTok::DocType,
            Token::Start { name, attrs } => SpecTok::Start {
                name: name@,
                attrs: attrs_view(attrs@),
            },
            Token::Empty { name, attrs } => SpecTok::Empty {
                name: name@,
                attrs: attrs_view(attrs@),
            },
            Token::End { name } => SpecTok::End { name: name@ },
        }
    }
}

fn scan_to_lt_x(s: &[u8], i: usize) -> (r: usize)
    requires
        i <= s@.len(),
    ensures
        r as int == scan_to_lt(s@, i as int),
        i <= r <= s@.len(),
{
    let n = s.len();
    let mut j = i;
    while j < n
        invariant
            i <= j <= n,
            n == s@.len(),
            scan_to_lt(s@, i as int) == scan_to_lt(s@, j as int),
        decreases n - j,
    {
        if s[j] == 60 {
            assert(scan_to_lt(s@, j as int) == j);
            return j;
        }
        assert(scan_to_lt(s@, j as int) == scan_to_lt(s@, j + 1));
        j += 1;
    }
    assert(scan_to_lt(s@, j as int) == j);
    j
}

fn scan_non_ws_x(s: &[u8], i: usize) -> (r: usize)
    requires
        i <= s@.len(),
    ensures
        r as int == scan_non_ws(s@, i as int),
        i <= r <= s@.len(),
{
    let n = s.len();
    let mut j = i;
    while j < n
        invariant
            i <= j <= n,
            n == s@.len(),
            scan_non_ws(s@, i as int) == scan_non_ws(s@, j as int),
        decreases n - j,
    {
        let b = s[j];
        if !(b == 32 || b == 9 || b == 13 || b == 10) {
            assert(scan_non_ws(s@, j as int) == j);
            return j;
        }
        assert(scan_non_ws(s@, j as int) == scan_non_ws(s@, j + 1));
        j += 1;
    }
    assert(scan_non_ws(s@, j as int) == j);
    j
}

fn scan_name_end_x(s: &[u8], i: usize) -> (r: usize)
    requires
        i <= s@.len(),
    ensures
        r as int == scan_name_end(s@, i as int),
        i <= r <= s@.len(),
{
    let n = s.len();
    let mut j = i;
    while j < n
        invariant
            i <= j <= n,
            n == s@.len(),
            scan_name_end(s@, i as int) == scan_name_end(s@, j as int),
        decreases n - j,
    {
        let b = s[j];
        if b == 32 || b == 9 || b == 13 || b == 10 || b == 47 || b == 62 {
            assert(scan_name_end(s@, j as int) == j);
            return j;
        }
        assert(scan_name_end(s@, j as int) == scan_name_end(s@, j + 1));
        j += 1;
    }
    assert(scan_name_end(s@, j as int) == j);
    j
}

fn scan_attr_name_end_x(s: &[u8], i: usize) -> (r: usize)
    requires
        i <= s@.len(),
    ensures
        r as int == scan_attr_name_end(s@, i as int),
        i <= r <= s@.len(),
{
    let n = s.len();
    let mut j = i;
    while j < n
        invariant
            i <= j <= n,
            n == s@.len(),
            scan_attr_name_end(s@, i as int) == scan_attr_name_end(s@, j as int),
        decreases n - j,
    {
        let b = s[j];
        if b == 32 || b == 9 || b == 13 || b == 10 || b == 61 || b == 47 || b == 62 {
            assert(scan_attr_name_end(s@, j as int) == j);
            return j;
        }
        assert(scan_attr_name_end(s@, j as int) == scan_attr_name_end(s@, j + 1));
        j += 1;
    }
    assert(scan_attr_name_end(s@, j as int) == j);
    j
}

fn find_byte_x(s: &[u8], i: usize, b: u8) -> (r: Option<usize>)
    requires
        i <= s@.len(),
    ensures
        match find_byte(s@, i as int, b) {
            Some(g) => r matches Some(e) && e as int == g && i <= e < s@.len(),
            None => r is None,
        },
{
    let n = s.len();
    let mut j = i;
    while j < n
        invariant
            i <= j <= n,
            n == s@.len(),
            find_byte(s@, i as int, b) == find_byte(s@, j as int, b),
        decreases n - j,
    {
        if s[j] == b {
            assert(find_byte(s@, j as int, b) == Some(j as int));
            return Some(j);
        }
        assert(find_byte(s@, j as int, b) == find_byte(s@, j + 1, b));
        j += 1;
    }
    assert(find_byte(s@, j as int, b) is None);
    None
}

fn find2_x(s: &[u8], i: usize, b1: u8, b2: u8) -> (r: Option<usize>)
    requires
        i <= s@.len(),
    ensures
        match find2(s@, i as int, b1, b2) {
            Some(g) => r matches Some(e) && e as int == g && i <= e && e + 2 <= s@.len(),
            None => r is None,
        },
{
    let n = s.len();
    let mut j = i;
    while n - j >= 2
        invariant
            i <= j <= n,
            n == s@.len(),
            find2(s@, i as int, b1, b2) == find2(s@, j as int, b1, b2),
        decreases n - j,
    {
        if s[j] == b1 && s[j + 1] == b2 {
            assert(find2(s@, j as int, b1, b2) == Some(j as int));
            return Some(j);
        }
        assert(find2(s@, j as int, b1, b2) == find2(s@, j + 1, b1, b2));
        j += 1;
    }
    assert(find2(s@, j as int, b1, b2) is None);
    None
}

fn find3_x(s: &[u8], i: usize, b1: u8, b2: u8, b3: u8) -> (r: Option<usize>)
    requires
        i <= s@.len(),
    ensures
        match find3(s@, i as int, b1, b2, b3) {
            Some(g) => r matches Some(e) && e as int == g && i <= e && e + 3 <= s@.len(),
            None => r is None,
        },
{
    let n = s.len();
    let mut j = i;
    while n - j >= 3
        invariant
            i <= j <= n,
            n == s@.len(),
            find3(s@, i as int, b1, b2, b3) == find3(s@, j as int, b1, b2, b3),
        decreases n - j,
    {
        if s[j] == b1 && s[j + 1] == b2 && s[j + 2] == b3 {
            assert(find3(s@, j as int, b1, b2, b3) == Some(j as int));
            return Some(j);
        }
        assert(find3(s@, j as int, b1, b2, b3) == find3(s@, j + 1, b1, b2, b3));
        j += 1;
    }
    assert(find3(s@, j as int, b1, b2, b3) is None);
    None
}

fn lex_attrs_x(s: &[u8], i: usize) -> (r: Option<(Vec<XmlAttr>, bool, usize)>)
    requires
        i <= s@.len(),
    ensures
        match lex_attrs(s@, i as int) {
            None => r is None,
            Some(g) => r matches Some(e) && attrs_view(e.0@) == g.0 && e.1 == g.1 && e.2 as int
                == g.2 && e.2 <= s@.len(),
        },
{
    let n = s.len();
    let mut acc: Vec<XmlAttr> = Vec::new();
    let mut cur = i;
    proof {
        assert(attrs_view(acc@) =~= Seq::<SpecAttr>::empty());
    }
    loop
        invariant
            i <= cur <= n,
            n == s@.len(),
            match lex_attrs(s@, cur as int) {
                None => lex_attrs(s@, i as int) is None,
                Some(g) => lex_attrs(s@, i as int) == Some(
                    (attrs_view(acc@) + g.0, g.1, g.2),
                ),
            },
        decreases n - cur,
    {
        let j = scan_non_ws_x(s, cur);
        if j >= n {
            assert(lex_attrs(s@, cur as int) is None);
            return None;
        }
        let b = s[j];
        if b == 62 {
            proof {
                assert(lex_attrs(s@, cur as int) == Some(
                    (Seq::<SpecAttr>::empty(), false, j + 1 as int),
                ));
                assert(attrs_view(acc@) + Seq::<SpecAttr>::empty() =~= attrs_view(acc@));
            }
            return Some((acc, false, j + 1));
        }
        if b == 47 {
            if j + 1 < n && s[j + 1] == 62 {
                proof {
                    assert(lex_attrs(s@, cur as int) == Some(
                        (Seq::<SpecAttr>::empty(), true, j + 2 as int),
                    ));
                    assert(attrs_view(acc@) + Seq::<SpecAttr>::empty() =~= attrs_view(acc@));
                }
                return Some((acc, true, j + 2));
            } else {
                assert(lex_attrs(s@, cur as int) is None);
                return None;
            }
        }
        let ne = scan_attr_name_end_x(s, j);
        if ne == j {
            assert(lex_attrs(s@, cur as int) is None);
            return None;
        }
        let eq = scan_non_ws_x(s, ne);
        if eq >= n {
            assert(lex_attrs(s@, cur as int) is None);
            return None;
        }
        if s[eq] != 61 {
            assert(lex_attrs(s@, cur as int) is None);
            return None;
        }
        let vq = scan_non_ws_x(s, eq + 1);
        if vq >= n {
            assert(lex_attrs(s@, cur as int) is None);
            return None;
        }
        let q = s[vq];
        if q != 34 && q != 39 {
            assert(lex_attrs(s@, cur as int) is None);
            return None;
        }
        match find_byte_x(s, vq + 1, q) {
            None => {
                assert(lex_attrs(s@, cur as int) is None);
                return None;
            },
            Some(ve) => {
                let ghost acc_old = acc@;
                let name = sub_vec(s, j, ne);
                let value = sub_vec(s, vq + 1, ve);
                let ghost a = SpecAttr { name: s@.subrange(j as int, ne as int), value: s@.subrange(vq + 1, ve as int) };
                acc.push(XmlAttr { name, value });
                proof {
                    assert(attrs_view(acc@) =~= attrs_view(acc_old) + seq![a]);
                    match lex_attrs(s@, ve + 1) {
                        None => {
                            assert(lex_attrs(s@, cur as int) is None);
                        },
                        Some(g) => {
                            assert(lex_attrs(s@, cur as int) == Some(
                                (seq![a] + g.0, g.1, g.2),
                            ));
                            assert(attrs_view(acc_old) + (seq![a] + g.0) =~= attrs_view(acc@)
                                + g.0);
                            lemma_lex_attrs_bounds(s@, ve + 1);
                        },
                    }
                }
                cur = ve + 1;
            },
        }
    }
}

/// Lexes the single event at byte position `i`, returning it with the
/// position just after its span, or nothing when the stream is malformed
/// there.
pub fn lex_at(s: &[u8], i: usize) -> (r: Option<(Token, usize)>)
    requires
        i < s@.len(),
    ensures
        match lex(s@, i as int) {
            None => r is None,
            Some(g) => r matches Some(e) && e.0@ == g.0 && e.1 as int == g.1 && i < e.1 <= s@.len(),
        },
{
    proof {
        lemma_lex_bounds(s@, i as int);
    }
    let n = s.len();
    if s[i] != 60 {
        let e = scan_to_lt_x(s, i + 1);
        return Some((Token::Text, e));
    }
    if n - i > 3 && s[i + 1] == 33 && s[i + 2] == 45 && s[i + 3] == 45 {
        return match find3_x(s, i + 4, 45, 45, 62) {
            Some(j) => Some((Token::Comment, j + 3)),
            None => None,
        };
    }
    if n - i > 8 && s[i + 1] == 33 && s[i + 2] == 91 && s[i + 3] == 67 && s[i + 4] == 68 && s[i + 5]
        == 65 && s[i + 6] == 84 && s[i + 7] == 65 && s[i + 8] == 91 {
        return match find3_x(s, i + 9, 93, 93, 62) {
            Some(j) => Some((Token::CData, j + 3)),
            None => None,
        };
    }
    if n - i > 1 && s[i + 1] == 33 {
        return match find_byte_x(s, i + 2, 62) {
            Some(j) => Some((Token::DocType, j + 1)),
            None => None,
        };
    }
    if n - i > 1 && s[i + 1] == 63 {
        return match find2_x(s, i + 2, 63, 62) {
            Some(j) => Some((Token::Pi, j + 2)),
            None => None,
        };
    }
    if n - i > 1 && s[i + 1] == 47 {
        let ne = scan_name_end_x(s, i + 2);
        if ne == i + 2 {
            return None;
        }
        let g = scan_non_ws_x(s, ne);
        if g < n && s[g] == 62 {
            let name = sub_vec(s, i + 2, ne);
            return Some((Token::End { name }, g + 1));
        }
        return None;
    }
    if n - i > 1 {
        let ne = scan_name_end_x(s, i + 1);
        if ne == i + 1 {
            return None;
        }
        return match lex_attrs_x(s, ne) {
            None => None,
            Some((attrs, emp, end)) => {
                let name = sub_vec(s, i + 1, ne);
                if emp {
                    Some((Token::Empty { name, attrs }, end))
                } else {
                    Some((Token::Start { name, attrs }, end))
                }
            },
        };
    }
    None
}

} // verus!
