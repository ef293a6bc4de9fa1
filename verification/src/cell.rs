//! Cell reference codec: conversion between "A1"-style addresses and
//! zero-based (row, column) index pairs, in both directions.
//!
//! Letters encode the column through a positional base-26 numbering with no
//! digit for zero (A=1 ... Z=26, AA=27 ...); the row is written 1-based in
//! text and held 0-based internally.

use vstd::prelude::*;

use crate::xml::push_char;

verus! {

/// A zero-based cell position inside one worksheet.
#[derive(Clone, Copy, Debug, PartialEq, Eq, Structural)]
pub struct CellAddress {
    pub row: u32,
    pub column: u32,
}

/// The numeric value of one column letter: A/a=1 ... Z/z=26, 0 otherwise.
pub open spec fn letter_val(c: char) -> nat {
    if 65 <= c as u32 <= 90 {
        (c as u32 - 64) as nat
    } else if 97 <= c as u32 <= 122 {
        (c as u32 - 96) as nat
    } else {
        0
    }
}

pub open spec fn is_cell_alpha(c: char) -> bool {
    letter_val(c) >= 1
}

pub open spec fn is_cell_digit(c: char) -> bool {
    48 <= c as u32 <= 57
}

pub open spec fn digit_val(c: char) -> nat {
    (c as u32 - 48) as nat
}

/// Value of a letter run read as bijective base-26.
pub open spec fn col_val(s: Seq<char>) -> nat
    decreases s.len(),
{
    if s.len() == 0 {
        0
    } else {
        col_val(s.drop_last()) * 26 + letter_val(s.last())
    }
}

/// Value of a digit run read as decimal.
pub open spec fn row_val(s: Seq<char>) -> nat
    decreases s.len(),
{
    if s.len() == 0 {
        0
    } else {
        row_val(s.drop_last()) * 10 + digit_val(s.last())
    }
}

/// Length of the maximal leading run of column letters.
pub open spec fn alpha_prefix_len(s: Seq<char>) -> nat
    decreases s.len(),
{
    if s.len() > 0 && is_cell_alpha(s[0]) {
        (1 + alpha_prefix_len(s.drop_first())) as nat
    } else {
        0
    }
}

/// The strict address grammar: one or more letters, then one or more digits,
/// nothing else, and a row that does not read as zero.
pub open spec fn cell_text_ok(s: Seq<char>) -> bool {
    let k = alpha_prefix_len(s) as int;
    &&& 1 <= k
    &&& k < s.len()
    &&& forall|i: int| k <= i < s.len() ==> is_cell_digit(s[i])
    &&& row_val(s.skip(k)) >= 1
}

/// What decoding an address text yields: the zero-based (row, column) pair,
/// or nothing when the grammar fails or a value does not fit in `u32`.
pub open spec fn decode_spec(s: Seq<char>) -> Option<(u32, u32)> {
    let k = alpha_prefix_len(s) as int;
    if cell_text_ok(s) && col_val(s.take(k)) <= u32::MAX as nat + 1 && row_val(s.skip(k))
        <= u32::MAX as nat + 1 {
        Some((((row_val(s.skip(k)) - 1) as u32), ((col_val(s.take(k)) - 1) as u32)))
    } else {
        None
    }
}

/// The letter standing for value `n` (1 ... 26 gives A ... Z).
pub open spec fn letter_of(n: nat) -> char {
    ((64 + n) as u8) as char
}

/// The letter run of a 1-based column number, in bijective base-26.
pub open spec fn col_letters(n: nat) -> Seq<char>
    decreases n,
{
    if n == 0 {
        Seq::empty()
    } else if n <= 26 {
        seq![letter_of(n)]
    } else {
        col_letters(((n - 1) / 26) as nat) + seq![letter_of(((n - 1) % 26 + 1) as nat)]
    }
}

/// The digit standing for value `n` (0 ... 9).
pub open spec fn digit_of(n: nat) -> char {
    ((48 + n) as u8) as char
}

/// The decimal digit run of `n`.
pub open spec fn dec_digits(n: nat) -> Seq<char>
    decreases n,
{
    if n < 10 {
        seq![digit_of(n)]
    } else {
        dec_digits(n / 10) + seq![digit_of(n % 10)]
    }
}

/// The canonical upper-case text of an address.
pub open spec fn encode_spec(a: CellAddress) -> Seq<char> {
    col_letters(a.column as nat + 1) + dec_digits(a.row as nat + 1)
}

fn letter_char(v: u8) -> (c: char)
    requires
        1 <= v <= 26,
    ensures
        c == letter_of(v as nat),
{
    (64 + v) as char
}

fn digit_char(v: u8) -> (c: char)
    requires
        v <= 9,
    ensures
        c == digit_of(v as nat),
{
    (48 + v) as char
}

fn col_label_rec(n: u64) -> (r: String)
    requires
        1 <= n,
    ensures
        r@ == col_letters(n as nat),
    decreases n,
{
    if n <= 26 {
        let mut s = String::new();
        push_char(&mut s, letter_char(n as u8));
        assert(s@ =~= col_letters(n as nat));
        s
    } else {
        proof {
            vstd::arithmetic::div_mod::lemma_div_decreases((n - 1) as int, 26);
            vstd::arithmetic::div_mod::lemma_div_pos_is_pos((n - 1) as int, 26);
            vstd::arithmetic::div_mod::lemma_remainder_upper((n - 1) as int, 26);
            vstd::arithmetic::div_mod::lemma_remainder_lower((n - 1) as int, 26);
        }
        let mut s = col_label_rec((n - 1) / 26);
        push_char(&mut s, letter_char(((n - 1) % 26 + 1) as u8));
        assert(s@ =~= col_letters(n as nat));
        s
    }
}

/// The letter label of a zero-based column index: 0 gives "A", 25 gives "Z",
/// 26 gives "AA".
pub fn column_label_from_index(index: u32) -> (r: String)
    ensures
        r@ == col_letters(index as nat + 1),
{
    col_label_rec(index as u64 + 1)
}

fn dec_string_rec(n: u64) -> (r: String)
    ensures
        r@ == dec_digits(n as nat),
    decreases n,
{
    if n < 10 {
        let mut s = String::new();
        push_char(&mut s, digit_char(n as u8));
        assert(s@ =~= dec_digits(n as nat));
        s
    } else {
        proof {
            vstd::arithmetic::div_mod::lemma_div_decreases(n as int, 10);
            vstd::arithmetic::div_mod::lemma_remainder_upper(n as int, 10);
            vstd::arithmetic::div_mod::lemma_remainder_lower(n as int, 10);
        }
        let mut s = dec_string_rec(n / 10);
        push_char(&mut s, digit_char((n % 10) as u8));
        assert(s@ =~= dec_digits(n as nat));
        s
    }
}

/// The decimal text of a number.
pub fn dec_string(n: u64) -> (r: String)
    ensures
        r@ == dec_digits(n as nat),
{
    dec_string_rec(n)
}

/// The canonical upper-case text of an address, total on all addresses.
pub fn encode(a: CellAddress) -> (r: String)
    ensures
        r@ == encode_spec(a),
{
    let mut s = col_label_rec(a.column as u64 + 1);
    let t = dec_string_rec(a.row as u64 + 1);
    s.append(t.as_str());
    s
}

/// Decodes "A1"-style text into a zero-based (row, column) pair.  Fails on
/// anything but letters followed by digits, on a row that reads as zero, and
/// on values that do not fit.  Case-insensitive on input.
pub fn parse_cell_reference(cell: &str) -> (r: Option<(u32, u32)>)
    ensures
        r == decode_spec(cell@),
{
    let n = cell.unicode_len();
    let ghost s = cell@;
    // Letter phase: scan the maximal alpha prefix, accumulating its value.
    let mut i: usize = 0;
    let mut col: u64 = 0;
    let mut col_over: bool = false;
    loop
        invariant
            i <= n,
            n == s.len(),
            s == cell@,
            forall|j: int| 0 <= j < i ==> is_cell_alpha(s[j]),
            !col_over ==> col == col_val(s.take(i as int)) && col <= 0x1_0000_0000u64,
            col_over ==> col_val(s.take(i as int)) > 0x1_0000_0000u64,
        ensures
            i <= n,
            n == s.len(),
            i == n || !is_cell_alpha(s[i as int]),
            forall|j: int| 0 <= j < i ==> is_cell_alpha(s[j]),
            !col_over ==> col == col_val(s.take(i as int)) && col <= 0x1_0000_0000u64,
            col_over ==> col_val(s.take(i as int)) > 0x1_0000_0000u64,
        decreases n - i,
    {
        if i == n {
            break ;
        }
        let c = cell.get_char(i);
        let cv = c as u32;
        let lv: u64 = if 65 <= cv && cv <= 90 {
            (cv - 64) as u64
        } else if 97 <= cv && cv <= 122 {
            (cv - 96) as u64
        } else {
            0
        };
        if lv == 0 {
            break ;
        }
        assert(lv == letter_val(s[i as int]) && is_cell_alpha(s[i as int]));
        proof {
            assert(s.take(i + 1).drop_last() =~= s.take(i as int));
            assert(s.take(i + 1).last() == s[i as int]);
        }
        if !col_over {
            let nv = col * 26 + lv;
            if nv > 0x1_0000_0000u64 {
                col_over = true;
                col = 0;
            } else {
                col = nv;
            }
        } else {
            proof {
                assert(col_val(s.take(i + 1)) == col_val(s.take(i as int)) * 26 + letter_val(
                    s[i as int],
                ));
                assert(col_val(s.take(i as int)) * 26 >= col_val(s.take(i as int))) by {
                    assert(col_val(s.take(i as int)) * 26 - col_val(s.take(i as int)) == 25
                        * col_val(s.take(i as int)));
                }
            }
        }
        i += 1;
    }
    let k = i;
    proof {
        lemma_alpha_prefix_len_char(s, k as nat);
    }
    if k == 0 || k == n {
        return None;
    }
    // Digit phase: the rest must be digits.
    let ghost d = s.skip(k as int);
    let mut row: u64 = 0;
    let mut row_over: bool = false;
    while i < n
        invariant
            k <= i <= n,
            n == s.len(),
            s == cell@,
            d == s.skip(k as int),
            1 <= k < n,
            alpha_prefix_len(s) == k,
            forall|j: int| k <= j < i ==> is_cell_digit(s[j]),
            !row_over ==> row == row_val(d.take(i - k as int)) && row <= 0x1_0000_0000u64,
            row_over ==> row_val(d.take(i - k as int)) > 0x1_0000_0000u64,
        decreases n - i,
    {
        let c = cell.get_char(i);
        let cv = c as u32;
        if !(48 <= cv && cv <= 57) {
            assert(!is_cell_digit(s[i as int]));
            assert(!cell_text_ok(s));
            return None;
        }
        let dv: u64 = (cv - 48) as u64;
        assert(dv == digit_val(s[i as int]) && is_cell_digit(s[i as int]));
        proof {
            assert(d[i - k as int] == s[i as int]);
            assert(d.take(i + 1 - k as int).drop_last() =~= d.take(i - k as int));
            assert(d.take(i + 1 - k as int).last() == d[i - k as int]);
        }
        if !row_over {
            let nv = row * 10 + dv;
            if nv > 0x1_0000_0000u64 {
                row_over = true;
                row = 0;
            } else {
                row = nv;
            }
        } else {
            proof {
                assert(row_val(d.take(i + 1 - k as int)) == row_val(d.take(i - k as int)) * 10
                    + digit_val(d[i - k as int]));
                assert(row_val(d.take(i - k as int)) * 10 >= row_val(d.take(i - k as int))) by {
                    assert(row_val(d.take(i - k as int)) * 10 - row_val(d.take(i - k as int)) == 9
                        * row_val(d.take(i - k as int)));
                }
            }
        }
        i += 1;
    }
    proof {
        assert(d.take(n - k as int) =~= d);
        assert(s.take(k as int).len() == k);
    }
    if col_over || row_over {
        return None;
    }
    if row == 0 {
        return None;
    }
    Some((((row - 1) as u32), ((col - 1) as u32)))
}

/// A run whose first `k` characters are letters, and whose `k`-th is not,
/// has alpha prefix length exactly `k`.
pub proof fn lemma_alpha_prefix_len_char(s: Seq<char>, k: nat)
    requires
        k <= s.len(),
        forall|j: int| 0 <= j < k ==> is_cell_alpha(s[j]),
        k < s.len() ==> !is_cell_alpha(s[k as int]),
    ensures
        alpha_prefix_len(s) == k,
    decreases k,
{
    if k == 0 {
    } else {
        lemma_alpha_prefix_len_char(s.drop_first(), (k - 1) as nat);
    }
}

pub proof fn lemma_col_letters_wf(n: nat)
    requires
        1 <= n,
    ensures
        col_letters(n).len() >= 1,
        forall|j: int| 0 <= j < col_letters(n).len() ==> is_cell_alpha(#[trigger] col_letters(n)[j]),
        col_val(col_letters(n)) == n,
    decreases n,
{
    if n <= 26 {
        assert(col_letters(n) =~= seq![letter_of(n)]);
        assert(letter_of(n) as u32 == 64 + n);
        assert(col_letters(n).drop_last() =~= Seq::<char>::empty());
        assert(col_val(col_letters(n)) == col_val(Seq::<char>::empty()) * 26 + letter_val(
            letter_of(n),
        ));
    } else {
        let q = ((n - 1) / 26) as nat;
        let m = ((n - 1) % 26 + 1) as nat;
        vstd::arithmetic::div_mod::lemma_div_pos_is_pos((n - 1) as int, 26);
        vstd::arithmetic::div_mod::lemma_remainder_upper((n - 1) as int, 26);
        vstd::arithmetic::div_mod::lemma_remainder_lower((n - 1) as int, 26);
        vstd::arithmetic::div_mod::lemma_fundamental_div_mod((n - 1) as int, 26);
        lemma_col_letters_wf(q);
        let w = col_letters(n);
        assert(w == col_letters(q) + seq![letter_of(m)]);
        assert(w.drop_last() =~= col_letters(q));
        assert(w.last() == letter_of(m));
        assert(letter_of(m) as u32 == 64 + m);
        assert(letter_val(letter_of(m)) == m);
        assert(col_val(w) == q * 26 + m);
    }
}

pub proof fn lemma_dec_digits_wf(n: nat)
    ensures
        dec_digits(n).len() >= 1,
        forall|j: int| 0 <= j < dec_digits(n).len() ==> is_cell_digit(#[trigger] dec_digits(n)[j]),
        row_val(dec_digits(n)) == n,
    decreases n,
{
    if n < 10 {
        assert(dec_digits(n) =~= seq![digit_of(n)]);
        assert(digit_of(n) as u32 == 48 + n);
        assert(dec_digits(n).drop_last() =~= Seq::<char>::empty());
        assert(row_val(dec_digits(n)) == row_val(Seq::<char>::empty()) * 10 + digit_val(
            digit_of(n),
        ));
    } else {
        let q = n / 10;
        let m = n % 10;
        vstd::arithmetic::div_mod::lemma_div_pos_is_pos(n as int, 10);
        vstd::arithmetic::div_mod::lemma_remainder_upper(n as int, 10);
        vstd::arithmetic::div_mod::lemma_remainder_lower(n as int, 10);
        vstd::arithmetic::div_mod::lemma_fundamental_div_mod(n as int, 10);
        lemma_dec_digits_wf(q);
        let w = dec_digits(n);
        assert(w == dec_digits(q) + seq![digit_of(m)]);
        assert(w.drop_last() =~= dec_digits(q));
        assert(w.last() == digit_of(m));
        assert(digit_of(m) as u32 == 48 + m);
        assert(row_val(w) == q * 10 + m);
    }
}

/// Encoding and decoding are mutual inverses: for every representable
/// address `a`, decoding the canonical text of `a` yields exactly `a`'s
/// zero-based (row, column) pair.
pub proof fn lemma_decode_encode(a: CellAddress)
    ensures
        decode_spec(encode_spec(a)) == Some((a.row, a.column)),
{
    let letters = col_letters(a.column as nat + 1);
    let digits = dec_digits(a.row as nat + 1);
    let s = encode_spec(a);
    lemma_col_letters_wf(a.column as nat + 1);
    lemma_dec_digits_wf(a.row as nat + 1);
    let k = letters.len();
    assert(forall|j: int| 0 <= j < k ==> s[j] == letters[j]);
    assert(s[k as int] == digits[0]);
    assert(!is_cell_alpha(digits[0]));
    lemma_alpha_prefix_len_char(s, k);
    assert(s.take(k as int) =~= letters);
    assert(s.skip(k as int) =~= digits);
    assert(cell_text_ok(s));
    assert(decode_spec(s) == Some((a.row, a.column)));
}

/// The address form of `decode`: the same grammar, boxed into a
/// `CellAddress`.
pub fn decode(cell: &str) -> (r: Option<CellAddress>)
    ensures
        r == match decode_spec(cell@) {
            Some(p) => Some(CellAddress { row: p.0, column: p.1 }),
            None => None::<CellAddress>,
        },
{
    match parse_cell_reference(cell) {
        Some(p) => Some(CellAddress { row: p.0, column: p.1 }),
        None => None,
    }
}

/// `parse_cell_reference` with the pair widened to `usize`.
pub fn parse_cell_address(address: &str) -> (r: Option<(usize, usize)>)
    ensures
        r == match decode_spec(address@) {
            Some(p) => Some((p.0 as usize, p.1 as usize)),
            None => None::<(usize, usize)>,
        },
{
    match parse_cell_reference(address) {
        Some(p) => Some((p.0 as usize, p.1 as usize)),
        None => None,
    }
}

/// `parse_cell_reference` with the pair widened to `usize`.
pub fn cell_to_indices(cell: &str) -> (r: Option<(usize, usize)>)
    ensures
        r == match decode_spec(cell@) {
            Some(p) => Some((p.0 as usize, p.1 as usize)),
            None => None::<(usize, usize)>,
        },
{
    parse_cell_address(cell)
}

} // verus!
