//! The grammar of an ingredient line, stated as spec functions over the
//! line's bytes, and its recognizers. A recognizer at position `i` gives the
//! value it read and the position after it, or `None`.

use vstd::prelude::*;
use crate::text::{is_digit, is_space, longest_literal, lookup, longest_literal_at, lookup_range};
use crate::dictionary_en::{Unit, unit_table, number_table, preposition_table, unit_entries, number_entries, preposition_entries};
use crate::vulgar_fractions::{glyph_fraction, fraction_of_code};
use crate::ingredient_en::{Amount, Constant, Decimal, Layout, Span, ValueWithSpan};

verus! {

/// A recognizer's exec result, with positions as integers.
pub open spec fn lift<T>(r: Option<(T, usize)>) -> Option<(T, int)> {
    match r {
        Some((v, e)) => Some((v, e as int)),
        None => None,
    }
}

pub open spec fn digit_value(c: u8) -> nat {
    (c - 48) as nat
}

/// `acc` followed by the decimal digits of `s`, read as one number.
pub open spec fn digits_value(acc: nat, s: Seq<u8>) -> nat
    decreases s.len(),
{
    if s.len() == 0 {
        acc
    } else {
        digits_value(acc, s.drop_last()) * 10 + digit_value(s.last())
    }
}

/// The end of the run of ASCII digits that starts at `i`.
pub open spec fn digits_end(b: Seq<u8>, i: int) -> int
    decreases b.len() - i,
{
    if 0 <= i < b.len() && is_digit(b[i]) {
        digits_end(b, i + 1)
    } else {
        i
    }
}

/// The end of the run of white space that starts at `i`.
pub open spec fn skip_spaces(b: Seq<u8>, i: int) -> int
    decreases b.len() - i,
{
    if 0 <= i < b.len() && is_space(b[i]) {
        skip_spaces(b, i + 1)
    } else {
        i
    }
}

/// A run of digits whose value fits in `u32`.
pub open spec fn integer_at(b: Seq<u8>, i: int) -> Option<(u32, int)> {
    let e = digits_end(b, i);
    let v = digits_value(0, b.subrange(i, e));
    if i < e && v <= u32::MAX {
        Some((v as u32, e))
    } else {
        None
    }
}

/// Digits (maybe none), a `.` or `,`, and at least one digit.
pub open spec fn decimal_at(b: Seq<u8>, i: int) -> Option<(Decimal, int)> {
    let j = digits_end(b, i);
    if 0 <= j < b.len() && (b[j] == 46 || b[j] == 44) {
        let k = digits_end(b, j + 1);
        let m = digits_value(digits_value(0, b.subrange(i, j)), b.subrange(j + 1, k));
        if j + 1 < k && m <= u64::MAX && k - j - 1 <= u32::MAX {
            Some((Decimal { mantissa: m as u64, scale: (k - j - 1) as u32 }, k))
        } else {
            None
        }
    } else {
        None
    }
}

proof fn lemma_digits_prefix(acc: nat, s: Seq<u8>, m: int)
    requires
        0 <= m <= s.len(),
    ensures
        digits_value(acc, s.subrange(0, m)) <= digits_value(acc, s),
    decreases s.len(),
{
    if m < s.len() {
        assert(s.drop_last().subrange(0, m) =~= s.subrange(0, m));
        lemma_digits_prefix(acc, s.drop_last(), m);
    } else {
        assert(s.subrange(0, m) =~= s);
    }
}

proof fn lemma_digits_acc(acc: nat, s: Seq<u8>)
    ensures
        acc <= digits_value(acc, s),
{
    lemma_digits_prefix(acc, s, 0);
    assert(s.subrange(0, 0) =~= Seq::<u8>::empty());
}

pub proof fn lemma_digits_end(b: Seq<u8>, i: int)
    requires
        0 <= i <= b.len(),
    ensures
        i <= digits_end(b, i) <= b.len(),
        forall|k: int| i <= k < digits_end(b, i) ==> is_digit(#[trigger] b[k]),
        digits_end(b, i) < b.len() ==> !is_digit(b[digits_end(b, i)]),
    decreases b.len() - i,
{
    if i < b.len() && is_digit(b[i]) {
        lemma_digits_end(b, i + 1);
    }
}

pub fn scan_digits(b: &[u8], i: usize) -> (r: usize)
    requires
        i <= b@.len(),
    ensures
        r == digits_end(b@, i as int),
        i <= r <= b@.len(),
{
    let mut j = i;
    while j < b.len() && 48 <= b[j] && b[j] <= 57
        invariant
            i <= j <= b@.len(),
            digits_end(b@, j as int) == digits_end(b@, i as int),
        decreases b@.len() - j,
    {
        j = j + 1;
    }
    j
}

pub fn scan_spaces(b: &[u8], i: usize) -> (r: usize)
    requires
        i <= b@.len(),
    ensures
        r == skip_spaces(b@, i as int),
        i <= r <= b@.len(),
{
    let mut j = i;
    while j < b.len() && (b[j] == 32 || b[j] == 9 || b[j] == 10 || b[j] == 13)
        invariant
            i <= j <= b@.len(),
            skip_spaces(b@, j as int) == skip_spaces(b@, i as int),
        decreases b@.len() - j,
    {
        j = j + 1;
    }
    j
}

/// `acc` followed by the digits `b[from..to]`, when the number fits in `u64`.
pub fn accumulate(b: &[u8], from: usize, to: usize, acc: u64) -> (r: Option<u64>)
    requires
        from <= to <= b@.len(),
        forall|k: int| from <= k < to ==> is_digit(#[trigger] b@[k]),
    ensures
        r == (if digits_value(acc as nat, b@.subrange(from as int, to as int)) <= u64::MAX {
            Some(digits_value(acc as nat, b@.subrange(from as int, to as int)) as u64)
        } else {
            None::<u64>
        }),
{
    let ghost s = b@.subrange(from as int, to as int);
    let mut v: u64 = acc;
    let mut k: usize = from;
    assert(b@.subrange(from as int, from as int) =~= Seq::<u8>::empty());
    while k < to
        invariant
            from <= k <= to <= b@.len(),
            forall|j: int| from <= j < to ==> is_digit(#[trigger] b@[j]),
            s == b@.subrange(from as int, to as int),
            v == digits_value(acc as nat, b@.subrange(from as int, k as int)),
        decreases to - k,
    {
        let ghost p = b@.subrange(from as int, k + 1);
        assert(p.drop_last() =~= b@.subrange(from as int, k as int));
        assert(s.subrange(0, k + 1 - from) =~= p);
        let d = (b[k] - 48) as u64;
        assert(digits_value(acc as nat, p) == v * 10 + d);
        match v.checked_mul(10) {
            Some(m) => match m.checked_add(d) {
                Some(n) => {
                    v = n;
                },
                None => {
                    proof { lemma_digits_prefix(acc as nat, s, k + 1 - from); }
                    return None;
                },
            },
            None => {
                proof { lemma_digits_prefix(acc as nat, s, k + 1 - from); }
                return None;
            },
        }
        k = k + 1;
    }
    Some(v)
}

pub fn integer_at_exec(b: &[u8], i: usize) -> (r: Option<(u32, usize)>)
    requires
        i <= b@.len(),
    ensures
        lift(r) == integer_at(b@, i as int),
        r matches Some((_, e)) ==> i < e <= b@.len(),
{
    let e = scan_digits(b, i);
    proof { lemma_digits_end(b@, i as int); }
    if e == i {
        return None;
    }
    match accumulate(b, i, e, 0) {
        Some(v) => if v <= 4294967295 {
            Some((v as u32, e))
        } else {
            None
        },
        None => None,
    }
}

pub fn decimal_at_exec(b: &[u8], i: usize) -> (r: Option<(Decimal, usize)>)
    requires
        i <= b@.len(),
    ensures
        lift(r) == decimal_at(b@, i as int),
        r matches Some((_, e)) ==> i < e <= b@.len(),
{
    let j = scan_digits(b, i);
    if j >= b.len() || !(b[j] == 46 || b[j] == 44) {
        return None;
    }
    let k = scan_digits(b, j + 1);
    proof {
        lemma_digits_end(b@, i as int);
        lemma_digits_end(b@, j + 1);
    }
    if k == j + 1 || k - j - 1 > 4294967295 {
        return None;
    }
    let ghost whole = digits_value(0, b@.subrange(i as int, j as int));
    match accumulate(b, i, j, 0) {
        Some(w) => match accumulate(b, j + 1, k, w) {
            Some(m) => Some((Decimal { mantissa: m, scale: (k - j - 1) as u32 }, k)),
            None => None,
        },
        None => {
            proof { lemma_digits_acc(whole, b@.subrange(j + 1, k as int)); }
            None
        },
    }
}

/// The code point of a fraction glyph's UTF-8 encoding at `i`, and its end:
/// `C2 BC`..`C2 BE` for U+00BC..U+00BE, `E2 85 90`..`E2 85 9E` for
/// U+2150..U+215E.
pub open spec fn glyph_code_at(b: Seq<u8>, i: int) -> Option<(u32, int)> {
    if 0 <= i && i + 1 < b.len() && b[i] == 0xC2 && 0xBC <= b[i + 1] <= 0xBE {
        Some((b[i + 1] as u32, i + 2))
    } else if 0 <= i && i + 2 < b.len() && b[i] == 0xE2 && b[i + 1] == 0x85 && 0x90 <= b[i + 2]
        <= 0x9E {
        Some(((b[i + 2] as u32 + 0x20C0) as u32, i + 3))
    } else {
        None
    }
}

/// A fraction glyph.
pub open spec fn vulgar_at(b: Seq<u8>, i: int) -> Option<((u32, u32), int)> {
    match glyph_code_at(b, i) {
        Some((c, e)) => match glyph_fraction(c) {
            Some(f) => Some((f, e)),
            None => None,
        },
        None => None,
    }
}

/// `n / d`, white space allowed around the slash, `d` not zero.
pub open spec fn simple_fraction_at(b: Seq<u8>, i: int) -> Option<((u32, u32), int)> {
    match integer_at(b, i) {
        Some((n, j)) => {
            let k = skip_spaces(b, j);
            if 0 <= k < b.len() && b[k] == 47 {
                match integer_at(b, skip_spaces(b, k + 1)) {
                    Some((d, e)) => if d > 0 {
                        Some(((n, d), e))
                    } else {
                        None
                    },
                    None => None,
                }
            } else {
                None
            }
        },
        None => None,
    }
}

/// A simple fraction or a glyph.
pub open spec fn proper_fraction_at(b: Seq<u8>, i: int) -> Option<((u32, u32), int)> {
    match simple_fraction_at(b, i) {
        Some(f) => Some(f),
        None => vulgar_at(b, i),
    }
}

/// A whole number, white space if any, and a fraction: `w n/d` is
/// `(w * d + n) / d`, when that numerator fits in `u32`.
pub open spec fn mixed_fraction_at(b: Seq<u8>, i: int) -> Option<((u32, u32), int)> {
    match integer_at(b, i) {
        Some((w, j)) => match proper_fraction_at(b, skip_spaces(b, j)) {
            Some(((n, d), e)) => if w * d + n <= u32::MAX {
                Some((((w * d + n) as u32, d), e))
            } else {
                None
            },
            None => None,
        },
        None => None,
    }
}

/// A mixed number, or else a fraction alone.
pub open spec fn fraction_at(b: Seq<u8>, i: int) -> Option<((u32, u32), int)> {
    match mixed_fraction_at(b, i) {
        Some(f) => Some(f),
        None => proper_fraction_at(b, i),
    }
}

/// The longest unit form at `i` that ends a word, and its unit.
pub open spec fn unit_at(b: Seq<u8>, i: int) -> Option<(Unit, int)> {
    let n = longest_literal(unit_table(), b, i);
    if n > 0 {
        match lookup(unit_table(), b.subrange(i, i + n)) {
            Some(u) => Some((u, i + n)),
            None => None,
        }
    } else {
        None
    }
}

/// The longest number word at `i` that ends a word, and its value.
pub open spec fn word_digit_at(b: Seq<u8>, i: int) -> Option<(u32, int)> {
    let n = longest_literal(number_table(), b, i);
    if n > 0 {
        match lookup(number_table(), b.subrange(i, i + n)) {
            Some(v) => Some((v, i + n)),
            None => None,
        }
    } else {
        None
    }
}

/// The end of the longest preposition at `i` that ends a word.
pub open spec fn preposition_at(b: Seq<u8>, i: int) -> Option<int> {
    let n = longest_literal(preposition_table(), b, i);
    if n > 0 {
        Some(i + n)
    } else {
        None
    }
}

/// A decimal number, a fraction, a whole number or a number word, tried in
/// that order.
pub open spec fn constant_at(b: Seq<u8>, i: int) -> Option<(Constant, int)> {
    match decimal_at(b, i) {
        Some((x, e)) => Some((Constant::Float(x), e)),
        None => match fraction_at(b, i) {
            Some(((n, d), e)) => Some((Constant::Fraction(n, d), e)),
            None => match integer_at(b, i) {
                Some((n, e)) => Some((Constant::Fraction(n, 1), e)),
                None => match word_digit_at(b, i) {
                    Some((n, e)) => Some((Constant::Fraction(n, 1), e)),
                    None => None,
                },
            },
        },
    }
}

/// Two constants joined by `-`, white space allowed around it.
pub open spec fn range_at(b: Seq<u8>, i: int) -> Option<(Amount, int)> {
    match constant_at(b, i) {
        Some((lo, j)) => {
            let k = skip_spaces(b, j);
            if 0 <= k < b.len() && b[k] == 45 {
                match constant_at(b, skip_spaces(b, k + 1)) {
                    Some((hi, e)) => Some((Amount::Range { value_from: lo, value_to: hi }, e)),
                    None => None,
                }
            } else {
                None
            }
        },
        None => None,
    }
}

/// A range, or else a single constant.
pub open spec fn amount_at(b: Seq<u8>, i: int) -> Option<(Amount, int)> {
    match range_at(b, i) {
        Some(a) => Some(a),
        None => match constant_at(b, i) {
            Some((c, e)) => Some((Amount::Constant { value: c }, e)),
            None => None,
        },
    }
}

pub fn glyph_code_at_exec(b: &[u8], i: usize) -> (r: Option<(u32, usize)>)
    requires
        i <= b@.len(),
    ensures
        lift(r) == glyph_code_at(b@, i as int),
{
    if b.len() - i > 1 && b[i] == 0xC2 && 0xBC <= b[i + 1] && b[i + 1] <= 0xBE {
        Some((b[i + 1] as u32, i + 2))
    } else if b.len() - i > 2 && b[i] == 0xE2 && b[i + 1] == 0x85 && 0x90 <= b[i + 2] && b[i + 2]
        <= 0x9E {
        Some((b[i + 2] as u32 + 0x20C0, i + 3))
    } else {
        None
    }
}

pub fn vulgar_at_exec(b: &[u8], i: usize) -> (r: Option<((u32, u32), usize)>)
    requires
        i <= b@.len(),
    ensures
        lift(r) == vulgar_at(b@, i as int),
        r matches Some((_, e)) ==> i < e <= b@.len(),
{
    match glyph_code_at_exec(b, i) {
        Some((c, e)) => match fraction_of_code(c) {
            Some(f) => Some((f, e)),
            None => None,
        },
        None => None,
    }
}

pub fn simple_fraction_at_exec(b: &[u8], i: usize) -> (r: Option<((u32, u32), usize)>)
    requires
        i <= b@.len(),
    ensures
        lift(r) == simple_fraction_at(b@, i as int),
        r matches Some((_, e)) ==> i < e <= b@.len(),
{
    match integer_at_exec(b, i) {
        Some((n, j)) => {
            let k = scan_spaces(b, j);
            if k < b.len() && b[k] == 47 {
                let m = scan_spaces(b, k + 1);
                match integer_at_exec(b, m) {
                    Some((d, e)) => if d > 0 {
                        Some(((n, d), e))
                    } else {
                        None
                    },
                    None => None,
                }
            } else {
                None
            }
        },
        None => None,
    }
}

pub fn proper_fraction_at_exec(b: &[u8], i: usize) -> (r: Option<((u32, u32), usize)>)
    requires
        i <= b@.len(),
    ensures
        lift(r) == proper_fraction_at(b@, i as int),
        r matches Some((_, e)) ==> i < e <= b@.len(),
{
    match simple_fraction_at_exec(b, i) {
        Some(f) => Some(f),
        None => vulgar_at_exec(b, i),
    }
}

pub fn mixed_fraction_at_exec(b: &[u8], i: usize) -> (r: Option<((u32, u32), usize)>)
    requires
        i <= b@.len(),
    ensures
        lift(r) == mixed_fraction_at(b@, i as int),
        r matches Some((_, e)) ==> i < e <= b@.len(),
{
    match integer_at_exec(b, i) {
        Some((w, j)) => match proper_fraction_at_exec(b, scan_spaces(b, j)) {
            Some(((n, d), e)) => {
                proof {
                    assert((w as int) * (d as int) <= 4294967295 * 4294967295) by (nonlinear_arith)
                        requires
                            w <= 4294967295,
                            d <= 4294967295,
                    ;
                }
                let total = (w as u64) * (d as u64) + (n as u64);
                if total <= 4294967295 {
                    Some(((total as u32, d), e))
                } else {
                    None
                }
            },
            None => None,
        },
        None => None,
    }
}

pub fn fraction_at_exec(b: &[u8], i: usize) -> (r: Option<((u32, u32), usize)>)
    requires
        i <= b@.len(),
    ensures
        lift(r) == fraction_at(b@, i as int),
        r matches Some((_, e)) ==> i < e <= b@.len(),
{
    match mixed_fraction_at_exec(b, i) {
        Some(f) => Some(f),
        None => proper_fraction_at_exec(b, i),
    }
}

pub fn unit_at_exec(b: &[u8], i: usize) -> (r: Option<(Unit, usize)>)
    requires
        i <= b@.len(),
    ensures
        lift(r) == unit_at(b@, i as int),
        r matches Some((_, e)) ==> i < e <= b@.len(),
{
    let t = unit_entries();
    let n = longest_literal_at(&t, b, i);
    if n > 0 && n <= b.len() - i {
        match lookup_range(&t, b, i, i + n) {
            Some(u) => Some((u, i + n)),
            None => None,
        }
    } else {
        None
    }
}

pub fn word_digit_at_exec(b: &[u8], i: usize) -> (r: Option<(u32, usize)>)
    requires
        i <= b@.len(),
    ensures
        lift(r) == word_digit_at(b@, i as int),
        r matches Some((_, e)) ==> i < e <= b@.len(),
{
    let t = number_entries();
    let n = longest_literal_at(&t, b, i);
    if n > 0 && n <= b.len() - i {
        match lookup_range(&t, b, i, i + n) {
            Some(v) => Some((v, i + n)),
            None => None,
        }
    } else {
        None
    }
}

pub fn preposition_at_exec(b: &[u8], i: usize) -> (r: Option<usize>)
    requires
        i <= b@.len(),
    ensures
        r matches Some(e) ==> preposition_at(b@, i as int) == Some(e as int) && i < e <= b@.len(),
        r is None ==> preposition_at(b@, i as int) is None,
{
    let n = longest_literal_at(&preposition_entries(), b, i);
    if n > 0 && n <= b.len() - i {
        Some(i + n)
    } else {
        None
    }
}

pub fn constant_at_exec(b: &[u8], i: usize) -> (r: Option<(Constant, usize)>)
    requires
        i <= b@.len(),
    ensures
        lift(r) == constant_at(b@, i as int),
        r matches Some((_, e)) ==> i < e <= b@.len(),
{
    match decimal_at_exec(b, i) {
        Some((x, e)) => Some((Constant::Float(x), e)),
        None => match fraction_at_exec(b, i) {
            Some(((n, d), e)) => Some((Constant::Fraction(n, d), e)),
            None => match integer_at_exec(b, i) {
                Some((n, e)) => Some((Constant::Fraction(n, 1), e)),
                None => match word_digit_at_exec(b, i) {
                    Some((n, e)) => Some((Constant::Fraction(n, 1), e)),
                    None => None,
                },
            },
        },
    }
}

pub fn range_at_exec(b: &[u8], i: usize) -> (r: Option<(Amount, usize)>)
    requires
        i <= b@.len(),
    ensures
        lift(r) == range_at(b@, i as int),
        r matches Some((_, e)) ==> i < e <= b@.len(),
{
    match constant_at_exec(b, i) {
        Some((lo, j)) => {
            let k = scan_spaces(b, j);
            if k < b.len() && b[k] == 45 {
                match constant_at_exec(b, scan_spaces(b, k + 1)) {
                    Some((hi, e)) => Some((Amount::Range { value_from: lo, value_to: hi }, e)),
                    None => None,
                }
            } else {
                None
            }
        },
        None => None,
    }
}

pub fn amount_at_exec(b: &[u8], i: usize) -> (r: Option<(Amount, usize)>)
    requires
        i <= b@.len(),
    ensures
        lift(r) == amount_at(b@, i as int),
        r matches Some((_, e)) ==> i < e <= b@.len(),
{
    match range_at_exec(b, i) {
        Some(a) => Some(a),
        None => match constant_at_exec(b, i) {
            Some((c, e)) => Some((Amount::Constant { value: c }, e)),
            None => None,
        },
    }
}

/// A value with the span `[from, to)`.
pub open spec fn spanned<T>(value: T, from: int, to: int) -> ValueWithSpan<T> {
    ValueWithSpan { value, span: Span { from: from as usize, to: to as usize } }
}

/// `e` with the white space that ends `b[..e]` taken off.
pub open spec fn trim_end(b: Seq<u8>, e: int) -> int
    decreases e,
{
    if 0 < e <= b.len() && is_space(b[e - 1]) {
        trim_end(b, e - 1)
    } else {
        e
    }
}

/// What a line ends with after the white space at `p`: an amount with an
/// optional unit, or a unit alone, then only white space.
pub open spec fn tail_at(b: Seq<u8>, p: int) -> Option<
    (Option<ValueWithSpan<Amount>>, Option<ValueWithSpan<Unit>>),
> {
    if 0 <= p < b.len() && is_space(b[p]) {
        let q = skip_spaces(b, p);
        match amount_at(b, q) {
            Some((a, e)) => {
                let r = skip_spaces(b, e);
                match unit_at(b, r) {
                    Some((u, f)) => if skip_spaces(b, f) == b.len() {
                        Some((Some(spanned(a, q, e)), Some(spanned(u, r, f))))
                    } else {
                        None
                    },
                    None => if r == b.len() {
                        Some((Some(spanned(a, q, e)), None))
                    } else {
                        None
                    },
                }
            },
            None => match unit_at(b, q) {
                Some((u, f)) => if skip_spaces(b, f) == b.len() {
                    Some((None, Some(spanned(u, q, f))))
                } else {
                    None
                },
                None => None,
            },
        }
    } else {
        None
    }
}

/// The first position from `p` on where a trailing amount or unit starts.
pub open spec fn first_tail(b: Seq<u8>, p: int) -> Option<int>
    decreases b.len() - p,
{
    if p < 0 || p >= b.len() {
        None
    } else if tail_at(b, p) is Some {
        Some(p)
    } else {
        first_tail(b, p + 1)
    }
}

/// The reading of a whole line. Leading white space is skipped. Where the line
/// starts with an amount, a unit or a preposition, these are read in that
/// order, each optional, and the rest (trailing white space aside) is the
/// ingredient. Otherwise, where the line ends with an amount or unit after
/// white space, the text before the first such ending is the ingredient;
/// else the whole line is.
pub open spec fn layout(b: Seq<u8>) -> Layout {
    let s0 = skip_spaces(b, 0);
    let a = amount_at(b, s0);
    let p1 = match a {
        Some((_, e)) => skip_spaces(b, e),
        None => s0,
    };
    let u = unit_at(b, p1);
    let p2 = match u {
        Some((_, e)) => skip_spaces(b, e),
        None => p1,
    };
    let pr = preposition_at(b, p2);
    let p3 = match pr {
        Some(e) => skip_spaces(b, e),
        None => p2,
    };
    let t = trim_end(b, b.len() as int);
    if a is Some || u is Some || pr is Some {
        Layout {
            amount: match a {
                Some((v, e)) => Some(spanned(v, s0, e)),
                None => None,
            },
            unit: match u {
                Some((v, e)) => Some(spanned(v, p1, e)),
                None => None,
            },
            ingredient: if p3 < t {
                Some(Span { from: p3 as usize, to: t as usize })
            } else {
                None
            },
        }
    } else {
        match first_tail(b, s0 + 1) {
            Some(p) => match tail_at(b, p) {
                Some((am, un)) => Layout {
                    amount: am,
                    unit: un,
                    ingredient: Some(Span { from: s0 as usize, to: p as usize }),
                },
                None => Layout { amount: None, unit: None, ingredient: None },
            },
            None => Layout {
                amount: None,
                unit: None,
                ingredient: if s0 < t {
                    Some(Span { from: s0 as usize, to: t as usize })
                } else {
                    None
                },
            },
        }
    }
}

pub fn trim_end_exec(b: &[u8]) -> (r: usize)
    ensures
        r == trim_end(b@, b@.len() as int),
        r <= b@.len(),
{
    let mut e = b.len();
    while e > 0 && (b[e - 1] == 32 || b[e - 1] == 9 || b[e - 1] == 10 || b[e - 1] == 13)
        invariant
            e <= b@.len(),
            trim_end(b@, e as int) == trim_end(b@, b@.len() as int),
        decreases e,
    {
        e = e - 1;
    }
    e
}

pub fn tail_at_exec(b: &[u8], p: usize) -> (r: Option<
    (Option<ValueWithSpan<Amount>>, Option<ValueWithSpan<Unit>>),
>)
    requires
        p <= b@.len(),
    ensures
        r == tail_at(b@, p as int),
{
    if !(p < b.len() && (b[p] == 32 || b[p] == 9 || b[p] == 10 || b[p] == 13)) {
        return None;
    }
    let q = scan_spaces(b, p);
    match amount_at_exec(b, q) {
        Some((a, e)) => {
            let r = scan_spaces(b, e);
            match unit_at_exec(b, r) {
                Some((u, f)) => if scan_spaces(b, f) == b.len() {
                    Some(
                        (
                            Some(ValueWithSpan { value: a, span: Span { from: q, to: e } }),
                            Some(ValueWithSpan { value: u, span: Span { from: r, to: f } }),
                        ),
                    )
                } else {
                    None
                },
                None => if r == b.len() {
                    Some((Some(ValueWithSpan { value: a, span: Span { from: q, to: e } }), None))
                } else {
                    None
                },
            }
        },
        None => match unit_at_exec(b, q) {
            Some((u, f)) => if scan_spaces(b, f) == b.len() {
                Some((None, Some(ValueWithSpan { value: u, span: Span { from: q, to: f } })))
            } else {
                None
            },
            None => None,
        },
    }
}

pub fn first_tail_exec(b: &[u8], from: usize) -> (r: Option<usize>)
    requires
        from <= b@.len(),
    ensures
        r matches Some(p) ==> first_tail(b@, from as int) == Some(p as int) && p < b@.len(),
        r is None ==> first_tail(b@, from as int) is None,
{
    let mut p = from;
    while p < b.len()
        invariant
            from <= p <= b@.len(),
            first_tail(b@, p as int) == first_tail(b@, from as int),
        decreases b@.len() - p,
    {
        if tail_at_exec(b, p).is_some() {
            return Some(p);
        }
        p = p + 1;
    }
    None
}

/// Reads the parts of a line, as `layout` states.
pub fn read_layout(b: &[u8]) -> (r: Layout)
    ensures
        r == layout(b@),
{
    let s0 = scan_spaces(b, 0);
    let a = amount_at_exec(b, s0);
    let p1 = match a {
        Some((_, e)) => scan_spaces(b, e),
        None => s0,
    };
    let u = unit_at_exec(b, p1);
    let p2 = match u {
        Some((_, e)) => scan_spaces(b, e),
        None => p1,
    };
    let pr = preposition_at_exec(b, p2);
    let p3 = match pr {
        Some(e) => scan_spaces(b, e),
        None => p2,
    };
    let t = trim_end_exec(b);
    if a.is_some() || u.is_some() || pr.is_some() {
        Layout {
            amount: match a {
                Some((v, e)) => Some(ValueWithSpan { value: v, span: Span { from: s0, to: e } }),
                None => None,
            },
            unit: match u {
                Some((v, e)) => Some(ValueWithSpan { value: v, span: Span { from: p1, to: e } }),
                None => None,
            },
            ingredient: if p3 < t {
                Some(Span { from: p3, to: t })
            } else {
                None
            },
        }
    } else {
        let start = if s0 < b.len() { s0 + 1 } else { s0 };
        let found = if s0 < b.len() { first_tail_exec(b, start) } else { None };
        match found {
            Some(p) => match tail_at_exec(b, p) {
                Some((am, un)) => Layout {
                    amount: am,
                    unit: un,
                    ingredient: Some(Span { from: s0, to: p }),
                },
                None => Layout { amount: None, unit: None, ingredient: None },
            },
            None => Layout {
                amount: None,
                unit: None,
                ingredient: if s0 < t {
                    Some(Span { from: s0, to: t })
                } else {
                    None
                },
            },
        }
    }
}

} // verus!
