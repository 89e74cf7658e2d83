//! Where spans may start and end: every position that the grammar yields lies
//! on a character boundary of the line.

use vstd::prelude::*;
use vstd::utf8::*;
use crate::text::{is_space, ends_word, longest_literal};
use crate::grammar::{
    skip_spaces, digits_end, integer_at, decimal_at, vulgar_at,
    simple_fraction_at, proper_fraction_at, mixed_fraction_at, fraction_at, word_digit_at,
    constant_at, range_at, amount_at, unit_at, preposition_at, trim_end, tail_at, first_tail,
    layout, lemma_digits_end,
};
use crate::ingredient_en::{Layout, Span};

verus! {

/// The width of the UTF-8 encoding that a leading byte starts.
pub open spec fn lead_width(c: u8) -> int {
    if c < 0x80 {
        1
    } else if c < 0xE0 {
        2
    } else if c < 0xF0 {
        3
    } else {
        4
    }
}

/// A character of valid UTF-8 that starts at `j` ends where the next one
/// starts.
pub proof fn lemma_scalar_end(bytes: Seq<u8>, j: int)
    requires
        valid_utf8(bytes),
        0 <= j < bytes.len(),
        !is_continuation_byte(bytes[j]),
    ensures
        j + lead_width(bytes[j]) <= bytes.len(),
        j + lead_width(bytes[j]) < bytes.len() ==> !is_continuation_byte(
            bytes[j + lead_width(bytes[j])],
        ),
    decreases bytes.len(),
{
    let n = length_of_first_scalar(bytes);
    let rest = pop_first_scalar(bytes);
    assert(valid_first_scalar(bytes) && valid_utf8(rest));
    if j == 0 {
        if n < bytes.len() {
            assert(rest.len() > 0);
            assert(valid_first_scalar(rest));
            assert(rest[0] == bytes[n]);
        }
    } else if j < n {
        assert(is_continuation_byte(bytes[j]));
    } else {
        assert(rest[j - n] == bytes[j]);
        lemma_scalar_end(rest, j - n);
        let w = lead_width(bytes[j]);
        if j + w < bytes.len() {
            assert(rest[j - n + w] == bytes[j + w]);
        }
    }
}

/// A position that is evidently a character boundary: an end of the text, next
/// to an ASCII byte, or just after a two- or three-byte character with the
/// leading byte of a fraction glyph.
pub open spec fn plain_position(b: Seq<u8>, k: int) -> bool {
    &&& 0 <= k <= b.len()
    &&& {
        ||| k == 0
        ||| k == b.len()
        ||| b[k] < 128
        ||| b[k - 1] < 128
        ||| (k >= 2 && b[k - 2] == 0xC2)
        ||| (k >= 3 && b[k - 3] == 0xE2)
    }
}

pub proof fn lemma_plain_position_boundary(b: Seq<u8>, k: int)
    requires
        valid_utf8(b),
        plain_position(b, k),
    ensures
        is_char_boundary(b, k),
{
    is_char_boundary_start_end_of_seq(b);
    if 0 < k < b.len() {
        if b[k] < 128 {
        } else if b[k - 1] < 128 {
            lemma_scalar_end(b, k - 1);
        } else if k >= 2 && b[k - 2] == 0xC2 {
            lemma_scalar_end(b, k - 2);
        } else {
            lemma_scalar_end(b, k - 3);
        }
        is_char_boundary_iff_not_is_continuation_byte(b, k);
    }
}

pub proof fn lemma_skip_spaces(b: Seq<u8>, i: int)
    requires
        0 <= i <= b.len(),
    ensures
        i <= skip_spaces(b, i) <= b.len(),
        forall|k: int| i <= k < skip_spaces(b, i) ==> is_space(#[trigger] b[k]),
        plain_position(b, i) ==> plain_position(b, skip_spaces(b, i)),
    decreases b.len() - i,
{
    if i < b.len() && is_space(b[i]) {
        lemma_skip_spaces(b, i + 1);
    }
}

pub proof fn lemma_trim_end(b: Seq<u8>, e: int)
    requires
        0 <= e <= b.len(),
    ensures
        0 <= trim_end(b, e) <= e,
        trim_end(b, e) < e ==> is_space(b[trim_end(b, e)]),
    decreases e,
{
    if 0 < e && is_space(b[e - 1]) {
        lemma_trim_end(b, e - 1);
    }
}

pub proof fn lemma_longest_literal<V>(t: Seq<(&str, V)>, b: Seq<u8>, i: int)
    requires
        0 <= i <= b.len(),
    ensures
        longest_literal(t, b, i) > 0 ==> i + longest_literal(t, b, i) <= b.len() && ends_word(
            b,
            i + longest_literal(t, b, i),
        ),
    decreases t.len(),
{
    if t.len() > 0 {
        lemma_longest_literal(t.drop_last(), b, i);
    }
}

/// Each recognizer that succeeds at `i` ends after `i` at a plain position.
pub open spec fn ends_plainly<T>(b: Seq<u8>, i: int, r: Option<(T, int)>) -> bool {
    r matches Some((_, e)) ==> i < e && plain_position(b, e)
}

pub proof fn lemma_token_ends(b: Seq<u8>, i: int)
    requires
        0 <= i <= b.len(),
    ensures
        ends_plainly(b, i, integer_at(b, i)),
        ends_plainly(b, i, decimal_at(b, i)),
        ends_plainly(b, i, vulgar_at(b, i)),
        ends_plainly(b, i, word_digit_at(b, i)),
        ends_plainly(b, i, unit_at(b, i)),
        preposition_at(b, i) matches Some(e) ==> i < e && plain_position(b, e),
{
    lemma_digits_end(b, i);
    let j = digits_end(b, i);
    if 0 <= j < b.len() {
        lemma_digits_end(b, j + 1);
    }
    lemma_longest_literal(crate::dictionary_en::number_table(), b, i);
    lemma_longest_literal(crate::dictionary_en::unit_table(), b, i);
    lemma_longest_literal(crate::dictionary_en::preposition_table(), b, i);
}

pub proof fn lemma_fraction_ends(b: Seq<u8>, i: int)
    requires
        0 <= i <= b.len(),
    ensures
        ends_plainly(b, i, simple_fraction_at(b, i)),
        ends_plainly(b, i, proper_fraction_at(b, i)),
        ends_plainly(b, i, mixed_fraction_at(b, i)),
        ends_plainly(b, i, fraction_at(b, i)),
{
    lemma_token_ends(b, i);
    if let Some((_, j)) = integer_at(b, i) {
        lemma_skip_spaces(b, j);
        let k = skip_spaces(b, j);
        lemma_token_ends(b, k);
        if 0 <= k < b.len() && b[k] == 47 {
            lemma_skip_spaces(b, k + 1);
            lemma_token_ends(b, skip_spaces(b, k + 1));
        }
        let m = skip_spaces(b, j);
        if let Some((_, j2)) = integer_at(b, m) {
            lemma_skip_spaces(b, j2);
            let k2 = skip_spaces(b, j2);
            if 0 <= k2 < b.len() && b[k2] == 47 {
                lemma_skip_spaces(b, k2 + 1);
                lemma_token_ends(b, skip_spaces(b, k2 + 1));
            }
        }
    }
}

pub proof fn lemma_constant_ends(b: Seq<u8>, i: int)
    requires
        0 <= i <= b.len(),
    ensures
        ends_plainly(b, i, constant_at(b, i)),
{
    lemma_token_ends(b, i);
    lemma_fraction_ends(b, i);
}

pub proof fn lemma_amount_ends(b: Seq<u8>, i: int)
    requires
        0 <= i <= b.len(),
    ensures
        ends_plainly(b, i, range_at(b, i)),
        ends_plainly(b, i, amount_at(b, i)),
{
    lemma_constant_ends(b, i);
    if let Some((_, j)) = constant_at(b, i) {
        lemma_skip_spaces(b, j);
        let k = skip_spaces(b, j);
        if 0 <= k < b.len() && b[k] == 45 {
            lemma_skip_spaces(b, k + 1);
            lemma_constant_ends(b, skip_spaces(b, k + 1));
        }
    }
}

pub proof fn lemma_first_tail(b: Seq<u8>, p: int)
    requires
        0 <= p,
    ensures
        first_tail(b, p) matches Some(q) ==> p <= q < b.len() && tail_at(b, q) is Some,
    decreases b.len() - p,
{
    if p < b.len() && tail_at(b, p) is None {
        lemma_first_tail(b, p + 1);
    }
}

/// The span lies in the text, with both ends at positions that `at` accepts.
pub open spec fn span_in(b: Seq<u8>, s: Span, at: spec_fn(int) -> bool) -> bool {
    s.from <= s.to <= b.len() && at(s.from as int) && at(s.to as int)
}

/// Two spans share no byte.
pub open spec fn apart(x: Span, y: Span) -> bool {
    x.to <= y.from || y.to <= x.from
}

/// Each span of `l` lies in the text with ends that `at` accepts; the amount
/// comes before the unit, and the ingredient shares no byte with either.
pub open spec fn placed(b: Seq<u8>, l: Layout, at: spec_fn(int) -> bool) -> bool {
    &&& (l.amount matches Some(a) ==> span_in(b, a.span, at))
    &&& (l.unit matches Some(u) ==> span_in(b, u.span, at))
    &&& (l.ingredient matches Some(g) ==> span_in(b, g, at))
    &&& (l.amount matches Some(a) ==> (l.unit matches Some(u) ==> a.span.to <= u.span.from))
    &&& (l.amount matches Some(a) ==> (l.ingredient matches Some(g) ==> apart(a.span, g)))
    &&& (l.unit matches Some(u) ==> (l.ingredient matches Some(g) ==> apart(u.span, g)))
}

proof fn lemma_tail_plain(b: Seq<u8>, p: int)
    requires
        0 <= p < b.len() <= usize::MAX,
    ensures
        tail_at(b, p) matches Some((am, un)) ==> {
            &&& (am matches Some(a) ==> p < a.span.from && span_in(b, a.span, |k: int| plain_position(b, k)))
            &&& (un matches Some(u) ==> p < u.span.from && span_in(b, u.span, |k: int| plain_position(b, k)))
            &&& (am matches Some(a) ==> (un matches Some(u) ==> a.span.to <= u.span.from))
        },
{
    if tail_at(b, p) is Some {
        lemma_skip_spaces(b, p);
        lemma_skip_spaces(b, p + 1);
        assert(skip_spaces(b, p) == skip_spaces(b, p + 1));
        let q = skip_spaces(b, p);
        lemma_amount_ends(b, q);
        lemma_token_ends(b, q);
        if let Some((_, e)) = amount_at(b, q) {
            lemma_skip_spaces(b, e);
            lemma_token_ends(b, skip_spaces(b, e));
        }
    }
}

proof fn lemma_forward_plain(b: Seq<u8>)
    requires
        b.len() <= usize::MAX,
    ensures
        ({
            let s0 = skip_spaces(b, 0);
            let a = amount_at(b, s0);
            let p1 = match a {
                Some((_, e)) => skip_spaces(b, e),
                None => s0,
            };
            let u = unit_at(b, p1);
            let p2 = match u {
                Some((_, e)) => skip_spaces(b, e),
                None => p1,
            };
            let pr = preposition_at(b, p2);
            let p3 = match pr {
                Some(e) => skip_spaces(b, e),
                None => p2,
            };
            &&& 0 <= s0 && plain_position(b, s0)
            &&& (a matches Some((_, e)) ==> s0 < e <= p1 && plain_position(b, e))
            &&& p1 <= p2 <= p3 && plain_position(b, p1) && plain_position(b, p3)
            &&& (u matches Some((_, e)) ==> p1 < e <= p2 && plain_position(b, e))
            &&& plain_position(b, trim_end(b, b.len() as int))
        }),
{
    lemma_skip_spaces(b, 0);
    let s0 = skip_spaces(b, 0);
    lemma_amount_ends(b, s0);
    let p1 = match amount_at(b, s0) {
        Some((_, e)) => skip_spaces(b, e),
        None => s0,
    };
    if let Some((_, e)) = amount_at(b, s0) {
        lemma_skip_spaces(b, e);
    }
    lemma_token_ends(b, p1);
    let p2 = match unit_at(b, p1) {
        Some((_, e)) => skip_spaces(b, e),
        None => p1,
    };
    if let Some((_, e)) = unit_at(b, p1) {
        lemma_skip_spaces(b, e);
    }
    lemma_token_ends(b, p2);
    if let Some(e) = preposition_at(b, p2) {
        lemma_skip_spaces(b, e);
    }
    lemma_trim_end(b, b.len() as int);
}

proof fn lemma_layout_plain(b: Seq<u8>)
    requires
        b.len() <= usize::MAX,
    ensures
        placed(b, layout(b), |k: int| plain_position(b, k)),
{
    lemma_forward_plain(b);
    lemma_skip_spaces(b, 0);
    let s0 = skip_spaces(b, 0);
    lemma_first_tail(b, s0 + 1);
    if let Some(p) = first_tail(b, s0 + 1) {
        lemma_tail_plain(b, p);
    }
}

/// Spans never overlap: the amount comes before the unit, and the
/// ingredient's name shares no byte with either. Every span lies in the line
/// and starts and ends on a character boundary.
pub proof fn spans_in_order(b: Seq<u8>)
    requires
        valid_utf8(b),
        b.len() <= usize::MAX,
    ensures
        placed(b, layout(b), |k: int| is_char_boundary(b, k)),
{
    lemma_layout_plain(b);
    let l = layout(b);
    if let Some(a) = l.amount {
        lemma_plain_position_boundary(b, a.span.from as int);
        lemma_plain_position_boundary(b, a.span.to as int);
    }
    if let Some(u) = l.unit {
        lemma_plain_position_boundary(b, u.span.from as int);
        lemma_plain_position_boundary(b, u.span.to as int);
    }
    if let Some(g) = l.ingredient {
        lemma_plain_position_boundary(b, g.from as int);
        lemma_plain_position_boundary(b, g.to as int);
    }
}

} // verus!
