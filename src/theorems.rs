//! What holds of every reading: tokens end words, each value is what its
//! span's text reads as, and every literal that the grammar matches has its
//! entry in the dictionary.

use vstd::prelude::*;
use vstd::string::StringSliceAdditionalSpecFns;
use crate::text::{ends_word, literal_at, longest_literal, lookup, same_letters};
use crate::dictionary_en::{unit_table, number_table};
use crate::ingredient_en::{Amount, Constant};
use crate::vulgar_fractions::{fraction_in, glyph_table, glyph_fraction};
use crate::grammar::{
    proper_fraction_at, digits_end, lemma_digits_end, constant_at, integer_at, skip_spaces, amount_at, unit_at, word_digit_at, preposition_at, first_tail, layout,
};
use crate::spans::{lemma_longest_literal, lemma_first_tail};

verus! {

proof fn lemma_lookup_finds<V>(t: Seq<(&str, V)>, text: Seq<u8>, k: int)
    requires
        0 <= k < t.len(),
        same_letters(t[k].0.spec_bytes(), text),
    ensures
        lookup(t, text) is Some,
    decreases k,
{
    if k > 0 && !same_letters(t[0].0.spec_bytes(), text) {
        assert(t.drop_first()[k - 1] == t[k]);
        lemma_lookup_finds(t.drop_first(), text, k - 1);
    }
}

proof fn lemma_longest_has_entry<V>(t: Seq<(&str, V)>, b: Seq<u8>, i: int)
    requires
        0 <= i <= b.len(),
        longest_literal(t, b, i) > 0,
    ensures
        exists|k: int|
            0 <= k < t.len() && literal_at(#[trigger] t[k].0.spec_bytes(), b, i)
                && t[k].0.spec_bytes().len() == longest_literal(t, b, i),
    decreases t.len(),
{
    let r = longest_literal(t.drop_last(), b, i);
    let key = t.last().0.spec_bytes();
    if literal_at(key, b, i) && key.len() > r {
        assert(t[t.len() - 1] == t.last());
    } else {
        lemma_longest_has_entry(t.drop_last(), b, i);
        let k = choose|k: int|
            0 <= k < t.drop_last().len() && literal_at(#[trigger] t.drop_last()[k].0.spec_bytes(), b, i)
                && t.drop_last()[k].0.spec_bytes().len() == r;
        assert(t[k] == t.drop_last()[k]);
    }
}

proof fn lemma_longest_bounds<V>(t: Seq<(&str, V)>, b: Seq<u8>, i: int, k: int)
    requires
        0 <= k < t.len(),
        literal_at(t[k].0.spec_bytes(), b, i),
    ensures
        t[k].0.spec_bytes().len() <= longest_literal(t, b, i),
    decreases t.len(),
{
    if k < t.len() - 1 {
        assert(t.drop_last()[k] == t[k]);
        lemma_longest_bounds(t.drop_last(), b, i, k);
    }
}

/// Matching takes the longest literal: no literal of the table that stands at
/// `i` (ending a word) is longer than the match, and where there is a match,
/// some literal of exactly its length stands there.
pub proof fn longest_match_is_longest<V>(t: Seq<(&str, V)>, b: Seq<u8>, i: int)
    requires
        0 <= i <= b.len(),
    ensures
        forall|k: int|
            0 <= k < t.len() && literal_at(#[trigger] t[k].0.spec_bytes(), b, i)
                ==> t[k].0.spec_bytes().len() <= longest_literal(t, b, i),
        longest_literal(t, b, i) > 0 ==> exists|k: int|
            0 <= k < t.len() && literal_at(#[trigger] t[k].0.spec_bytes(), b, i)
                && t[k].0.spec_bytes().len() == longest_literal(t, b, i),
{
    assert forall|k: int|
        0 <= k < t.len() && literal_at(#[trigger] t[k].0.spec_bytes(), b, i)
            implies t[k].0.spec_bytes().len() <= longest_literal(t, b, i) by {
        lemma_longest_bounds(t, b, i, k);
    }
    if longest_literal(t, b, i) > 0 {
        lemma_longest_has_entry(t, b, i);
    }
}

/// Whatever literal the grammar matches, the table it came from gives it a
/// value: the longest match of a table always has an entry of that table.
pub proof fn matched_literal_has_entry<V>(t: Seq<(&str, V)>, b: Seq<u8>, i: int)
    requires
        0 <= i <= b.len(),
        longest_literal(t, b, i) > 0,
    ensures
        lookup(t, b.subrange(i, i + longest_literal(t, b, i))) is Some,
{
    lemma_longest_has_entry(t, b, i);
    let k = choose|k: int|
        0 <= k < t.len() && literal_at(#[trigger] t[k].0.spec_bytes(), b, i)
            && t[k].0.spec_bytes().len() == longest_literal(t, b, i);
    lemma_lookup_finds(t, b.subrange(i, i + longest_literal(t, b, i)), k);
}

/// Where a unit form matches, a unit is read; where a number word matches, a
/// number is read.
pub proof fn dictionary_covers_grammar(b: Seq<u8>, i: int)
    requires
        0 <= i <= b.len(),
    ensures
        longest_literal(unit_table(), b, i) > 0 ==> unit_at(b, i) is Some,
        longest_literal(number_table(), b, i) > 0 ==> word_digit_at(b, i) is Some,
{
    if longest_literal(unit_table(), b, i) > 0 {
        matched_literal_has_entry(unit_table(), b, i);
    }
    if longest_literal(number_table(), b, i) > 0 {
        matched_literal_has_entry(number_table(), b, i);
    }
}

/// A unit, a number word or a preposition is only read where no letter or
/// digit follows it at once; so is the unit of every reading.
pub proof fn tokens_end_words(b: Seq<u8>, i: int)
    requires
        0 <= i <= b.len() <= usize::MAX,
    ensures
        unit_at(b, i) matches Some((_, e)) ==> ends_word(b, e),
        word_digit_at(b, i) matches Some((_, e)) ==> ends_word(b, e),
        preposition_at(b, i) matches Some(e) ==> ends_word(b, e),
        layout(b).unit matches Some(u) ==> ends_word(b, u.span.to as int),
{
    lemma_longest_literal(unit_table(), b, i);
    lemma_longest_literal(number_table(), b, i);
    lemma_longest_literal(crate::dictionary_en::preposition_table(), b, i);
    unit_of_layout(b);
}

/// The unit of a reading is read at the start of its span and ends at its
/// end; so is the amount.
proof fn unit_of_layout(b: Seq<u8>)
    requires
        b.len() <= usize::MAX,
    ensures
        layout(b).unit matches Some(u) ==> 0 <= u.span.from <= b.len() && unit_at(
            b,
            u.span.from as int,
        ) == Some((u.value, u.span.to as int)) && ends_word(b, u.span.to as int),
        layout(b).amount matches Some(a) ==> 0 <= a.span.from <= b.len() && amount_at(
            b,
            a.span.from as int,
        ) == Some((a.value, a.span.to as int)),
{
    crate::spans::lemma_skip_spaces(b, 0);
    let s0 = skip_spaces(b, 0);
    crate::spans::lemma_amount_ends(b, s0);
    let p1 = match amount_at(b, s0) {
        Some((_, e)) => skip_spaces(b, e),
        None => s0,
    };
    if let Some((_, e)) = amount_at(b, s0) {
        crate::spans::lemma_skip_spaces(b, e);
    }
    lemma_longest_literal(unit_table(), b, p1);
    crate::spans::lemma_token_ends(b, p1);
    lemma_first_tail(b, s0 + 1);
    if let Some(p) = first_tail(b, s0 + 1) {
        crate::spans::lemma_skip_spaces(b, p);
        let q = skip_spaces(b, p);
        crate::spans::lemma_amount_ends(b, q);
        lemma_longest_literal(unit_table(), b, q);
        crate::spans::lemma_token_ends(b, q);
        if let Some((_, e)) = amount_at(b, q) {
            crate::spans::lemma_skip_spaces(b, e);
            let r = skip_spaces(b, e);
            lemma_longest_literal(unit_table(), b, r);
            crate::spans::lemma_token_ends(b, r);
        }
    }
}

/// Each value of a reading is what the text of its span reads as: the unit is
/// the dictionary's unit for that text, and the amount is what the grammar
/// reads from the span's start, ending exactly at the span's end.
pub proof fn values_match_spans(b: Seq<u8>)
    requires
        b.len() <= usize::MAX,
    ensures
        layout(b).unit matches Some(u) ==> lookup(
            unit_table(),
            b.subrange(u.span.from as int, u.span.to as int),
        ) == Some(u.value),
        layout(b).amount matches Some(a) ==> amount_at(b, a.span.from as int) == Some(
            (a.value, a.span.to as int),
        ),
{
    unit_of_layout(b);
}

/// A constant whose fraction, if it is one, has a denominator above zero.
pub open spec fn denominator_positive(c: Constant) -> bool {
    c matches Constant::Fraction(_, d) ==> d > 0
}

/// Both constants of an amount have denominators above zero.
pub open spec fn amount_well_formed(a: Amount) -> bool {
    match a {
        Amount::Range { value_from, value_to } => denominator_positive(value_from)
            && denominator_positive(value_to),
        Amount::Constant { value } => denominator_positive(value),
    }
}

proof fn lemma_fraction_in_positive(t: Seq<(char, (u32, u32))>, code: u32)
    requires
        forall|k: int| 0 <= k < t.len() ==> (#[trigger] t[k]).1.1 > 0,
    ensures
        fraction_in(t, code) matches Some((_, d)) ==> d > 0,
    decreases t.len(),
{
    if t.len() > 0 && t[0].0 as u32 != code {
        assert forall|k: int| 0 <= k < t.drop_first().len() implies (#[trigger] t.drop_first()[k]).1.1 > 0 by {
            assert(t.drop_first()[k] == t[k + 1]);
        }
        lemma_fraction_in_positive(t.drop_first(), code);
    }
}

/// Every glyph of the table stands for a fraction with a denominator above zero.
pub proof fn glyph_denominators_positive(code: u32)
    ensures
        glyph_fraction(code) matches Some((_, d)) ==> d > 0,
{
    assert forall|k: int| 0 <= k < glyph_table().len() implies (#[trigger] glyph_table()[k]).1.1 > 0 by {
        assert(glyph_table()[k].1.1 > 0);
    }
    lemma_fraction_in_positive(glyph_table(), code);
}

proof fn lemma_constant_well_formed(b: Seq<u8>, i: int)
    ensures
        constant_at(b, i) matches Some((c, _)) ==> denominator_positive(c),
{
    if let Some((code, _)) = crate::grammar::glyph_code_at(b, i) {
        glyph_denominators_positive(code);
    }
    if let Some((_, j)) = integer_at(b, i) {
        let k = skip_spaces(b, j);
        if let Some((code, _)) = crate::grammar::glyph_code_at(b, k) {
            glyph_denominators_positive(code);
        }
    }
}

/// Every amount that the grammar reads, and so the amount of every reading,
/// has denominators above zero.
pub proof fn amounts_well_formed(b: Seq<u8>, i: int)
    requires
        b.len() <= usize::MAX,
    ensures
        amount_at(b, i) matches Some((a, _)) ==> amount_well_formed(a),
        layout(b).amount matches Some(a) ==> amount_well_formed(a.value),
{
    lemma_constant_well_formed(b, i);
    if let Some((_, j)) = constant_at(b, i) {
        let k = skip_spaces(b, j);
        lemma_constant_well_formed(b, skip_spaces(b, k + 1));
    }
    unit_of_layout(b);
    if let Some(a) = layout(b).amount {
        let f = a.span.from as int;
        lemma_constant_well_formed(b, f);
        if let Some((_, j)) = constant_at(b, f) {
            let k = skip_spaces(b, j);
            lemma_constant_well_formed(b, skip_spaces(b, k + 1));
        }
    }
}

/// A whole number `w`, optional white space, then a fraction `n/d` (simple
/// or a glyph) is read as the constant `(w * d + n) / d`, not reduced, where
/// that numerator fits in `u32`.
pub proof fn mixed_numbers_add_up(b: Seq<u8>, i: int)
    requires
        0 <= i <= b.len(),
    ensures
        integer_at(b, i) matches Some((w, j)) ==> (proper_fraction_at(b, skip_spaces(b, j)) matches Some(
            ((n, d), e),
        ) ==> (w * d + n <= u32::MAX ==> constant_at(b, i) == Some(
            (Constant::Fraction((w * d + n) as u32, d), e),
        ))),
{
    lemma_digits_end(b, i);
    if let Some((_, j)) = integer_at(b, i) {
        assert(j == digits_end(b, i));
        crate::spans::lemma_skip_spaces(b, j);
        if skip_spaces(b, j) > j {
            assert(skip_spaces(b, j) == skip_spaces(b, j + 1));
        }
        lemma_digits_end(b, skip_spaces(b, j));
    }
}

} // verus!
