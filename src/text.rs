//! Byte-level text matching: ASCII case folding, word boundaries, and
//! longest-first matching of the literals of a table.

use vstd::prelude::*;
use vstd::string::StringSliceAdditionalSpecFns;

verus! {

/// The byte with ASCII upper-case letters taken to lower case.
pub open spec fn lower(c: u8) -> u8 {
    if 65 <= c <= 90 {
        (c + 32) as u8
    } else {
        c
    }
}

/// `x` and `y` are equal but for the case of ASCII letters.
pub open spec fn same_letters(x: Seq<u8>, y: Seq<u8>) -> bool {
    x.len() == y.len() && forall|k: int| 0 <= k < x.len() ==> lower(#[trigger] x[k]) == lower(y[k])
}

pub open spec fn is_digit(c: u8) -> bool {
    48 <= c <= 57
}

pub open spec fn is_space(c: u8) -> bool {
    c == 32 || c == 9 || c == 10 || c == 13
}

/// A byte that may continue a word: an ASCII letter or digit, `_`, or any byte
/// of a character beyond ASCII.
pub open spec fn is_word_byte(c: u8) -> bool {
    is_digit(c) || (65 <= c <= 90) || (97 <= c <= 122) || c == 95 || c >= 128
}

/// No word goes on at position `e` of `b`.
pub open spec fn ends_word(b: Seq<u8>, e: int) -> bool {
    e >= b.len() || !is_word_byte(b[e])
}

/// `key` stands in `b` at `i`, case aside, and is not followed by a word byte.
pub open spec fn literal_at(key: Seq<u8>, b: Seq<u8>, i: int) -> bool {
    0 < key.len() && 0 <= i && i + key.len() <= b.len() && same_letters(
        key,
        b.subrange(i, i + key.len()),
    ) && ends_word(b, i + key.len())
}

/// The length of the longest literal of `t` that stands at `i` in `b`; zero
/// when none does.
pub open spec fn longest_literal<V>(t: Seq<(&str, V)>, b: Seq<u8>, i: int) -> nat
    decreases t.len(),
{
    if t.len() == 0 {
        0
    } else {
        let r = longest_literal(t.drop_last(), b, i);
        let key = t.last().0.spec_bytes();
        if literal_at(key, b, i) && key.len() > r {
            key.len()
        } else {
            r
        }
    }
}

/// The value of the first entry of `t` whose literal is `text`, case aside.
pub open spec fn lookup<V>(t: Seq<(&str, V)>, text: Seq<u8>) -> Option<V>
    decreases t.len(),
{
    if t.len() == 0 {
        None
    } else if same_letters(t[0].0.spec_bytes(), text) {
        Some(t[0].1)
    } else {
        lookup(t.drop_first(), text)
    }
}

pub fn ascii_lower(c: u8) -> (r: u8)
    ensures
        r == lower(c),
{
    if 65 <= c && c <= 90 {
        c + 32
    } else {
        c
    }
}

pub fn is_word_byte_exec(c: u8) -> (r: bool)
    ensures
        r == is_word_byte(c),
{
    (48 <= c && c <= 57) || (65 <= c && c <= 90) || (97 <= c && c <= 122) || c == 95 || c >= 128
}

/// Whether `key` equals `b[from..to]`, case aside.
pub fn same_letters_range(key: &[u8], b: &[u8], from: usize, to: usize) -> (r: bool)
    requires
        from <= to <= b@.len(),
    ensures
        r == same_letters(key@, b@.subrange(from as int, to as int)),
{
    if key.len() != to - from {
        return false;
    }
    let mut k: usize = 0;
    while k < key.len()
        invariant
            key@.len() == to - from,
            from <= to <= b@.len(),
            k <= key@.len(),
            forall|j: int| 0 <= j < k ==> lower(#[trigger] key@[j]) == lower(b@[from + j]),
        decreases key@.len() - k,
    {
        if ascii_lower(key[k]) != ascii_lower(b[from + k]) {
            assert(b@.subrange(from as int, to as int)[k as int] == b@[from + k]);
            return false;
        }
        k = k + 1;
    }
    true
}

/// Whether `key` stands at `i` in `b`, as `literal_at` says.
pub fn literal_at_exec(key: &[u8], b: &[u8], i: usize) -> (r: bool)
    requires
        i <= b@.len(),
    ensures
        r == literal_at(key@, b@, i as int),
{
    if key.len() == 0 || key.len() > b.len() - i {
        return false;
    }
    let end = i + key.len();
    if !same_letters_range(key, b, i, end) {
        return false;
    }
    end >= b.len() || !is_word_byte_exec(b[end])
}

/// The length of the longest literal of `t` at `i` in `b`.
pub fn longest_literal_at<V>(t: &Vec<(&'static str, V)>, b: &[u8], i: usize) -> (r: usize)
    requires
        i <= b@.len(),
    ensures
        r == longest_literal(t@, b@, i as int),
        i + r <= b@.len(),
{
    let mut best: usize = 0;
    let mut k: usize = 0;
    while k < t.len()
        invariant
            k <= t@.len(),
            i <= b@.len(),
            best == longest_literal(t@.subrange(0, k as int), b@, i as int),
            i + best <= b@.len(),
        decreases t@.len() - k,
    {
        assert(t@.subrange(0, k + 1).drop_last() =~= t@.subrange(0, k as int));
        let key = t[k].0.as_bytes();
        if literal_at_exec(key, b, i) && key.len() > best {
            best = key.len();
        }
        k = k + 1;
    }
    assert(t@.subrange(0, t@.len() as int) =~= t@);
    best
}

/// The value that `t` gives to the text `b[from..to]`, case aside.
pub fn lookup_range<V: Copy>(t: &Vec<(&'static str, V)>, b: &[u8], from: usize, to: usize) -> (r: Option<V>)
    requires
        from <= to <= b@.len(),
    ensures
        r == lookup(t@, b@.subrange(from as int, to as int)),
{
    let mut k: usize = 0;
    assert(t@.subrange(0, t@.len() as int) =~= t@);
    while k < t.len()
        invariant
            k <= t@.len(),
            from <= to <= b@.len(),
            lookup(t@.subrange(k as int, t@.len() as int), b@.subrange(from as int, to as int))
                == lookup(t@, b@.subrange(from as int, to as int)),
        decreases t@.len() - k,
    {
        assert(t@.subrange(k as int, t@.len() as int).drop_first() =~= t@.subrange(k + 1, t@.len() as int));
        if same_letters_range(t[k].0.as_bytes(), b, from, to) {
            return Some(t[k].1);
        }
        k = k + 1;
    }
    None
}

/// No two literals of `t` are equal, case aside.
pub open spec fn forms_distinct<V>(t: Seq<(&str, V)>) -> bool {
    forall|i: int, j: int|
        0 <= i < j < t.len() ==> !same_letters(#[trigger] t[i].0.spec_bytes(), #[trigger] t[j].0.spec_bytes())
}

/// The first pair of entries of `t` (by the second's index) whose literals are
/// equal, case aside.
pub fn first_duplicate<V>(t: &Vec<(&'static str, V)>) -> (r: Option<(usize, usize)>)
    ensures
        r matches Some((i, j)) ==> i < j < t@.len() && same_letters(
            t@[i as int].0.spec_bytes(),
            t@[j as int].0.spec_bytes(),
        ),
        r is None ==> forms_distinct(t@),
{
    let mut j: usize = 0;
    while j < t.len()
        invariant
            j <= t@.len(),
            forall|a: int, c: int|
                0 <= a < c < j ==> !same_letters(#[trigger] t@[a].0.spec_bytes(), #[trigger] t@[c].0.spec_bytes()),
        decreases t@.len() - j,
    {
        let later = t[j].0.as_bytes();
        let mut i: usize = 0;
        while i < j
            invariant
                i <= j < t@.len(),
                later@ == t@[j as int].0.spec_bytes(),
                forall|a: int| 0 <= a < i ==> !same_letters(#[trigger] t@[a].0.spec_bytes(), t@[j as int].0.spec_bytes()),
            decreases j - i,
        {
            assert(later@.subrange(0, later@.len() as int) =~= later@);
            if same_letters_range(t[i].0.as_bytes(), later, 0, later.len()) {
                return Some((i, j));
            }
            i = i + 1;
        }
        j = j + 1;
    }
    None
}

/// No literal of `t` equals `key`, case aside.
pub open spec fn absent_from<V>(t: Seq<(&str, V)>, key: Seq<u8>) -> bool
    decreases t.len(),
{
    t.len() == 0 || (!same_letters(t.last().0.spec_bytes(), key) && absent_from(t.drop_last(), key))
}

/// Each literal of `t` differs from all literals before it, case aside.
pub open spec fn listed_once<V>(t: Seq<(&str, V)>) -> bool
    decreases t.len(),
{
    t.len() == 0 || (absent_from(t.drop_last(), t.last().0.spec_bytes()) && listed_once(t.drop_last()))
}

proof fn lemma_absent_from<V>(t: Seq<(&str, V)>, key: Seq<u8>, k: int)
    requires
        absent_from(t, key),
        0 <= k < t.len(),
    ensures
        !same_letters(t[k].0.spec_bytes(), key),
    decreases t.len(),
{
    if k < t.len() - 1 {
        assert(t.drop_last()[k] == t[k]);
        lemma_absent_from(t.drop_last(), key, k);
    }
}

pub proof fn lemma_listed_once<V>(t: Seq<(&str, V)>)
    requires
        listed_once(t),
    ensures
        forms_distinct(t),
    decreases t.len(),
{
    if t.len() > 0 {
        let p = t.drop_last();
        lemma_listed_once(p);
        assert forall|i: int, j: int|
            0 <= i < j < t.len() implies !same_letters(
            #[trigger] t[i].0.spec_bytes(),
            #[trigger] t[j].0.spec_bytes(),
        ) by {
            assert(p[i] == t[i]);
            if j < t.len() - 1 {
                assert(p[j] == t[j]);
            } else {
                lemma_absent_from(p, t.last().0.spec_bytes(), i);
            }
        }
    }
}

} // verus!
