//! The single-glyph fractions of Unicode (such as `½`) and their values.

use vstd::prelude::*;

verus! {

/// The glyphs that stand for a fraction, each with its numerator and denominator.
pub open spec fn glyph_table() -> Seq<(char, (u32, u32))> {
    seq![
        ('\u{00BC}', (1u32, 4u32)),
        ('\u{00BD}', (1u32, 2u32)),
        ('\u{00BE}', (3u32, 4u32)),
        ('\u{2150}', (1u32, 7u32)),
        ('\u{2151}', (1u32, 9u32)),
        ('\u{2152}', (1u32, 10u32)),
        ('\u{2153}', (1u32, 3u32)),
        ('\u{2154}', (2u32, 3u32)),
        ('\u{2155}', (1u32, 5u32)),
        ('\u{2156}', (2u32, 5u32)),
        ('\u{2157}', (3u32, 5u32)),
        ('\u{2158}', (4u32, 5u32)),
        ('\u{2159}', (1u32, 6u32)),
        ('\u{215A}', (5u32, 6u32)),
        ('\u{215B}', (1u32, 8u32)),
        ('\u{215C}', (3u32, 8u32)),
        ('\u{215D}', (5u32, 8u32)),
        ('\u{215E}', (7u32, 8u32)),
    ]
}

/// The fraction of the first entry of `t` whose glyph has code point `code`.
pub open spec fn fraction_in(t: Seq<(char, (u32, u32))>, code: u32) -> Option<(u32, u32)>
    decreases t.len(),
{
    if t.len() == 0 {
        None
    } else if t[0].0 as u32 == code {
        Some(t[0].1)
    } else {
        fraction_in(t.drop_first(), code)
    }
}

/// The fraction that the glyph with code point `code` stands for, if any.
pub open spec fn glyph_fraction(code: u32) -> Option<(u32, u32)> {
    fraction_in(glyph_table(), code)
}

/// The table of fraction glyphs.
pub fn vulgar_fractions() -> (r: Vec<(char, (u32, u32))>)
    ensures
        r@ == glyph_table(),
{
    let r = vec![
        ('\u{00BC}', (1u32, 4u32)),
        ('\u{00BD}', (1u32, 2u32)),
        ('\u{00BE}', (3u32, 4u32)),
        ('\u{2150}', (1u32, 7u32)),
        ('\u{2151}', (1u32, 9u32)),
        ('\u{2152}', (1u32, 10u32)),
        ('\u{2153}', (1u32, 3u32)),
        ('\u{2154}', (2u32, 3u32)),
        ('\u{2155}', (1u32, 5u32)),
        ('\u{2156}', (2u32, 5u32)),
        ('\u{2157}', (3u32, 5u32)),
        ('\u{2158}', (4u32, 5u32)),
        ('\u{2159}', (1u32, 6u32)),
        ('\u{215A}', (5u32, 6u32)),
        ('\u{215B}', (1u32, 8u32)),
        ('\u{215C}', (3u32, 8u32)),
        ('\u{215D}', (5u32, 8u32)),
        ('\u{215E}', (7u32, 8u32)),
    ];
    assert(r@ =~= glyph_table());
    r
}

/// The fraction of the glyph with code point `code`, found in the table.
pub fn fraction_of_code(code: u32) -> (r: Option<(u32, u32)>)
    ensures
        r == glyph_fraction(code),
{
    let t = vulgar_fractions();
    let mut k: usize = 0;
    assert(t@.subrange(0, t@.len() as int) =~= t@);
    while k < t.len()
        invariant
            k <= t@.len(),
            t@ == glyph_table(),
            fraction_in(t@.subrange(k as int, t@.len() as int), code) == glyph_fraction(code),
        decreases t@.len() - k,
    {
        let ghost rest = t@.subrange(k as int, t@.len() as int);
        assert(rest.drop_first() =~= t@.subrange(k + 1, t@.len() as int));
        if t[k].0 as u32 == code {
            return Some(t[k].1);
        }
        k = k + 1;
    }
    None
}

/// The numerator and denominator of a fraction glyph.
pub fn look_up_vulgar_fraction(fraction: &str) -> (r: (u32, u32))
    requires
        fraction@.len() == 1,
        glyph_fraction(fraction@[0] as u32) is Some,
    ensures
        Some(r) == glyph_fraction(fraction@[0] as u32),
{
    let c = fraction.get_char(0);
    match fraction_of_code(c as u32) {
        Some(f) => f,
        None => (0, 1),
    }
}

/// No code point stands twice in the glyph table, so each glyph has one
/// fraction.
pub proof fn glyphs_listed_once()
    ensures
        forall|i: int, j: int|
            0 <= i < j < glyph_table().len() ==> (#[trigger] glyph_table()[i]).0 as u32
                != (#[trigger] glyph_table()[j]).0 as u32,
{
    let t = glyph_table();
    assert forall|i: int, j: int|
        0 <= i < j < t.len() implies (#[trigger] t[i]).0 as u32 != (#[trigger] t[j]).0 as u32 by {
        assert(forall|k: int| 0 <= k < t.len() ==> 0xBC + k <= (#[trigger] t[k]).0 as u32 && (k < 3 ==> t[k].0 as u32 == 0xBC + k) && (k >= 3 ==> t[k].0 as u32 == 0x2150 + k - 3));
    }
}

} // verus!
