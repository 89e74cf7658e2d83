use ingredient_parser::vulgar_fractions::{fraction_of_code, look_up_vulgar_fraction, vulgar_fractions};

#[test]
fn test_look_up_vulgar_fraction() {
    assert_eq!(look_up_vulgar_fraction("\u{215A}"), (5, 6));
    assert_eq!(look_up_vulgar_fraction("\u{2150}"), (1, 7));
}

#[test]
fn every_glyph_of_the_table_is_found() {
    let table = vulgar_fractions();
    assert_eq!(table.len(), 18);
    for (glyph, value) in table {
        assert_eq!(look_up_vulgar_fraction(&glyph.to_string()), value);
    }
    assert_eq!(look_up_vulgar_fraction("\u{00BD}"), (1, 2));
    assert_eq!(look_up_vulgar_fraction("\u{215E}"), (7, 8));
}

#[test]
fn other_code_points_have_no_fraction() {
    assert_eq!(fraction_of_code('a' as u32), None);
    assert_eq!(fraction_of_code(0x215F), None);
    assert_eq!(fraction_of_code(0x00BB), None);
    assert_eq!(fraction_of_code(0x2153), Some((1, 3)));
}

#[test]
fn glyph_codes_are_listed_once() {
    let table = vulgar_fractions();
    for i in 0..table.len() {
        for j in (i + 1)..table.len() {
            assert_ne!(table[i].0, table[j].0);
        }
    }
}
