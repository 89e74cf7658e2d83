use ingredient_parser::text::first_duplicate;
use ingredient_parser::dictionary_en::{
    check_dictionary, number_entries, unit_entries,
    canonical_unit, expr_to_int, expr_to_unit, look_up_word_digit, Unit,
};

#[test]
fn test_look_up_word_digit() {
    assert_eq!(look_up_word_digit("a"), 1);
    assert_eq!(look_up_word_digit("two"), 2);
}

#[test]
fn test_canonical_unit() {
    assert_eq!(canonical_unit("kilogram"), Unit::Kilogram);
    assert_eq!(canonical_unit("lb"), Unit::Pound);
}

#[test]
fn test_expr_to_int() {
    assert_eq!(expr_to_int("a").unwrap(), 1);
    assert_eq!(expr_to_int("two").unwrap(), 2);
}

#[test]
fn test_expr_to_unit() {
    assert_eq!(expr_to_unit("kilogram").unwrap(), Unit::Kilogram);
    assert_eq!(expr_to_unit("lb").unwrap(), Unit::Pound);
    assert_eq!(expr_to_unit("ml.").unwrap(), Unit::Milliliter);
}

#[test]
fn lookups_ignore_case() {
    assert_eq!(expr_to_unit("KG"), Some(Unit::Kilogram));
    assert_eq!(expr_to_unit("To Taste"), Some(Unit::ToTaste));
    assert_eq!(expr_to_int("Three"), Some(3));
    assert_eq!(look_up_word_digit("TWELVE"), 12);
}

#[test]
fn lookups_reject_unknown_text() {
    assert_eq!(expr_to_unit("kgs."), None);
    assert_eq!(expr_to_unit(""), None);
    assert_eq!(expr_to_unit("k"), None);
    assert_eq!(expr_to_int("twenty"), None);
    assert_eq!(expr_to_int(""), None);
}

#[test]
fn english_dictionary_has_no_duplicate_forms() {
    assert_eq!(check_dictionary(), Ok(()));
    assert_eq!(first_duplicate(&unit_entries()), None);
    assert_eq!(first_duplicate(&number_entries()), None);
}

#[test]
fn duplicate_forms_are_found_case_aside() {
    let table: Vec<(&'static str, u32)> = vec![("cup", 1), ("kg", 2), ("lb", 3), ("KG", 4)];
    assert_eq!(first_duplicate(&table), Some((1, 3)));
    let table: Vec<(&'static str, u32)> = vec![("cup", 1), ("cups", 2)];
    assert_eq!(first_duplicate(&table), None);
}

#[test]
fn every_unit_form_reads_as_its_unit() {
    for (form, unit) in unit_entries() {
        assert_eq!(expr_to_unit(form), Some(unit));
        assert_eq!(canonical_unit(&form.to_uppercase()), unit);
    }
    for (form, value) in number_entries() {
        assert_eq!(expr_to_int(form), Some(value));
    }
}
