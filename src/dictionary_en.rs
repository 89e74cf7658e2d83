//! The English dictionary: units with their written forms, number words and
//! prepositions, and the case-insensitive lookups over them.

use vstd::prelude::*;
use vstd::string::StringSliceAdditionalSpecFns;
use vstd::string::is_ascii;
use crate::text::{lookup, lookup_range, forms_distinct, first_duplicate, listed_once, absent_from, lemma_listed_once};

verus! {

/// A unit of measure, as the dictionary names it.
#[derive(Clone, Copy, Debug, PartialEq, Eq, Structural, Hash)]
pub enum Unit {
    Kilogram,
    Gram,
    Milligram,
    Pound,
    Ounce,
    Liter,
    Deciliter,
    Centiliter,
    Milliliter,
    Cup,
    Teaspoon,
    Tablespoon,
    Pinch,
    Handful,
    Clove,
    Piece,
    Slice,
    Can,
    Bunch,
    ToTaste,
}

/// Each written form of a unit, with the unit it stands for.
pub open spec fn unit_table() -> Seq<(&'static str, Unit)> {
    seq![
        ("kg", Unit::Kilogram),
        ("kgs", Unit::Kilogram),
        ("kilo", Unit::Kilogram),
        ("kilos", Unit::Kilogram),
        ("kilogram", Unit::Kilogram),
        ("kilograms", Unit::Kilogram),
        ("g", Unit::Gram),
        ("gr", Unit::Gram),
        ("gram", Unit::Gram),
        ("grams", Unit::Gram),
        ("mg", Unit::Milligram),
        ("milligram", Unit::Milligram),
        ("milligrams", Unit::Milligram),
        ("lb", Unit::Pound),
        ("lbs", Unit::Pound),
        ("pound", Unit::Pound),
        ("pounds", Unit::Pound),
        ("oz", Unit::Ounce),
        ("ounce", Unit::Ounce),
        ("ounces", Unit::Ounce),
        ("l", Unit::Liter),
        ("liter", Unit::Liter),
        ("liters", Unit::Liter),
        ("litre", Unit::Liter),
        ("litres", Unit::Liter),
        ("dl", Unit::Deciliter),
        ("deciliter", Unit::Deciliter),
        ("deciliters", Unit::Deciliter),
        ("cl", Unit::Centiliter),
        ("centiliter", Unit::Centiliter),
        ("centiliters", Unit::Centiliter),
        ("ml", Unit::Milliliter),
        ("ml.", Unit::Milliliter),
        ("milliliter", Unit::Milliliter),
        ("milliliters", Unit::Milliliter),
        ("millilitre", Unit::Milliliter),
        ("millilitres", Unit::Milliliter),
        ("cup", Unit::Cup),
        ("cups", Unit::Cup),
        ("t", Unit::Teaspoon),
        ("tsp", Unit::Teaspoon),
        ("tsp.", Unit::Teaspoon),
        ("teaspoon", Unit::Teaspoon),
        ("teaspoons", Unit::Teaspoon),
        ("tbsp", Unit::Tablespoon),
        ("tbsp.", Unit::Tablespoon),
        ("tablespoon", Unit::Tablespoon),
        ("tablespoons", Unit::Tablespoon),
        ("pinch", Unit::Pinch),
        ("pinches", Unit::Pinch),
        ("handful", Unit::Handful),
        ("handfuls", Unit::Handful),
        ("clove", Unit::Clove),
        ("cloves", Unit::Clove),
        ("piece", Unit::Piece),
        ("pieces", Unit::Piece),
        ("pc", Unit::Piece),
        ("pcs", Unit::Piece),
        ("slice", Unit::Slice),
        ("slices", Unit::Slice),
        ("can", Unit::Can),
        ("cans", Unit::Can),
        ("bunch", Unit::Bunch),
        ("bunches", Unit::Bunch),
        ("to taste", Unit::ToTaste),
    ]
}

/// Each number word, with its value.
pub open spec fn number_table() -> Seq<(&'static str, u32)> {
    seq![
        ("a", 1u32),
        ("an", 1u32),
        ("one", 1u32),
        ("two", 2u32),
        ("three", 3u32),
        ("four", 4u32),
        ("five", 5u32),
        ("six", 6u32),
        ("seven", 7u32),
        ("eight", 8u32),
        ("nine", 9u32),
        ("ten", 10u32),
        ("eleven", 11u32),
        ("twelve", 12u32),
    ]
}

/// The words that may stand between a unit and the ingredient's name.
pub open spec fn preposition_table() -> Seq<(&'static str, ())> {
    seq![
        ("of", ()),
    ]
}

pub fn unit_entries() -> (r: Vec<(&'static str, Unit)>)
    ensures
        r@ == unit_table(),
{
    let r = vec![
        ("kg", Unit::Kilogram),
        ("kgs", Unit::Kilogram),
        ("kilo", Unit::Kilogram),
        ("kilos", Unit::Kilogram),
        ("kilogram", Unit::Kilogram),
        ("kilograms", Unit::Kilogram),
        ("g", Unit::Gram),
        ("gr", Unit::Gram),
        ("gram", Unit::Gram),
        ("grams", Unit::Gram),
        ("mg", Unit::Milligram),
        ("milligram", Unit::Milligram),
        ("milligrams", Unit::Milligram),
        ("lb", Unit::Pound),
        ("lbs", Unit::Pound),
        ("pound", Unit::Pound),
        ("pounds", Unit::Pound),
        ("oz", Unit::Ounce),
        ("ounce", Unit::Ounce),
        ("ounces", Unit::Ounce),
        ("l", Unit::Liter),
        ("liter", Unit::Liter),
        ("liters", Unit::Liter),
        ("litre", Unit::Liter),
        ("litres", Unit::Liter),
        ("dl", Unit::Deciliter),
        ("deciliter", Unit::Deciliter),
        ("deciliters", Unit::Deciliter),
        ("cl", Unit::Centiliter),
        ("centiliter", Unit::Centiliter),
        ("centiliters", Unit::Centiliter),
        ("ml", Unit::Milliliter),
        ("ml.", Unit::Milliliter),
        ("milliliter", Unit::Milliliter),
        ("milliliters", Unit::Milliliter),
        ("millilitre", Unit::Milliliter),
        ("millilitres", Unit::Milliliter),
        ("cup", Unit::Cup),
        ("cups", Unit::Cup),
        ("t", Unit::Teaspoon),
        ("tsp", Unit::Teaspoon),
        ("tsp.", Unit::Teaspoon),
        ("teaspoon", Unit::Teaspoon),
        ("teaspoons", Unit::Teaspoon),
        ("tbsp", Unit::Tablespoon),
        ("tbsp.", Unit::Tablespoon),
        ("tablespoon", Unit::Tablespoon),
        ("tablespoons", Unit::Tablespoon),
        ("pinch", Unit::Pinch),
        ("pinches", Unit::Pinch),
        ("handful", Unit::Handful),
        ("handfuls", Unit::Handful),
        ("clove", Unit::Clove),
        ("cloves", Unit::Clove),
        ("piece", Unit::Piece),
        ("pieces", Unit::Piece),
        ("pc", Unit::Piece),
        ("pcs", Unit::Piece),
        ("slice", Unit::Slice),
        ("slices", Unit::Slice),
        ("can", Unit::Can),
        ("cans", Unit::Can),
        ("bunch", Unit::Bunch),
        ("bunches", Unit::Bunch),
        ("to taste", Unit::ToTaste),
    ];
    assert(r@ =~= unit_table());
    r
}

pub fn number_entries() -> (r: Vec<(&'static str, u32)>)
    ensures
        r@ == number_table(),
{
    let r = vec![
        ("a", 1u32),
        ("an", 1u32),
        ("one", 1u32),
        ("two", 2u32),
        ("three", 3u32),
        ("four", 4u32),
        ("five", 5u32),
        ("six", 6u32),
        ("seven", 7u32),
        ("eight", 8u32),
        ("nine", 9u32),
        ("ten", 10u32),
        ("eleven", 11u32),
        ("twelve", 12u32),
    ];
    assert(r@ =~= number_table());
    r
}

pub fn preposition_entries() -> (r: Vec<(&'static str, ())>)
    ensures
        r@ == preposition_table(),
{
    let r = vec![
        ("of", ()),
    ];
    assert(r@ =~= preposition_table());
    r
}

/// The unit that a written form stands for, case aside; `None` for a text that
/// is no unit.
pub fn expr_to_unit(unit: &str) -> (r: Option<Unit>)
    ensures
        r == lookup(unit_table(), unit.spec_bytes()),
{
    let b = unit.as_bytes();
    assert(b@.subrange(0, b@.len() as int) =~= b@);
    lookup_range(&unit_entries(), b, 0, b.len())
}

/// The value of a number word, case aside; `None` for a text that is no number
/// word.
pub fn expr_to_int(number: &str) -> (r: Option<u32>)
    ensures
        r == lookup(number_table(), number.spec_bytes()),
{
    let b = number.as_bytes();
    assert(b@.subrange(0, b@.len() as int) =~= b@);
    lookup_range(&number_entries(), b, 0, b.len())
}

/// The unit of a text that the dictionary knows as a unit. Every written form
/// of the dictionary's unit table is accepted, in any case; a text that is no
/// form of it is outside the domain.
pub fn canonical_unit(str: &str) -> (r: Unit)
    requires
        lookup(unit_table(), str.spec_bytes()) is Some,
    ensures
        Some(r) == lookup(unit_table(), str.spec_bytes()),
{
    match expr_to_unit(str) {
        Some(u) => u,
        None => Unit::Kilogram,
    }
}

/// The value of a text that the dictionary knows as a number word. Every word
/// of the dictionary's number table is accepted, in any case; a text that is
/// no such word is outside the domain.
pub fn look_up_word_digit(str: &str) -> (r: u32)
    requires
        lookup(number_table(), str.spec_bytes()) is Some,
    ensures
        Some(r) == lookup(number_table(), str.spec_bytes()),
{
    match expr_to_int(str) {
        Some(n) => n,
        None => 0,
    }
}

/// A fault of a dictionary: a written form that it lists twice in one group
/// (case aside), with the two indices in that group's table.
#[derive(Clone, Copy, Debug, PartialEq, Eq, Structural)]
pub enum DictionaryError {
    DuplicateUnit(usize, usize),
    DuplicateNumber(usize, usize),
    DuplicatePreposition(usize, usize),
}

/// Checks that no group of the dictionary lists a written form twice, so that
/// each form has exactly one meaning.
pub fn check_dictionary() -> (r: Result<(), DictionaryError>)
    ensures
        r is Ok <==> forms_distinct(unit_table()) && forms_distinct(number_table())
            && forms_distinct(preposition_table()),
        r matches Err(DictionaryError::DuplicateUnit(_, _)) ==> !forms_distinct(unit_table()),
        r matches Err(DictionaryError::DuplicateNumber(_, _)) ==> forms_distinct(unit_table())
            && !forms_distinct(number_table()),
        r matches Err(DictionaryError::DuplicatePreposition(_, _)) ==> forms_distinct(unit_table())
            && forms_distinct(number_table()) && !forms_distinct(preposition_table()),
{
    if let Some((i, j)) = first_duplicate(&unit_entries()) {
        return Err(DictionaryError::DuplicateUnit(i, j));
    }
    if let Some((i, j)) = first_duplicate(&number_entries()) {
        return Err(DictionaryError::DuplicateNumber(i, j));
    }
    if let Some((i, j)) = first_duplicate(&preposition_entries()) {
        return Err(DictionaryError::DuplicatePreposition(i, j));
    }
    Ok(())
}

/// No number word is listed twice, case aside.
pub proof fn number_forms_distinct()
    ensures
        forms_distinct(number_table()),
{
    broadcast use vstd::string::is_ascii_spec_bytes;

    reveal_strlit("a");
    reveal_strlit("an");
    reveal_strlit("one");
    reveal_strlit("two");
    reveal_strlit("three");
    reveal_strlit("four");
    reveal_strlit("five");
    reveal_strlit("six");
    reveal_strlit("seven");
    reveal_strlit("eight");
    reveal_strlit("nine");
    reveal_strlit("ten");
    reveal_strlit("eleven");
    reveal_strlit("twelve");
    assert(is_ascii("a"));
    assert(is_ascii("an"));
    assert(is_ascii("one"));
    assert(is_ascii("two"));
    assert(is_ascii("three"));
    assert(is_ascii("four"));
    assert(is_ascii("five"));
    assert(is_ascii("six"));
    assert(is_ascii("seven"));
    assert(is_ascii("eight"));
    assert(is_ascii("nine"));
    assert(is_ascii("ten"));
    assert(is_ascii("eleven"));
    assert(is_ascii("twelve"));
    assert("a".spec_bytes() =~= seq![97u8]);
    assert("an".spec_bytes() =~= seq![97u8, 110u8]);
    assert("one".spec_bytes() =~= seq![111u8, 110u8, 101u8]);
    assert("two".spec_bytes() =~= seq![116u8, 119u8, 111u8]);
    assert("three".spec_bytes() =~= seq![116u8, 104u8, 114u8, 101u8, 101u8]);
    assert("four".spec_bytes() =~= seq![102u8, 111u8, 117u8, 114u8]);
    assert("five".spec_bytes() =~= seq![102u8, 105u8, 118u8, 101u8]);
    assert("six".spec_bytes() =~= seq![115u8, 105u8, 120u8]);
    assert("seven".spec_bytes() =~= seq![115u8, 101u8, 118u8, 101u8, 110u8]);
    assert("eight".spec_bytes() =~= seq![101u8, 105u8, 103u8, 104u8, 116u8]);
    assert("nine".spec_bytes() =~= seq![110u8, 105u8, 110u8, 101u8]);
    assert("ten".spec_bytes() =~= seq![116u8, 101u8, 110u8]);
    assert("eleven".spec_bytes() =~= seq![101u8, 108u8, 101u8, 118u8, 101u8, 110u8]);
    assert("twelve".spec_bytes() =~= seq![116u8, 119u8, 101u8, 108u8, 118u8, 101u8]);
    assert(listed_once(number_table())) by {
        reveal_with_fuel(listed_once, 15);
        reveal_with_fuel(absent_from, 15);
    }
    lemma_listed_once(number_table());
}

/// No preposition is listed twice, case aside.
pub proof fn preposition_forms_distinct()
    ensures
        forms_distinct(preposition_table()),
{
    broadcast use vstd::string::is_ascii_spec_bytes;

    reveal_strlit("of");
    assert(is_ascii("of"));
    assert("of".spec_bytes() =~= seq![111u8, 102u8]);
    assert(listed_once(preposition_table())) by {
        reveal_with_fuel(listed_once, 2);
        reveal_with_fuel(absent_from, 2);
    }
    lemma_listed_once(preposition_table());
}

} // verus!
