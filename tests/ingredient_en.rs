use ingredient_parser::dictionary_en::Unit;
use ingredient_parser::ingredient_en::{parse, Amount, Constant, Decimal, Span};

fn fraction(n: u32, d: u32) -> Amount {
    Amount::Constant { value: Constant::Fraction(n, d) }
}

#[test]
fn test_parse() {
    {
        let info = parse("1 1/2 kg potatoes");

        let amount = info.amount.unwrap();
        assert_eq!(amount.value, Amount::Constant { value: Constant::Fraction(3, 2) });
        assert_eq!(amount.span.from, 0);
        assert_eq!(amount.span.to, 5);

        let unit = info.unit.unwrap();
        assert_eq!(unit.value, Unit::Kilogram);
        assert_eq!(unit.span.from, 6);
        assert_eq!(unit.span.to, 8);
    }

    {
        let info = parse("2-3 lb potatoes");

        let amount = info.amount.unwrap();
        assert_eq!(
            amount.value,
            Amount::Range {
                value_from: Constant::Fraction(2, 1),
                value_to: Constant::Fraction(3, 1)
            }
        );
        assert_eq!(amount.span.from, 0);
        assert_eq!(amount.span.to, 3);

        let unit = info.unit.unwrap();
        assert_eq!(unit.value, Unit::Pound);
        assert_eq!(unit.span.from, 4);
        assert_eq!(unit.span.to, 6);
    }

    {
        let info = parse("1½ cups flour");

        let amount = info.amount.unwrap();
        assert_eq!(amount.value, Amount::Constant { value: Constant::Fraction(3, 2) });
        assert_eq!(amount.span.from, 0);
        assert_eq!(amount.span.to, 3);

        let unit = info.unit.unwrap();
        assert_eq!(unit.value, Unit::Cup);
        assert_eq!(unit.span.from, 4);
        assert_eq!(unit.span.to, 8);
    }

    {
        let info = parse("400 ml milk");

        let amount = info.amount.unwrap();
        assert_eq!(amount.value, Amount::Constant { value: Constant::Fraction(400, 1) });
        assert_eq!(amount.span.from, 0);
        assert_eq!(amount.span.to, 3);

        let unit = info.unit.unwrap();
        assert_eq!(unit.value, Unit::Milliliter);
        assert_eq!(unit.span.from, 4);
        assert_eq!(unit.span.to, 6);
    }
}

#[test]
fn test_reverse_format() {
    {
        let info = parse("Flour 1 kg");

        let amount = info.amount.unwrap();
        assert_eq!(amount.value, Amount::Constant { value: Constant::Fraction(1, 1) });
        assert_eq!(amount.span.from, 6);
        assert_eq!(amount.span.to, 7);

        let unit = info.unit.unwrap();
        assert_eq!(unit.value, Unit::Kilogram);
        assert_eq!(unit.span.from, 8);
        assert_eq!(unit.span.to, 10);
    }

    {
        // the parenthesized "2 kg" is part of the name, not a second amount
        let info = parse("Flour (2 kg) 1 kg");

        let amount = info.amount.unwrap();
        assert_eq!(amount.value, Amount::Constant { value: Constant::Fraction(1, 1) });
        assert_eq!(amount.span.from, 13);
        assert_eq!(amount.span.to, 14);

        let unit = info.unit.unwrap();
        assert_eq!(unit.value, Unit::Kilogram);
        assert_eq!(unit.span.from, 15);
        assert_eq!(unit.span.to, 17);
    }
}

#[test]
fn test_unit_case_insensitive() {
    let info = parse("1 1/2 KG potatoes");

    let amount = info.amount.unwrap();
    assert_eq!(amount.value, Amount::Constant { value: Constant::Fraction(3, 2) });
    assert_eq!(amount.span.from, 0);
    assert_eq!(amount.span.to, 5);

    let unit = info.unit.unwrap();
    assert_eq!(unit.value, Unit::Kilogram);
    assert_eq!(unit.span.from, 6);
    assert_eq!(unit.span.to, 8);
}

#[test]
fn test_space_between_unit_and_ingredient() {
    // not "1 L ettuce"
    let info = parse("1 lettuce");
    assert!(info.amount.is_some());
    assert!(info.unit.is_none());

    // not "8 t omatoes"
    let info = parse("8 tomatoes");
    assert!(info.amount.is_some());
    assert!(info.unit.is_none());

    // not "olive oi L"
    let info = parse("olive oil");
    assert!(info.amount.is_none());
    assert!(info.unit.is_none());
}

#[test]
fn test_simple_fractions() {
    let value = Amount::Constant { value: Constant::Fraction(2, 3) };

    assert_eq!(parse("2/3").amount.unwrap().value, value);
    assert_eq!(parse("2 /3").amount.unwrap().value, value);
    assert_eq!(parse("2/ 3").amount.unwrap().value, value);
    assert_eq!(parse("2 / 3").amount.unwrap().value, value);
}

#[test]
fn test_compound_fractions() {
    let value = Amount::Constant { value: Constant::Fraction(5, 3) };

    assert_eq!(parse("1 2/3").amount.unwrap().value, value);
    assert_eq!(parse("1 2 /3").amount.unwrap().value, value);
    assert_eq!(parse("1 2/ 3").amount.unwrap().value, value);
    assert_eq!(parse("1 2 / 3").amount.unwrap().value, value);
}

#[test]
fn test_ingredient_only() {
    let info = parse("lettuce");
    assert!(info.amount.is_none());
    assert!(info.unit.is_none());
}

#[test]
fn test_space_between_word_digit_and_unit() {
    // not "a L milk"
    let info = parse("Al milk");
    assert!(info.unit.is_none());
    assert!(info.amount.is_none());
}

#[test]
fn test_amount_only() {
    let info = parse("1");
    assert!(info.amount.is_some());

    let info = parse("1/2 - 2/3");
    assert!(info.amount.is_some());

    let info = parse(".3");
    assert!(info.amount.is_some());

    let info = parse("one");
    assert!(info.amount.is_some());
}

#[test]
fn test_unit_only() {
    let info = parse("kg");
    assert_eq!(info.unit.unwrap().value, Unit::Kilogram);

    let info = parse("handful");
    assert_eq!(info.unit.unwrap().value, Unit::Handful);
}

#[test]
fn test_quantity_only() {
    let info = parse("1 kg");
    println!("INFO: {:?}", info);
    assert!(info.amount.is_some());
    assert!(info.unit.is_some());

    let info = parse(" 2 g ");
    assert!(info.amount.is_some());
    assert!(info.unit.is_some());
}

#[test]
fn test_space_in_unit() {
    let info = parse("salt & pepper to taste");
    assert_eq!(info.unit.unwrap().value, Unit::ToTaste);
}

#[test]
fn ingredient_name_and_span_follow_the_unit() {
    let info = parse("1 1/2 kg potatoes");
    let name = info.ingredient.unwrap();
    assert_eq!(name.value, "potatoes");
    assert_eq!(name.span, Span { from: 9, to: 17 });
}

#[test]
fn unit_alone_has_no_amount() {
    let info = parse("kg");
    assert!(info.amount.is_none());
    assert!(info.ingredient.is_none());
    assert_eq!(info.unit.unwrap().span, Span { from: 0, to: 2 });
}

#[test]
fn name_before_a_trailing_unit() {
    let info = parse("salt & pepper to taste");
    assert!(info.amount.is_none());
    let unit = info.unit.unwrap();
    assert_eq!(unit.span, Span { from: 14, to: 22 });
    let name = info.ingredient.unwrap();
    assert_eq!(name.value, "salt & pepper");
    assert_eq!(name.span, Span { from: 0, to: 13 });
}

#[test]
fn reverse_name_keeps_the_parenthesized_aside() {
    let info = parse("Flour (2 kg) 1 kg");
    let name = info.ingredient.unwrap();
    assert_eq!(name.value, "Flour (2 kg)");
    assert_eq!(name.span, Span { from: 0, to: 12 });
}

#[test]
fn decimals_take_either_separator() {
    let info = parse("1,5 kg flour");
    assert_eq!(
        info.amount.unwrap().value,
        Amount::Constant { value: Constant::Float(Decimal { mantissa: 15, scale: 1 }) }
    );
    let info = parse("1.5 kg flour");
    assert_eq!(
        info.amount.unwrap().value,
        Amount::Constant { value: Constant::Float(Decimal { mantissa: 15, scale: 1 }) }
    );
    let info = parse(".3");
    let amount = info.amount.unwrap();
    assert_eq!(amount.value, Amount::Constant { value: Constant::Float(Decimal { mantissa: 3, scale: 1 }) });
    assert_eq!(amount.span, Span { from: 0, to: 2 });
}

#[test]
fn glyph_alone_and_after_a_space() {
    assert_eq!(parse("½ cup sugar").amount.unwrap().value, fraction(1, 2));
    let info = parse("2 ¾ cups flour");
    let amount = info.amount.unwrap();
    assert_eq!(amount.value, fraction(11, 4));
    assert_eq!(amount.span, Span { from: 0, to: 4 });
    assert_eq!(info.unit.unwrap().span, Span { from: 5, to: 9 });
    let info = parse("⅔ cup milk");
    assert_eq!(info.amount.unwrap().value, fraction(2, 3));
    assert_eq!(info.unit.unwrap().span, Span { from: 4, to: 7 });
}

#[test]
fn fractions_are_not_reduced_and_ranges_not_ordered() {
    assert_eq!(parse("2/4 cup").amount.unwrap().value, fraction(2, 4));
    assert_eq!(
        parse("3-2 lb").amount.unwrap().value,
        Amount::Range {
            value_from: Constant::Fraction(3, 1),
            value_to: Constant::Fraction(2, 1)
        }
    );
    assert_eq!(
        parse("1/2 - 2/3").amount.unwrap().value,
        Amount::Range {
            value_from: Constant::Fraction(1, 2),
            value_to: Constant::Fraction(2, 3)
        }
    );
}

#[test]
fn number_words_and_prepositions() {
    let info = parse("a pinch of salt");
    assert_eq!(info.amount.unwrap().value, fraction(1, 1));
    assert_eq!(info.unit.unwrap().value, Unit::Pinch);
    let name = info.ingredient.unwrap();
    assert_eq!(name.value, "salt");
    assert_eq!(name.span, Span { from: 11, to: 15 });

    let info = parse("Two cloves garlic");
    assert_eq!(info.amount.unwrap().value, fraction(2, 1));
    assert_eq!(info.unit.unwrap().value, Unit::Clove);
}

#[test]
fn longest_unit_form_wins() {
    let info = parse("3 ounces chocolate");
    let unit = info.unit.unwrap();
    assert_eq!(unit.value, Unit::Ounce);
    assert_eq!(unit.span, Span { from: 2, to: 8 });
    assert_eq!(info.ingredient.unwrap().value, "chocolate");

    let info = parse("2 tablespoons oil");
    assert_eq!(info.unit.unwrap().span, Span { from: 2, to: 13 });
}

#[test]
fn tokens_followed_by_letters_are_not_tokens() {
    let info = parse("2 kgx flour");
    assert!(info.unit.is_none());
    assert_eq!(info.ingredient.unwrap().value, "kgx flour");

    let info = parse("twox eggs");
    assert!(info.amount.is_none());

    let info = parse("ofx 2");
    assert_eq!(info.ingredient.unwrap().value, "ofx");
    assert_eq!(info.amount.unwrap().value, fraction(2, 1));

    let info = parse("2 gé");
    assert!(info.unit.is_none());
}

#[test]
fn empty_and_blank_lines_hold_nothing() {
    for line in ["", "   "] {
        let info = parse(line);
        assert!(info.amount.is_none());
        assert!(info.unit.is_none());
        assert!(info.ingredient.is_none());
    }
}

#[test]
fn numbers_that_do_not_fit_are_text() {
    let info = parse("99999999999 apples");
    assert!(info.amount.is_none());
    assert_eq!(info.ingredient.unwrap().value, "99999999999 apples");

    assert_eq!(parse("4294967295").amount.unwrap().value, fraction(4294967295, 1));
}

#[test]
fn zero_denominator_is_no_fraction() {
    let info = parse("1/0 cup");
    assert_eq!(info.amount.unwrap().value, fraction(1, 1));
    assert_eq!(info.ingredient.unwrap().value, "/0 cup");
}

#[test]
fn spans_count_bytes_and_cut_at_characters() {
    let line = "crème fraîche 200 g";
    let info = parse(line);
    let name = info.ingredient.unwrap();
    assert_eq!(name.value, "crème fraîche");
    assert_eq!(&line[name.span.from..name.span.to], name.value);
    let amount = info.amount.unwrap();
    assert_eq!(amount.span, Span { from: 16, to: 19 });
    assert_eq!(&line[amount.span.from..amount.span.to], "200");
    let unit = info.unit.unwrap();
    assert_eq!(&line[unit.span.from..unit.span.to], "g");
    assert!(amount.span.to <= unit.span.from);
    assert!(name.span.to <= amount.span.from);
}

#[test]
fn trailing_white_space_is_not_part_of_the_name() {
    let info = parse("  2 cups  rice \t");
    assert_eq!(info.amount.unwrap().span, Span { from: 2, to: 3 });
    let name = info.ingredient.unwrap();
    assert_eq!(name.value, "rice");
    assert_eq!(name.span, Span { from: 10, to: 14 });
}

#[test]
fn underscore_continues_a_word() {
    let info = parse("1 kg_");
    assert!(info.unit.is_none());
    assert_eq!(info.amount.unwrap().value, fraction(1, 1));
    assert_eq!(info.ingredient.unwrap().value, "kg_");

    let info = parse("one_ egg");
    assert!(info.amount.is_none());

    let info = parse("2 cups of_x");
    assert_eq!(info.unit.unwrap().value, Unit::Cup);
    assert_eq!(info.ingredient.unwrap().value, "of_x");
}
