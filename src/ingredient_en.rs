//! The values recognized in an ingredient line, and the entry point that
//! reads them.

use vstd::prelude::*;
use vstd::string::StringSliceAdditionalSpecFns;
use vstd::utf8::*;
use crate::dictionary_en::Unit;
use crate::grammar::{layout, read_layout};
use crate::spans::spans_in_order;

verus! {

/// A byte range `[from, to)` of the line.
#[derive(Clone, Copy, Debug, PartialEq, Eq, Structural)]
pub struct Span {
    pub from: usize,
    pub to: usize,
}

/// A number written with a decimal separator: `mantissa / 10^scale`.
#[derive(Clone, Copy, Debug, PartialEq, Eq, Structural)]
pub struct Decimal {
    pub mantissa: u64,
    pub scale: u32,
}

/// An exact quantity: a fraction as written (not reduced), or a decimal number.
#[derive(Clone, Copy, Debug, PartialEq, Eq, Structural)]
pub enum Constant {
    Fraction(u32, u32),
    Float(Decimal),
}

/// A single quantity, or a range of two.
#[derive(Clone, Copy, Debug, PartialEq, Eq, Structural)]
pub enum Amount {
    Range { value_from: Constant, value_to: Constant },
    Constant { value: Constant },
}

/// A value with the span of the line it was read from.
#[derive(Debug, PartialEq, Eq, Structural)]
pub struct ValueWithSpan<T> {
    pub value: T,
    pub span: Span,
}

/// What a line holds, with the span of each part.
#[derive(Debug)]
pub struct IngredientInfo {
    pub amount: Option<ValueWithSpan<Amount>>,
    pub unit: Option<ValueWithSpan<Unit>>,
    pub ingredient: Option<ValueWithSpan<String>>,
}

/// Where the parts of a line stand: the amount and unit read, and the span of
/// the ingredient's name.
#[derive(Debug, PartialEq, Eq, Structural)]
pub struct Layout {
    pub amount: Option<ValueWithSpan<Amount>>,
    pub unit: Option<ValueWithSpan<Unit>>,
    pub ingredient: Option<Span>,
}

/// The ingredient's name as read: its text is the line's bytes in its span.
pub open spec fn name_read(b: Seq<u8>, got: Option<ValueWithSpan<String>>, at: Option<Span>) -> bool {
    match (got, at) {
        (Some(v), Some(s)) => v.span == s && encode_utf8(v.value@) == b.subrange(
            s.from as int,
            s.to as int,
        ),
        (None, None) => true,
        _ => false,
    }
}

/// The text of `s` between two character boundaries.
fn substring(s: &str, from: usize, to: usize) -> (r: String)
    requires
        from <= to <= s.spec_bytes().len(),
        is_char_boundary(s.spec_bytes(), from as int),
        is_char_boundary(s.spec_bytes(), to as int),
    ensures
        encode_utf8(r@) == s.spec_bytes().subrange(from as int, to as int),
{
    proof {
        encode_utf8_valid_utf8(s@);
    }
    let (head, _) = s.split_at(to);
    proof {
        let hb = head.spec_bytes();
        encode_utf8_valid_utf8(head@);
        is_char_boundary_start_end_of_seq(hb);
        if from < to {
            is_char_boundary_iff_not_is_continuation_byte(s.spec_bytes(), from as int);
            is_char_boundary_iff_not_is_continuation_byte(hb, from as int);
        }
    }
    let (_, mid) = head.split_at(from);
    proof {
        assert(head.spec_bytes().subrange(from as int, to as int) =~= s.spec_bytes().subrange(
            from as int,
            to as int,
        ));
    }
    mid.to_owned()
}

/// Reads the amount, unit and ingredient name of one line, with their spans,
/// as `layout` states. Every line is read: a part that the line lacks is
/// `None`.
pub fn parse(str: &str) -> (info: IngredientInfo)
    ensures
        info.amount == layout(str.spec_bytes()).amount,
        info.unit == layout(str.spec_bytes()).unit,
        name_read(str.spec_bytes(), info.ingredient, layout(str.spec_bytes()).ingredient),
{
    let b = str.as_bytes();
    let l = read_layout(b);
    let len = b.len();
    proof {
        assert(b@.len() == len);
        encode_utf8_valid_utf8(str@);
        spans_in_order(b@);
    }
    let ingredient = match l.ingredient {
        Some(s) => Some(ValueWithSpan { value: substring(str, s.from, s.to), span: s }),
        None => None,
    };
    IngredientInfo { amount: l.amount, unit: l.unit, ingredient }
}

} // verus!
