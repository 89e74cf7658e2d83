//! Recognition of quantity, unit and ingredient name in a single line of a
//! recipe's ingredient list, with the byte span that each value came from.

pub mod text;
pub mod vulgar_fractions;
pub mod dictionary_en;
pub mod ingredient_en;
pub mod grammar;
pub mod spans;
pub mod theorems;
