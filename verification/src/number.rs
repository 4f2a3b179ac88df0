//! The numeric value type of a cell, and the two operations the library
//! needs from it: parsing a numeric value out of text, and rendering one
//! back to text.
//!
//! The value type is `kserd::Number`, which gives total equality and
//! ordering across integer and floating representations. It is opaque
//! here: the library never looks inside a number, it only carries numbers
//! between the parser and the caller.

use vstd::prelude::*;

verus! {

#[verifier::external_type_specification]
#[verifier::external_body]
pub struct ExNumber(kserd::Number);

/// The numeric value, if any, that `kserd`'s grammar reads out of a piece
/// of text. `kserd::Number::from_str` computes from its input string
/// alone, so the outcome is a function of the text.
pub uninterp spec fn number_of(s: Seq<char>) -> Option<kserd::Number>;

/// Relies on `kserd::Number`'s `FromStr` impl: whether text parses as a
/// number, and as which number, depends only on the text itself.
#[verifier::external_body]
pub(crate) fn parse_number(s: &str) -> (r: Option<kserd::Number>)
    ensures
        r == number_of(s@),
{
    s.parse::<kserd::Number>().ok()
}

/// Relies on `kserd::Number` being `Copy`: its derived `Clone` returns the
/// value itself.
pub assume_specification[ <kserd::Number as Clone>::clone ](n: &kserd::Number) -> (r: kserd::Number)
    ensures
        r == *n,
;

/// How two numeric values compare. `kserd::Number`'s `PartialOrd` impl
/// computes from the two held values alone, so the outcome is a function
/// of the pair.
pub uninterp spec fn num_cmp(a: kserd::Number, b: kserd::Number) -> Option<core::cmp::Ordering>;

/// Relies on `kserd::Number`'s `PartialOrd` impl: the comparison depends
/// only on the two numeric values.
pub assume_specification[ <kserd::Number as PartialOrd>::partial_cmp ](
    a: &kserd::Number,
    b: &kserd::Number,
) -> (r: Option<core::cmp::Ordering>)
    ensures
        r == num_cmp(*a, *b),
;

/// The text that `kserd` renders a numeric value as. `kserd::Number`'s
/// `Display` impl writes the held integer or float with the standard
/// formatter, so the text is a function of the value alone.
pub uninterp spec fn num_str_of(n: kserd::Number) -> Seq<char>;

/// Relies on `kserd::Number`'s `Display` impl: the rendering depends on
/// the numeric value alone.
#[verifier::external_body]
pub(crate) fn number_to_string(n: &kserd::Number) -> (r: String)
    ensures
        r@ == num_str_of(*n),
{
    n.to_string()
}

} // verus!
