//! What this library takes on trust from the standard library.
//!
//! Nothing in this file is proved. Each item states what the documentation of
//! the standard library says of the function it names.

use vstd::prelude::*;

use crate::chars::{decimal_value, CharClass};

verus! {

/// `std::num::ParseIntError`, carried through as an opaque value.
#[verifier::external_type_specification]
#[verifier::external_body]
pub struct ExParseIntError(std::num::ParseIntError);

/// Cloning a `std::num::ParseIntError` gives an equal value.
pub assume_specification[ <std::num::ParseIntError as Clone>::clone ](
    e: &std::num::ParseIntError,
) -> (r: std::num::ParseIntError)
    ensures
        r == *e,
;

/// `String::push` appends one character to the end of the string.
pub assume_specification[ String::push ](s: &mut String, c: char)
    ensures
        final(s)@ == old(s)@.push(c),
;

/// What `u16::from_str_radix` returns for a text read in base ten.
pub uninterp spec fn radix10_u16(text: Seq<char>) -> Result<u16, std::num::ParseIntError>;

/// Calls `u16::from_str_radix` with radix ten, which does not panic for that
/// radix. The result is a function of the text alone. For a text that is a
/// non-empty run of decimal digits the call succeeds exactly when the number
/// the digits denote fits in sixteen bits, and then returns that number.
#[verifier::external_body]
pub(crate) fn parse_u16(text: &str) -> (r: Result<u16, std::num::ParseIntError>)
    ensures
        r == radix10_u16(text@),
        text@.len() > 0 && CharClass::Digit.has_all(text@) ==> (r is Ok <==> decimal_value(text@)
            <= u16::MAX),
        text@.len() > 0 && CharClass::Digit.has_all(text@) ==> (r matches Ok(v) ==> v
            == decimal_value(text@)),
{
    u16::from_str_radix(text, 10)
}

} // verus!
