//! The ways in which lexing fails.

use std::num::ParseIntError;
use vstd::prelude::*;
use vstd::std_specs::convert::FromSpecImpl;

verus! {

/// Why a text could not be turned into tokens.
#[derive(Clone, Debug, PartialEq)]
pub enum LexingError {
    /// Every lexeme was valid, but the text holds more `(` than `)` or the
    /// other way round.
    ParenCountMismatch,
    /// A run of letters that names no gate; holds the run in upper case.
    NoSuchGate(String),
    /// A run of digits that denotes no 16-bit number; holds the failure that
    /// the integer parser of the standard library reported for the run.
    ParseIntError(ParseIntError),
    /// A character with which no lexeme starts.
    Other,
}

/// A [`LexingError`] as a mathematical value: the offending word is a
/// sequence of characters.
pub enum LexingErrorView {
    ParenCountMismatch,
    NoSuchGate(Seq<char>),
    ParseIntError(ParseIntError),
    Other,
}

impl View for LexingError {
    type V = LexingErrorView;

    open spec fn view(&self) -> LexingErrorView {
        match *self {
            LexingError::ParenCountMismatch => LexingErrorView::ParenCountMismatch,
            LexingError::NoSuchGate(word) => LexingErrorView::NoSuchGate(word@),
            LexingError::ParseIntError(e) => LexingErrorView::ParseIntError(e),
            LexingError::Other => LexingErrorView::Other,
        }
    }
}

impl Default for LexingError {
    /// The catch-all error.
    fn default() -> (e: LexingError)
        ensures
            e == LexingError::Other,
    {
        LexingError::Other
    }
}

impl From<ParseIntError> for LexingError {
    fn from(e: ParseIntError) -> (r: LexingError) {
        LexingError::ParseIntError(e)
    }
}

impl FromSpecImpl<ParseIntError> for LexingError {
    open spec fn obeys_from_spec() -> bool {
        true
    }

    open spec fn from_spec(e: ParseIntError) -> LexingError {
        LexingError::ParseIntError(e)
    }
}

} // verus!
