//! The tokens of the language.

use std::num::ParseIntError;
use vstd::prelude::*;

use crate::chars::{decimal_digits, push_decimal};
use crate::error::{LexingError, LexingErrorView};
use crate::gate::Gate;

verus! {

/// The number of a terminal.
pub type TerminalId = u16;

/// The smallest classified unit of a text.
#[derive(Clone, Copy, Debug, PartialEq, Eq, Structural)]
pub enum Token {
    /// `(`
    ParenOpen,
    /// `)`
    ParenClose,
    /// A terminal, written as a run of decimal digits.
    TerminalId(TerminalId),
    /// A gate, written as its name in any case.
    Gate(Gate),
}

impl Token {
    /// How the token is written: a parenthesis as itself, a terminal as its
    /// decimal digits, a gate as its canonical name.
    pub open spec fn spec_text(self) -> Seq<char> {
        match self {
            Token::ParenOpen => seq!['('],
            Token::ParenClose => seq![')'],
            Token::TerminalId(id) => decimal_digits(id as nat),
            Token::Gate(gate) => gate.spec_name(),
        }
    }

    /// The token that a parsed run of digits stands for, or the error that
    /// carries the parser's failure.
    pub open spec fn of_parsed(parsed: Result<u16, ParseIntError>) -> Result<
        Token,
        LexingErrorView,
    > {
        match parsed {
            Ok(id) => Ok(Token::TerminalId(id)),
            Err(e) => Err(LexingErrorView::ParseIntError(e)),
        }
    }

    /// Renders the token as text.
    pub fn text(&self) -> (s: String)
        ensures
            s@ == self.spec_text(),
    {
        let mut s = String::new();
        match self {
            Token::ParenOpen => {
                s.push('(');
                assert(s@ =~= self.spec_text());
            },
            Token::ParenClose => {
                s.push(')');
                assert(s@ =~= self.spec_text());
            },
            Token::TerminalId(id) => {
                push_decimal(&mut s, *id);
                assert(s@ =~= self.spec_text());
            },
            Token::Gate(gate) => {
                s = gate.name().to_owned();
            },
        }
        s
    }

    /// Turns the outcome of parsing a run of digits into a terminal token, or
    /// into the error that carries the parser's failure.
    pub fn from_parsed(parsed: Result<u16, ParseIntError>) -> (r: Result<Token, LexingError>)
        ensures
            match r {
                Ok(token) => Token::of_parsed(parsed) == Ok::<Token, LexingErrorView>(token),
                Err(e) => Token::of_parsed(parsed) == Err::<Token, LexingErrorView>(e@),
            },
    {
        match parsed {
            Ok(id) => Ok(Token::TerminalId(id)),
            Err(e) => Err(LexingError::from(e)),
        }
    }
}

} // verus!
