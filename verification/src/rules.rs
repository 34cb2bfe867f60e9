//! The lexical rules: which lexeme starts at a given position of a text.

use std::num::ParseIntError;
use vstd::prelude::*;

use crate::chars::{decimal_value, lemma_run_end_maximal, run_end, skip_run, string_of, CharClass};
use crate::error::{LexingError, LexingErrorView};
use crate::gate::Gate;
use crate::std_specs::{parse_u16, radix10_u16};
use crate::token::Token;

verus! {

/// The failure that the integer parser of the standard library reports for
/// `run`, where it reports one.
pub open spec fn parse_failure(run: Seq<char>) -> ParseIntError {
    radix10_u16(run)->Err_0
}

/// What a maximal run of digits stands for: the terminal whose number the
/// digits denote, if that number fits in sixteen bits; otherwise the error
/// that carries the failure of the standard library's integer parser on the
/// run.
pub open spec fn number_lexeme(run: Seq<char>) -> Result<Token, LexingErrorView> {
    if decimal_value(run) <= u16::MAX {
        Ok(Token::TerminalId(decimal_value(run) as u16))
    } else {
        Err(LexingErrorView::ParseIntError(parse_failure(run)))
    }
}

/// What a maximal run of letters stands for: a gate, if it names one, or
/// the error of the classifier.
pub open spec fn word_lexeme(run: Seq<char>) -> Result<Token, LexingErrorView> {
    match Gate::classified(run) {
        Ok(gate) => Ok(Token::Gate(gate)),
        Err(e) => Err(e),
    }
}

/// The lexeme that starts at position `at` of `s`: its token, if it has one,
/// and the position just behind it. The rules are tried in this order:
/// a parenthesis, a maximal run of digits, a maximal run of letters, a
/// maximal run of blanks, which has no token. Any other character is an
/// error. At the end of the text there is no token, and the position stays.
pub open spec fn lexeme_at(s: Seq<char>, at: int) -> Result<(Option<Token>, int), LexingErrorView> {
    if !(0 <= at < s.len()) {
        Ok((None, at))
    } else if s[at] == '(' {
        Ok((Some(Token::ParenOpen), at + 1))
    } else if s[at] == ')' {
        Ok((Some(Token::ParenClose), at + 1))
    } else if CharClass::Digit.has(s[at]) {
        let end = run_end(s, at, CharClass::Digit);
        match number_lexeme(s.subrange(at, end)) {
            Ok(token) => Ok((Some(token), end)),
            Err(e) => Err(e),
        }
    } else if CharClass::Letter.has(s[at]) {
        let end = run_end(s, at, CharClass::Letter);
        match word_lexeme(s.subrange(at, end)) {
            Ok(token) => Ok((Some(token), end)),
            Err(e) => Err(e),
        }
    } else if CharClass::Blank.has(s[at]) {
        Ok((None, run_end(s, at, CharClass::Blank)))
    } else {
        Err(LexingErrorView::Other)
    }
}

/// A lexeme inside the text is not empty and ends inside the text.
pub proof fn lemma_lexeme_advances(s: Seq<char>, at: int)
    requires
        0 <= at < s.len(),
    ensures
        lexeme_at(s, at) matches Ok((_, end)) ==> at < end <= s.len(),
{
    lemma_run_end_maximal(s, at, CharClass::Digit);
    lemma_run_end_maximal(s, at, CharClass::Letter);
    lemma_run_end_maximal(s, at, CharClass::Blank);
    lemma_run_end_maximal(s, at + 1, CharClass::Digit);
    lemma_run_end_maximal(s, at + 1, CharClass::Letter);
    lemma_run_end_maximal(s, at + 1, CharClass::Blank);
}

/// Reads the lexeme that starts at position `at` of `chars`.
pub fn next_lexeme(chars: &[char], at: usize) -> (r: Result<(Option<Token>, usize), LexingError>)
    ensures
        match r {
            Ok((token, end)) => lexeme_at(chars@, at as int) == Ok::<
                (Option<Token>, int),
                LexingErrorView,
            >((token, end as int)),
            Err(e) => lexeme_at(chars@, at as int) == Err::<(Option<Token>, int), LexingErrorView>(
                e@,
            ),
        },
{
    if at >= chars.len() {
        return Ok((None, at));
    }
    let c = chars[at];
    if c == '(' {
        Ok((Some(Token::ParenOpen), at + 1))
    } else if c == ')' {
        Ok((Some(Token::ParenClose), at + 1))
    } else if CharClass::Digit.contains(c) {
        let end = skip_run(chars, at, CharClass::Digit);
        proof {
            lemma_run_end_maximal(chars@, at as int, CharClass::Digit);
            lemma_run_end_maximal(chars@, at + 1, CharClass::Digit);
        }
        let run = string_of(&chars[at..end]);
        match Token::from_parsed(parse_u16(run.as_str())) {
            Ok(token) => Ok((Some(token), end)),
            Err(e) => Err(e),
        }
    } else if CharClass::Letter.contains(c) {
        let end = skip_run(chars, at, CharClass::Letter);
        proof {
            lemma_run_end_maximal(chars@, at as int, CharClass::Letter);
        }
        match Gate::classify_chars(&chars[at..end]) {
            Ok(gate) => Ok((Some(Token::Gate(gate)), end)),
            Err(e) => Err(e),
        }
    } else if CharClass::Blank.contains(c) {
        Ok((None, skip_run(chars, at, CharClass::Blank)))
    } else {
        Err(LexingError::Other)
    }
}

} // verus!
