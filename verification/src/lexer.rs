//! The driver: lexes a whole text and checks the balance of its parentheses.

use vstd::prelude::*;

use crate::chars::chars_of;
use crate::error::{LexingError, LexingErrorView};
use crate::rules::{lemma_lexeme_advances, lexeme_at, next_lexeme};
use crate::token::Token;

verus! {

/// `tokens` in front of what the rest of a scan gave.
pub open spec fn followed_by(
    tokens: Seq<Token>,
    rest: Result<Seq<Token>, LexingErrorView>,
) -> Result<Seq<Token>, LexingErrorView> {
    match rest {
        Ok(more) => Ok(tokens + more),
        Err(e) => Err(e),
    }
}

/// The tokens of `s` from position `at` on, in the order of the text, or the
/// error of the first lexeme that has one.
pub open spec fn scan_from(s: Seq<char>, at: int) -> Result<Seq<Token>, LexingErrorView>
    decreases s.len() - at,
{
    if !(0 <= at < s.len()) {
        Ok(Seq::empty())
    } else {
        match lexeme_at(s, at) {
            Err(e) => Err(e),
            Ok((token, end)) => {
                proof {
                    lemma_lexeme_advances(s, at);
                }
                match token {
                    Some(t) => followed_by(seq![t], scan_from(s, end)),
                    None => scan_from(s, end),
                }
            },
        }
    }
}

/// How often `token` occurs in `tokens`.
pub open spec fn count_of(tokens: Seq<Token>, token: Token) -> nat
    decreases tokens.len(),
{
    if tokens.len() == 0 {
        0
    } else if tokens.last() == token {
        count_of(tokens.drop_last(), token) + 1
    } else {
        count_of(tokens.drop_last(), token)
    }
}

/// Whether `tokens` holds as many opening as closing parentheses.
pub open spec fn balanced(tokens: Seq<Token>) -> bool {
    count_of(tokens, Token::ParenOpen) == count_of(tokens, Token::ParenClose)
}

/// The outcome of a scan held to the balance of its parentheses: an error of
/// the scan stays; tokens that are not balanced are a mismatch.
pub open spec fn checked(scan: Result<Seq<Token>, LexingErrorView>) -> Result<
    Seq<Token>,
    LexingErrorView,
> {
    match scan {
        Err(e) => Err(e),
        Ok(tokens) => if balanced(tokens) {
            Ok(tokens)
        } else {
            Err(LexingErrorView::ParenCountMismatch)
        },
    }
}

/// The tokens of the text `s`. An error of a lexeme comes first; only a text
/// whose every lexeme is valid is held to the balance of its parentheses.
pub open spec fn tokens_of(s: Seq<char>) -> Result<Seq<Token>, LexingErrorView> {
    checked(scan_from(s, 0))
}

/// Lexes the whole of `input`.
///
/// Returns the tokens in the order of the text, without the blanks between
/// them. Fails with the error of the first lexeme that is not valid, and
/// with [`LexingError::ParenCountMismatch`] if all are valid but the text
/// does not hold as many `(` as `)`.
pub fn tokenize(input: &str) -> (r: Result<Vec<Token>, LexingError>)
    ensures
        match r {
            Ok(tokens) => tokens_of(input@) == Ok::<Seq<Token>, LexingErrorView>(tokens@),
            Err(e) => tokens_of(input@) == Err::<Seq<Token>, LexingErrorView>(e@),
        },
{
    let chars = chars_of(input);
    let mut tokens: Vec<Token> = Vec::new();
    let mut open: usize = 0;
    let mut close: usize = 0;
    let mut at: usize = 0;
    while at < chars.len()
        invariant
            chars@ == input@,
            at <= chars@.len(),
            tokens@.len() <= at,
            open == count_of(tokens@, Token::ParenOpen),
            close == count_of(tokens@, Token::ParenClose),
            open <= tokens@.len(),
            close <= tokens@.len(),
            scan_from(input@, 0) == followed_by(tokens@, scan_from(input@, at as int)),
        decreases chars@.len() - at,
    {
        proof {
            lemma_lexeme_advances(chars@, at as int);
        }
        match next_lexeme(chars.as_slice(), at) {
            Err(e) => {
                return Err(e);
            },
            Ok((token, end)) => {
                let ghost before = tokens@;
                match token {
                    Some(Token::ParenOpen) => {
                        open += 1;
                    },
                    Some(Token::ParenClose) => {
                        close += 1;
                    },
                    _ => {},
                }
                if let Some(t) = token {
                    tokens.push(t);
                    proof {
                        assert(tokens@.drop_last() =~= before);
                        let rest = scan_from(input@, end as int);
                        if let Ok(more) = rest {
                            assert(before + (seq![t] + more) =~= tokens@ + more);
                        }
                    }
                }
                at = end;
            },
        }
    }
    proof {
        assert(tokens@ + Seq::<Token>::empty() =~= tokens@);
    }
    if open != close {
        return Err(LexingError::ParenCountMismatch);
    }
    Ok(tokens)
}

} // verus!
