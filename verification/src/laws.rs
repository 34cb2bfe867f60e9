//! Laws of the lexer, stated over its model and proved from it.

use vstd::prelude::*;

use crate::chars::{
    decimal_digits, lemma_decimal_digits, lemma_run_end_maximal, lemma_run_end_unique, run_end,
    upper, CharClass,
};
use crate::error::LexingErrorView;
use crate::gate::{uppercase, Gate};
use crate::lexer::{balanced, checked, count_of, followed_by, scan_from, tokens_of};
use crate::rules::{lemma_lexeme_advances, lexeme_at};
use crate::token::Token;

verus! {

/// The tokens of one scan followed by those of another; the error of the
/// first scan, if it has one, else that of the second.
pub open spec fn chained(
    first: Result<Seq<Token>, LexingErrorView>,
    second: Result<Seq<Token>, LexingErrorView>,
) -> Result<Seq<Token>, LexingErrorView> {
    match first {
        Ok(tokens) => followed_by(tokens, second),
        Err(e) => Err(e),
    }
}

/// A single token that is no parenthesis is balanced.
proof fn lemma_single_balanced(t: Token)
    requires
        t != Token::ParenOpen,
        t != Token::ParenClose,
    ensures
        balanced(seq![t]),
{
    assert(seq![t].drop_last() =~= Seq::<Token>::empty());
    assert(count_of(seq![t].drop_last(), Token::ParenOpen) == 0);
    assert(count_of(seq![t].drop_last(), Token::ParenClose) == 0);
}

/// A text that is one run of a class has that run as its only lexeme.
proof fn lemma_whole_run(s: Seq<char>, class: CharClass)
    requires
        s.len() > 0,
        class.has_all(s),
    ensures
        run_end(s, 0, class) == s.len(),
        s.subrange(0, s.len() as int) == s,
{
    lemma_run_end_unique(s, 0, s.len() as int, class);
    assert(s.subrange(0, s.len() as int) =~= s);
}

/// The decimal digits of every 16-bit number lex to the one terminal of that
/// number.
pub proof fn lemma_number_lexes_to_terminal(n: u16)
    ensures
        tokens_of(decimal_digits(n as nat)) == Ok::<Seq<Token>, LexingErrorView>(
            seq![Token::TerminalId(n)],
        ),
{
    let s = decimal_digits(n as nat);
    lemma_decimal_digits(n as nat);
    lemma_whole_run(s, CharClass::Digit);
    assert(CharClass::Digit.has(s[0]));
    let t = Token::TerminalId(n);
    assert(lexeme_at(s, 0) == Ok::<(Option<Token>, int), LexingErrorView>(
        (Some(t), s.len() as int),
    ));
    assert(scan_from(s, s.len() as int) == Ok::<Seq<Token>, LexingErrorView>(Seq::empty()));
    assert(seq![t] + Seq::<Token>::empty() =~= seq![t]);
    lemma_single_balanced(t);
}

/// Every gate is the one that its canonical name names.
pub proof fn lemma_named_by_name(gate: Gate)
    ensures
        Gate::named(gate.spec_name()) == Some(gate),
{
    let name = gate.spec_name();
    assert forall|other: Gate| other != gate implies name != other.spec_name() by {
        if name.len() == other.spec_name().len() {
            assert(exists|k: int| 0 <= k < name.len() && name[k] != other.spec_name()[k]);
        }
    }
}

/// The name of a gate, in any casing of its letters, lexes to the one token
/// of that gate.
pub proof fn lemma_gate_word_lexes_to_gate(word: Seq<char>, gate: Gate)
    requires
        uppercase(word) == gate.spec_name(),
    ensures
        tokens_of(word) == Ok::<Seq<Token>, LexingErrorView>(seq![Token::Gate(gate)]),
{
    let name = gate.spec_name();
    assert(word.len() == name.len());
    assert forall|k: int| 0 <= k < word.len() implies CharClass::Letter.has(
        #[trigger] word[k],
    ) by {
        assert(upper(word[k]) == uppercase(word)[k]);
        assert('A' <= name[k] && name[k] <= 'Z');
    }
    lemma_whole_run(word, CharClass::Letter);
    lemma_named_by_name(gate);
    assert(CharClass::Letter.has(word[0]));
    let t = Token::Gate(gate);
    assert(lexeme_at(word, 0) == Ok::<(Option<Token>, int), LexingErrorView>(
        (Some(t), word.len() as int),
    ));
    assert(scan_from(word, word.len() as int) == Ok::<Seq<Token>, LexingErrorView>(
        Seq::empty(),
    ));
    assert(seq![t] + Seq::<Token>::empty() =~= seq![t]);
    lemma_single_balanced(t);
}

/// A scan that starts inside a stretch of blanks goes on as if it started
/// behind the stretch.
proof fn lemma_scan_skips_blanks(s: Seq<char>, at: int, to: int)
    requires
        0 <= at <= to <= s.len(),
        forall|k: int| at <= k < to ==> CharClass::Blank.has(#[trigger] s[k]),
    ensures
        scan_from(s, at) == scan_from(s, to),
    decreases to - at,
{
    if at < to {
        let end = run_end(s, at, CharClass::Blank);
        lemma_run_end_maximal(s, at, CharClass::Blank);
        lemma_run_end_maximal(s, at + 1, CharClass::Blank);
        assert(scan_from(s, at) == scan_from(s, end));
        if end < to {
            lemma_scan_skips_blanks(s, end, to);
        } else if to < end {
            lemma_run_end_unique(s, to, end, CharClass::Blank);
            lemma_lexeme_advances(s, to);
            assert(scan_from(s, to) == scan_from(s, end));
        }
    }
}

/// The lexeme at a position of a text is the lexeme at the same place of
/// any text of which the first is the end.
proof fn lemma_lexeme_suffix(p: Seq<char>, b: Seq<char>, at: int)
    requires
        0 <= at < b.len(),
    ensures
        match lexeme_at(b, at) {
            Ok((token, end)) => lexeme_at(p + b, p.len() + at) == Ok::<
                (Option<Token>, int),
                LexingErrorView,
            >((token, p.len() + end)),
            Err(e) => lexeme_at(p + b, p.len() + at) == Err::<
                (Option<Token>, int),
                LexingErrorView,
            >(e),
        },
{
    let s = p + b;
    let n = p.len() as int;
    assert(s[n + at] == b[at]);
    let class = if CharClass::Digit.has(b[at]) {
        CharClass::Digit
    } else if CharClass::Letter.has(b[at]) {
        CharClass::Letter
    } else {
        CharClass::Blank
    };
    let end = run_end(b, at, class);
    lemma_run_end_maximal(b, at, class);
    assert forall|k: int| n + at <= k < n + end implies class.has(#[trigger] s[k]) by {
        assert(s[k] == b[k - n]);
    }
    if end < b.len() {
        assert(s[n + end] == b[end]);
    }
    lemma_run_end_unique(s, n + at, n + end, class);
    assert(s.subrange(n + at, n + end) =~= b.subrange(at, end));
}

/// The scan of the end of a text does not depend on what stands before it.
proof fn lemma_scan_suffix(p: Seq<char>, b: Seq<char>, at: int)
    requires
        0 <= at <= b.len(),
    ensures
        scan_from(p + b, p.len() + at) == scan_from(b, at),
    decreases b.len() - at,
{
    if at < b.len() {
        lemma_lexeme_suffix(p, b, at);
        lemma_lexeme_advances(b, at);
        if let Ok((_, end)) = lexeme_at(b, at) {
            lemma_scan_suffix(p, b, end);
        }
    }
}

/// The lexeme at a position of a text that is followed by a blank is the
/// lexeme at the same position of the text alone, unless it is a run of
/// blanks.
proof fn lemma_lexeme_prefix(a: Seq<char>, r: Seq<char>, at: int)
    requires
        0 <= at < a.len(),
        r.len() > 0,
        CharClass::Blank.has(r[0]),
        !CharClass::Blank.has(a[at]),
    ensures
        lexeme_at(a + r, at) == lexeme_at(a, at),
{
    let s = a + r;
    assert(s[at] == a[at]);
    let class = if CharClass::Digit.has(a[at]) {
        CharClass::Digit
    } else {
        CharClass::Letter
    };
    let end = run_end(a, at, class);
    lemma_run_end_maximal(a, at, class);
    assert forall|k: int| at <= k < end implies class.has(#[trigger] s[k]) by {
        assert(s[k] == a[k]);
    }
    if end < a.len() {
        assert(s[end] == a[end]);
    } else {
        assert(s[end] == r[0]);
    }
    lemma_run_end_unique(s, at, end, class);
    assert(s.subrange(at, end) =~= a.subrange(at, end));
}

/// Chaining is associative on a leading token.
proof fn lemma_chained_step(
    t: Token,
    first: Result<Seq<Token>, LexingErrorView>,
    second: Result<Seq<Token>, LexingErrorView>,
)
    ensures
        followed_by(seq![t], chained(first, second)) == chained(
            followed_by(seq![t], first),
            second,
        ),
{
    if let Ok(x) = first {
        if let Ok(y) = second {
            assert(seq![t] + (x + y) =~= (seq![t] + x) + y);
        }
    }
}

/// The scan of a text that is followed by a blank is the scan of the text
/// alone, chained with the scan from the blank on.
proof fn lemma_scan_prefix(a: Seq<char>, r: Seq<char>, at: int)
    requires
        0 <= at <= a.len(),
        r.len() > 0,
        CharClass::Blank.has(r[0]),
    ensures
        scan_from(a + r, at) == chained(scan_from(a, at), scan_from(a + r, a.len() as int)),
    decreases a.len() - at,
{
    let s = a + r;
    let tail = scan_from(s, a.len() as int);
    if at == a.len() {
        if let Ok(more) = tail {
            assert(Seq::<Token>::empty() + more =~= more);
        }
    } else if CharClass::Blank.has(a[at]) {
        assert(s[at] == a[at]);
        lemma_scan_skips_blanks(a, at, at + 1);
        lemma_scan_skips_blanks(s, at, at + 1);
        lemma_scan_prefix(a, r, at + 1);
    } else {
        lemma_lexeme_prefix(a, r, at);
        lemma_lexeme_advances(a, at);
        if let Ok((token, end)) = lexeme_at(a, at) {
            lemma_scan_prefix(a, r, end);
            if let Some(t) = token {
                lemma_chained_step(t, scan_from(a, end), tail);
            }
        }
    }
}

/// A run of blanks between two texts emits no token and keeps the texts
/// apart: the whole lexes to the tokens of the first text followed by those
/// of the second, and fails where either of them fails, the first one first.
pub proof fn lemma_blanks_separate(a: Seq<char>, blanks: Seq<char>, b: Seq<char>)
    requires
        blanks.len() > 0,
        CharClass::Blank.has_all(blanks),
    ensures
        scan_from(a + blanks + b, 0) == chained(scan_from(a, 0), scan_from(b, 0)),
        tokens_of(a + blanks + b) == checked(chained(scan_from(a, 0), scan_from(b, 0))),
{
    let r = blanks + b;
    let s = a + r;
    assert(s =~= a + blanks + b);
    assert(r[0] == blanks[0]);
    lemma_scan_prefix(a, r, 0);
    let from = a.len() as int;
    let to = from + blanks.len();
    assert forall|k: int| from <= k < to implies CharClass::Blank.has(#[trigger] s[k]) by {
        assert(s[k] == blanks[k - from]);
    }
    lemma_scan_skips_blanks(s, from, to);
    lemma_scan_suffix(a + blanks, b, 0);
}

/// What a text lexes to does not depend on how long a run of blanks in it
/// is, nor on which blanks it is made of.
pub proof fn lemma_blanks_collapse(a: Seq<char>, blanks: Seq<char>, others: Seq<char>, b: Seq<char>)
    requires
        blanks.len() > 0,
        others.len() > 0,
        CharClass::Blank.has_all(blanks),
        CharClass::Blank.has_all(others),
    ensures
        tokens_of(a + blanks + b) == tokens_of(a + others + b),
{
    lemma_blanks_separate(a, blanks, b);
    lemma_blanks_separate(a, others, b);
}

/// A text of blanks alone has no tokens.
pub proof fn lemma_blanks_alone(blanks: Seq<char>)
    requires
        CharClass::Blank.has_all(blanks),
    ensures
        tokens_of(blanks) == Ok::<Seq<Token>, LexingErrorView>(Seq::empty()),
{
    lemma_scan_skips_blanks(blanks, 0, blanks.len() as int);
}

/// What a token is rendered as scans back to that token alone.
pub proof fn lemma_text_scans_back(t: Token)
    ensures
        scan_from(t.spec_text(), 0) == Ok::<Seq<Token>, LexingErrorView>(seq![t]),
{
    let s = t.spec_text();
    match t {
        Token::TerminalId(id) => {
            lemma_number_lexes_to_terminal(id);
        },
        Token::Gate(gate) => {
            assert(uppercase(gate.spec_name()) =~= gate.spec_name());
            lemma_gate_word_lexes_to_gate(gate.spec_name(), gate);
        },
        _ => {
            assert(scan_from(s, 1) == Ok::<Seq<Token>, LexingErrorView>(Seq::empty()));
            assert(seq![t] + Seq::<Token>::empty() =~= seq![t]);
        },
    }
}

/// Blanks before a text and behind it change nothing of what it lexes to.
pub proof fn lemma_blanks_around(before: Seq<char>, s: Seq<char>, behind: Seq<char>)
    requires
        CharClass::Blank.has_all(before),
        CharClass::Blank.has_all(behind),
    ensures
        tokens_of(before + s + behind) == tokens_of(s),
{
    let empty = Seq::<char>::empty();
    let inner = if behind.len() > 0 {
        lemma_blanks_separate(s, behind, empty);
        assert(s + behind + empty =~= s + behind);
        s + behind
    } else {
        assert(s + behind =~= s);
        s
    };
    if let Ok(tokens) = scan_from(s, 0) {
        assert(tokens + Seq::<Token>::empty() =~= tokens);
    }
    assert(scan_from(inner, 0) == scan_from(s, 0));
    if before.len() > 0 {
        lemma_blanks_separate(empty, before, inner);
        assert(empty + before + inner =~= before + s + behind);
        if let Ok(tokens) = scan_from(inner, 0) {
            assert(Seq::<Token>::empty() + tokens =~= tokens);
        }
    } else {
        assert(before + s + behind =~= inner);
    }
}

/// No lexeme fails with a mismatch of parentheses.
proof fn lemma_scan_never_mismatch(s: Seq<char>, at: int)
    ensures
        scan_from(s, at) != Err::<Seq<Token>, LexingErrorView>(
            LexingErrorView::ParenCountMismatch,
        ),
    decreases s.len() - at,
{
    if 0 <= at < s.len() {
        lemma_lexeme_advances(s, at);
        if let Ok((_, end)) = lexeme_at(s, at) {
            lemma_scan_never_mismatch(s, end);
        }
    }
}

/// The balance of the parentheses is a matter of the whole text: a mismatch
/// is reported exactly when every lexeme of the text is valid and the tokens
/// do not hold as many opening as closing parentheses; and the tokens of a
/// text that lexes are balanced.
pub proof fn lemma_balance_is_global(s: Seq<char>)
    ensures
        tokens_of(s) == Err::<Seq<Token>, LexingErrorView>(LexingErrorView::ParenCountMismatch)
            <==> (scan_from(s, 0) matches Ok(tokens) && !balanced(tokens)),
        tokens_of(s) matches Ok(tokens) ==> balanced(tokens) && scan_from(s, 0) == Ok::<
            Seq<Token>,
            LexingErrorView,
        >(tokens),
{
    lemma_scan_never_mismatch(s, 0);
}

} // verus!
