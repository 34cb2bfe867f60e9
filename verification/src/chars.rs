//! Character classes of the language, and the decimal reading of digit runs.

use vstd::prelude::*;

verus! {

/// The three classes of characters from which runs are formed.
#[derive(Clone, Copy, Debug, PartialEq, Eq, Structural)]
pub enum CharClass {
    /// `0` to `9`.
    Digit,
    /// `a` to `z` and `A` to `Z`.
    Letter,
    /// Space, tab, newline and form feed.
    Blank,
}

impl CharClass {
    /// Whether `c` belongs to this class.
    pub open spec fn has(self, c: char) -> bool {
        match self {
            CharClass::Digit => '0' <= c && c <= '9',
            CharClass::Letter => ('a' <= c && c <= 'z') || ('A' <= c && c <= 'Z'),
            CharClass::Blank => c == ' ' || c == '\t' || c == '\n' || c == '\x0c',
        }
    }

    /// Whether every character of `s` belongs to this class.
    pub open spec fn has_all(self, s: Seq<char>) -> bool {
        forall|k: int| 0 <= k < s.len() ==> self.has(#[trigger] s[k])
    }

    /// Tests whether `c` belongs to this class.
    pub fn contains(self, c: char) -> (b: bool)
        ensures
            b == self.has(c),
    {
        match self {
            CharClass::Digit => '0' <= c && c <= '9',
            CharClass::Letter => ('a' <= c && c <= 'z') || ('A' <= c && c <= 'Z'),
            CharClass::Blank => c == ' ' || c == '\t' || c == '\n' || c == '\x0c',
        }
    }
}

/// The upper-case form of `c`: `a` to `z` become `A` to `Z`, every other
/// character stays as it is.
pub open spec fn upper(c: char) -> char {
    if 'a' <= c && c <= 'z' {
        ((c as u8) - 32) as char
    } else {
        c
    }
}

/// Computes the upper-case form of `c`.
pub fn to_upper(c: char) -> (u: char)
    ensures
        u == upper(c),
{
    if 'a' <= c && c <= 'z' {
        ((c as u8) - 32) as char
    } else {
        c
    }
}

/// Where the maximal run of characters of `class` that starts at `from` ends:
/// the first position at or after `from` that holds no character of `class`.
pub open spec fn run_end(s: Seq<char>, from: int, class: CharClass) -> int
    decreases s.len() - from,
{
    if 0 <= from < s.len() && class.has(s[from]) {
        run_end(s, from + 1, class)
    } else {
        from
    }
}

/// A run is maximal: it lies within the text, holds only characters of its
/// class, and is followed by the end of the text or by a character outside
/// the class.
pub proof fn lemma_run_end_maximal(s: Seq<char>, from: int, class: CharClass)
    requires
        0 <= from <= s.len(),
    ensures
        from <= run_end(s, from, class) <= s.len(),
        forall|k: int| from <= k < run_end(s, from, class) ==> class.has(#[trigger] s[k]),
        run_end(s, from, class) < s.len() ==> !class.has(s[run_end(s, from, class)]),
    decreases s.len() - from,
{
    if from < s.len() && class.has(s[from]) {
        lemma_run_end_maximal(s, from + 1, class);
    }
}

/// There is one maximal run from a position: a stretch of characters of the
/// class that is followed by the end of the text, or by a character outside
/// the class, is the run.
pub proof fn lemma_run_end_unique(s: Seq<char>, from: int, end: int, class: CharClass)
    requires
        0 <= from <= end <= s.len(),
        forall|k: int| from <= k < end ==> class.has(#[trigger] s[k]),
        end < s.len() ==> !class.has(s[end]),
    ensures
        run_end(s, from, class) == end,
    decreases end - from,
{
    if from < end {
        lemma_run_end_unique(s, from + 1, end, class);
    }
}

/// Finds the end of the maximal run of `class` that starts at `from`.
pub fn skip_run(chars: &[char], from: usize, class: CharClass) -> (end: usize)
    ensures
        end == run_end(chars@, from as int, class),
{
    let mut end: usize = from;
    while end < chars.len() && class.contains(chars[end])
        invariant
            from <= end,
            end <= chars@.len() || end == from,
            run_end(chars@, from as int, class) == run_end(chars@, end as int, class),
        decreases chars@.len() - end,
    {
        end += 1;
    }
    end
}

/// The text `s` as a vector of its characters.
pub fn chars_of(s: &str) -> (v: Vec<char>)
    ensures
        v@ == s@,
{
    let mut v: Vec<char> = Vec::new();
    for c in it: s.chars()
        invariant
            it.seq() == s@,
            v@ == s@.take(it.index() as int),
    {
        v.push(c);
        assert(v@ =~= s@.take(it.index() + 1));
    }
    assert(v@ =~= s@);
    v
}

/// The characters of `chars` as a string.
pub fn string_of(chars: &[char]) -> (text: String)
    ensures
        text@ == chars@,
{
    let mut text = String::new();
    let mut k: usize = 0;
    while k < chars.len()
        invariant
            k <= chars@.len(),
            text@ == chars@.take(k as int),
        decreases chars@.len() - k,
    {
        text.push(chars[k]);
        k += 1;
        assert(text@ =~= chars@.take(k as int));
    }
    assert(text@ =~= chars@);
    text
}

/// The number that the decimal digit `c` stands for.
pub open spec fn digit_value(c: char) -> nat {
    (c as nat - '0' as nat) as nat
}

/// The number that the digits of `s` denote in base ten, leading zeros
/// allowed; zero for the empty sequence.
pub open spec fn decimal_value(s: Seq<char>) -> nat
    decreases s.len(),
{
    if s.len() == 0 {
        0
    } else {
        decimal_value(s.drop_last()) * 10 + digit_value(s.last())
    }
}

/// The decimal digit that stands for `d`, for `d` below ten.
pub open spec fn digit_char(d: nat) -> char {
    (d + '0' as nat) as char
}

/// The decimal digits of `n`, without leading zeros; `0` for zero.
pub open spec fn decimal_digits(n: nat) -> Seq<char>
    decreases n,
{
    if n < 10 {
        seq![digit_char(n)]
    } else {
        decimal_digits(n / 10).push(digit_char(n % 10))
    }
}

/// The decimal digits of a number are a non-empty run of digits that denotes
/// that number.
pub proof fn lemma_decimal_digits(n: nat)
    ensures
        decimal_digits(n).len() > 0,
        CharClass::Digit.has_all(decimal_digits(n)),
        decimal_value(decimal_digits(n)) == n,
    decreases n,
{
    if n < 10 {
        assert(decimal_digits(n).drop_last() =~= Seq::<char>::empty());
        assert(decimal_value(decimal_digits(n).drop_last()) == 0);
    } else {
        lemma_decimal_digits(n / 10);
        assert(decimal_digits(n).drop_last() =~= decimal_digits(n / 10));
    }
}

/// Appends the decimal digits of `n` to `out`.
pub fn push_decimal(out: &mut String, n: u16)
    ensures
        final(out)@ == old(out)@ + decimal_digits(n as nat),
    decreases n,
{
    if n >= 10 {
        push_decimal(out, n / 10);
    }
    let d: u8 = (n % 10) as u8;
    out.push((d + 48) as char);
}

} // verus!
