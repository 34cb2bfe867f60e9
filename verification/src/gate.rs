//! The six gates and the classifier that resolves a keyword to one of them.

use vstd::prelude::*;

use crate::chars::{chars_of, string_of, to_upper, upper};
use crate::error::{LexingError, LexingErrorView};

verus! {

/// A logic gate.
#[derive(Clone, Copy, Debug, PartialEq, Eq, Structural)]
pub enum Gate {
    And,
    Or,
    Not,
    Nand,
    Nor,
    Xor,
}

/// `s` with each of its characters in upper case.
pub open spec fn uppercase(s: Seq<char>) -> Seq<char> {
    Seq::new(s.len(), |k: int| upper(s[k]))
}

impl Gate {
    /// The canonical name of this gate, in upper case.
    pub open spec fn spec_name(self) -> Seq<char> {
        match self {
            Gate::And => seq!['A', 'N', 'D'],
            Gate::Or => seq!['O', 'R'],
            Gate::Not => seq!['N', 'O', 'T'],
            Gate::Nand => seq!['N', 'A', 'N', 'D'],
            Gate::Nor => seq!['N', 'O', 'R'],
            Gate::Xor => seq!['X', 'O', 'R'],
        }
    }

    /// The one gate whose canonical name is exactly `name`, if there is one.
    pub open spec fn named(name: Seq<char>) -> Option<Gate> {
        if name == Gate::And.spec_name() {
            Some(Gate::And)
        } else if name == Gate::Or.spec_name() {
            Some(Gate::Or)
        } else if name == Gate::Not.spec_name() {
            Some(Gate::Not)
        } else if name == Gate::Nand.spec_name() {
            Some(Gate::Nand)
        } else if name == Gate::Nor.spec_name() {
            Some(Gate::Nor)
        } else if name == Gate::Xor.spec_name() {
            Some(Gate::Xor)
        } else {
            None
        }
    }

    /// What the classifier makes of `word`: a gate, if the word names one when
    /// put in upper case, or the error that holds the word in upper case.
    pub open spec fn classified(word: Seq<char>) -> Result<Gate, LexingErrorView> {
        match Gate::named(uppercase(word)) {
            Some(gate) => Ok(gate),
            None => Err(LexingErrorView::NoSuchGate(uppercase(word))),
        }
    }

    /// The canonical name of this gate, in upper case.
    pub fn name(&self) -> (s: &'static str)
        ensures
            s@ == self.spec_name(),
    {
        proof {
            reveal_strlit("AND");
            reveal_strlit("OR");
            reveal_strlit("NOT");
            reveal_strlit("NAND");
            reveal_strlit("NOR");
            reveal_strlit("XOR");
        }
        let s = match self {
            Gate::And => "AND",
            Gate::Or => "OR",
            Gate::Not => "NOT",
            Gate::Nand => "NAND",
            Gate::Nor => "NOR",
            Gate::Xor => "XOR",
        };
        assert(s@ =~= self.spec_name());
        s
    }

    /// Looks up a gate by its canonical name, which `name` must match exactly.
    pub fn lookup(name: &[char]) -> (g: Option<Gate>)
        ensures
            g == Gate::named(name@),
    {
        let n = name.len();
        let g = if n == 2 {
            if name[0] == 'O' && name[1] == 'R' {
                Some(Gate::Or)
            } else {
                None
            }
        } else if n == 3 {
            if name[0] == 'A' && name[1] == 'N' && name[2] == 'D' {
                Some(Gate::And)
            } else if name[0] == 'N' && name[1] == 'O' && name[2] == 'T' {
                Some(Gate::Not)
            } else if name[0] == 'N' && name[1] == 'O' && name[2] == 'R' {
                Some(Gate::Nor)
            } else if name[0] == 'X' && name[1] == 'O' && name[2] == 'R' {
                Some(Gate::Xor)
            } else {
                None
            }
        } else if n == 4 {
            if name[0] == 'N' && name[1] == 'A' && name[2] == 'N' && name[3] == 'D' {
                Some(Gate::Nand)
            } else {
                None
            }
        } else {
            None
        };
        proof {
            match g {
                Some(gate) => {
                    assert(name@ =~= gate.spec_name());
                },
                None => {
                    assert forall|gate: Gate| name@ != gate.spec_name() by {
                        if name@.len() == gate.spec_name().len() {
                            assert(exists|k: int|
                                0 <= k < name@.len() && name@[k] != gate.spec_name()[k]);
                        }
                    }
                },
            }
        }
        g
    }

    /// Resolves a run of letters to a gate by its name, whatever the case of
    /// its letters.
    pub fn classify_chars(word: &[char]) -> (r: Result<Gate, LexingError>)
        ensures
            match r {
                Ok(gate) => Gate::classified(word@) == Ok::<Gate, LexingErrorView>(gate),
                Err(e) => Gate::classified(word@) == Err::<Gate, LexingErrorView>(e@),
            },
    {
        let mut name: Vec<char> = Vec::new();
        let mut k: usize = 0;
        while k < word.len()
            invariant
                k <= word@.len(),
                name@ == uppercase(word@).take(k as int),
            decreases word@.len() - k,
        {
            name.push(to_upper(word[k]));
            k += 1;
            assert(name@ =~= uppercase(word@).take(k as int));
        }
        assert(name@ =~= uppercase(word@));
        match Gate::lookup(name.as_slice()) {
            Some(gate) => Ok(gate),
            None => Err(LexingError::NoSuchGate(string_of(name.as_slice()))),
        }
    }

    /// Resolves a keyword to a gate by its name, whatever the case of its
    /// letters.
    pub fn classify(word: &str) -> (r: Result<Gate, LexingError>)
        ensures
            match r {
                Ok(gate) => Gate::classified(word@) == Ok::<Gate, LexingErrorView>(gate),
                Err(e) => Gate::classified(word@) == Err::<Gate, LexingErrorView>(e@),
            },
    {
        let chars = chars_of(word);
        Gate::classify_chars(chars.as_slice())
    }
}

} // verus!
