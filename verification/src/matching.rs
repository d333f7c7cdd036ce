//! Per-letter match classification and its one-character textual symbol.

use vstd::prelude::*;

verus! {

/// How one guessed letter relates to the solution: right letter in the
/// right position (`Yes`), right letter in a wrong position (`Partially`),
/// or not available in the solution at all (`No`).
#[derive(Debug, Clone, Copy, PartialEq, Eq, Structural)]
pub enum Matches {
    Yes,
    Partially,
    No,
}

/// The canonical one-character symbol of a classification:
/// `Yes -> '+'`, `Partially -> '?'`, `No -> '-'`.
pub open spec fn spec_symbol(m: Matches) -> char {
    match m {
        Matches::Yes => '+',
        Matches::Partially => '?',
        Matches::No => '-',
    }
}

/// The classification encoded by a symbol character; any character other
/// than `'+'` or `'?'` decodes to `No`.
pub open spec fn spec_of_symbol(c: char) -> Matches {
    if c == '+' {
        Matches::Yes
    } else if c == '?' {
        Matches::Partially
    } else {
        Matches::No
    }
}

impl Matches {
    /// The canonical textual symbol of this classification.
    pub fn to_str(&self) -> (r: &'static str)
        ensures
            r@ =~= seq![spec_symbol(*self)],
    {
        match self {
            Matches::Yes => {
                proof {
                    reveal_strlit("+");
                }
                "+"
            },
            Matches::Partially => {
                proof {
                    reveal_strlit("?");
                }
                "?"
            },
            Matches::No => {
                proof {
                    reveal_strlit("-");
                }
                "-"
            },
        }
    }

    /// The classification a symbol character stands for.
    pub fn of_symbol(c: char) -> (r: Matches)
        ensures
            r == spec_of_symbol(c),
    {
        if c == '+' {
            Matches::Yes
        } else if c == '?' {
            Matches::Partially
        } else {
            Matches::No
        }
    }

    /// Decoding a symbol undoes encoding it.
    pub proof fn lemma_symbol_round_trip(m: Matches)
        ensures
            spec_of_symbol(spec_symbol(m)) == m,
    {
    }
}

} // verus!
