//! One guessed letter together with its match classification.

use vstd::prelude::*;

use crate::ascii::{spec_is_upper, spec_to_upper, to_upper};
use crate::matching::Matches;

verus! {

/// A letter of a scored guess: the (display, uppercase) character and how
/// it matched the solution. Immutable once produced.
#[derive(Debug, Clone, Copy, PartialEq, Eq, Structural)]
#[verifier::ext_equal]
pub struct SubmitLetter {
    pub letter: char,
    pub matches: Matches,
}

impl SubmitLetter {
    /// A well-formed scored letter carries an ASCII uppercase letter, the
    /// display form shared by every textual encoding.
    pub open spec fn wf(self) -> bool {
        spec_is_upper(self.letter)
    }

    /// Builds a scored letter, normalizing the character to uppercase.
    pub fn new(c: char, matches: Matches) -> (r: SubmitLetter)
        ensures
            r == (SubmitLetter { letter: spec_to_upper(c), matches }),
    {
        SubmitLetter { letter: to_upper(c), matches }
    }
}

} // verus!
