//! A raw five-character puzzle word, kept as typed, without case
//! normalization or an alphabet check.

use vstd::prelude::*;

use crate::puzzle_solution::PuzzleWordError;
use crate::PUZZLE_LETTERS_COUNT;

verus! {

/// A word of exactly [`PUZZLE_LETTERS_COUNT`] characters, stored as it
/// was given. Unlike [`crate::PuzzleSolution`] it neither lowercases nor
/// restricts the alphabet; only the length is enforced.
#[derive(Debug, Clone, PartialEq, Eq)]
pub struct PuzzleWord {
    text: String,
}

impl View for PuzzleWord {
    type V = Seq<char>;

    closed spec fn view(&self) -> Seq<char> {
        self.text@
    }
}

impl PuzzleWord {
    /// A valid word holds exactly [`PUZZLE_LETTERS_COUNT`] characters.
    pub open spec fn wf(&self) -> bool {
        self@.len() == PUZZLE_LETTERS_COUNT
    }

    /// Accepts any text of exactly [`PUZZLE_LETTERS_COUNT`] characters.
    pub fn new(word: &str) -> (r: Result<PuzzleWord, PuzzleWordError>)
        ensures
            word@.len() == PUZZLE_LETTERS_COUNT ==> (r matches Ok(w) && w@ == word@ && w.wf()),
            word@.len() != PUZZLE_LETTERS_COUNT ==> r == Err::<PuzzleWord, PuzzleWordError>(
                PuzzleWordError::TooFewOrTooManyLetters(word@.len() as usize),
            ),
    {
        let count = word.unicode_len();
        if count == PUZZLE_LETTERS_COUNT {
            Ok(PuzzleWord { text: word.to_owned() })
        } else {
            Err(PuzzleWordError::TooFewOrTooManyLetters(count))
        }
    }

    /// The characters of the word, in order.
    pub fn inner(&self) -> (r: Vec<char>)
        ensures
            r@ == self@,
    {
        let text = self.text.as_str();
        let len = text.unicode_len();
        let mut chars: Vec<char> = Vec::new();
        let mut i: usize = 0;
        while i < len
            invariant
                len == text@.len(),
                text@ == self@,
                0 <= i <= len,
                chars@ =~= self@.take(i as int),
            decreases len - i,
        {
            chars.push(text.get_char(i));
            i += 1;
        }
        proof {
            assert(chars@ =~= self@);
        }
        chars
    }

    /// The word as text.
    pub fn to_string(&self) -> (r: String)
        ensures
            r@ == self@,
    {
        self.text.clone()
    }
}

} // verus!
