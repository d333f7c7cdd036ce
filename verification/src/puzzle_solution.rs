//! The fixed-length answer word of a puzzle, and the validation errors of
//! the word types.

use vstd::prelude::*;

use crate::ascii::{
    ascii_bytes_to_string, decimal_string, is_letter, spec_decimal, spec_is_letter, spec_is_lower,
    spec_to_lower, to_lower,
};
use crate::PUZZLE_LETTERS_COUNT;

verus! {

/// The answer word of one puzzle instance: exactly
/// [`PUZZLE_LETTERS_COUNT`] ASCII letters, stored lowercase. A player's
/// guess is validated by the same rules, so the type doubles as the guess
/// word handed to the matcher.
#[derive(Debug, Clone, PartialEq, Eq)]
pub struct PuzzleSolution {
    word: String,
}

/// Why a string was rejected as a puzzle word.
#[derive(Debug, Clone, Copy, PartialEq, Eq, Structural)]
pub enum PuzzleWordError {
    /// The string does not have exactly [`PUZZLE_LETTERS_COUNT`] characters;
    /// carries the count it had.
    TooFewOrTooManyLetters(usize),
    /// The string contains a character that is not an ASCII letter.
    ContainsNonAsciiAlphabeticLetters,
}

/// The textual description of a word error.
pub open spec fn spec_word_error_message(e: PuzzleWordError) -> Seq<char> {
    match e {
        PuzzleWordError::TooFewOrTooManyLetters(count) => if count > 5 {
            "too many letters: "@ + spec_decimal(count as int) + "! must be 5"@
        } else {
            "too few letters: "@ + spec_decimal(count as int) + "! must be 5"@
        },
        PuzzleWordError::ContainsNonAsciiAlphabeticLetters => {
            "cannot contain non ascii alphabetic letters!!"@
        },
    }
}

impl PuzzleWordError {
    /// The human-readable description of this error.
    pub fn message(&self) -> (r: String)
        ensures
            r@ == spec_word_error_message(*self),
    {
        match self {
            PuzzleWordError::TooFewOrTooManyLetters(count) => {
                let mut s = if *count > 5 {
                    String::from_str("too many letters: ")
                } else {
                    String::from_str("too few letters: ")
                };
                let num = decimal_string(*count);
                s.append(num.as_str());
                s.append("! must be 5");
                proof {
                    assert(s@ =~= spec_word_error_message(*self));
                }
                s
            },
            PuzzleWordError::ContainsNonAsciiAlphabeticLetters => {
                String::from_str("cannot contain non ascii alphabetic letters!!")
            },
        }
    }
}

impl View for PuzzleSolution {
    type V = Seq<char>;

    closed spec fn view(&self) -> Seq<char> {
        self.word@
    }
}

impl PuzzleSolution {
    /// A valid solution holds exactly [`PUZZLE_LETTERS_COUNT`] ASCII
    /// lowercase letters.
    pub open spec fn wf(&self) -> bool {
        self@.len() == PUZZLE_LETTERS_COUNT && (forall|i: int|
            0 <= i < self@.len() ==> spec_is_lower(self@[i]))
    }

    /// Validates and normalizes a word: it must have exactly
    /// [`PUZZLE_LETTERS_COUNT`] characters, all ASCII alphabetic, and is
    /// stored lowercased.
    pub fn new(s: &str) -> (r: Result<PuzzleSolution, PuzzleWordError>)
        ensures
            r matches Ok(sol) ==> sol.wf() && sol@ == s@.map_values(|c: char| spec_to_lower(c)),
            r is Ok <==> s@.len() == PUZZLE_LETTERS_COUNT && (forall|i: int|
                0 <= i < s@.len() ==> spec_is_letter(s@[i])),
            s@.len() != PUZZLE_LETTERS_COUNT ==> r == Err::<PuzzleSolution, PuzzleWordError>(
                PuzzleWordError::TooFewOrTooManyLetters(s@.len() as usize),
            ),
            s@.len() == PUZZLE_LETTERS_COUNT && !(forall|i: int|
                0 <= i < s@.len() ==> spec_is_letter(s@[i])) ==> r == Err::<
                PuzzleSolution,
                PuzzleWordError,
            >(PuzzleWordError::ContainsNonAsciiAlphabeticLetters),
    {
        let len = s.unicode_len();
        if len != PUZZLE_LETTERS_COUNT {
            return Err(PuzzleWordError::TooFewOrTooManyLetters(len));
        }
        let mut bytes: Vec<u8> = Vec::new();
        let mut i: usize = 0;
        while i < len
            invariant
                len == s@.len(),
                len == PUZZLE_LETTERS_COUNT,
                0 <= i <= len,
                bytes@.len() == i,
                forall|j: int| 0 <= j < i ==> spec_is_letter(s@[j]),
                forall|j: int| 0 <= j < i ==> bytes@[j] == spec_to_lower(s@[j]) as u8,
                forall|j: int| 0 <= j < i ==> bytes@[j] < 128,
            decreases len - i,
        {
            let c = s.get_char(i);
            if !is_letter(c) {
                return Err(PuzzleWordError::ContainsNonAsciiAlphabeticLetters);
            }
            bytes.push(to_lower(c) as u8);
            i += 1;
        }
        let word = ascii_bytes_to_string(bytes);
        let sol = PuzzleSolution { word };
        proof {
            assert(sol@ =~= s@.map_values(|c: char| spec_to_lower(c)));
        }
        Ok(sol)
    }

    /// The stored lowercase word.
    pub fn inner(&self) -> (r: &str)
        ensures
            r@ == self@,
    {
        self.word.as_str()
    }

    /// The characters of the word, in order.
    pub fn letters(&self) -> (r: Vec<char>)
        ensures
            r@ == self@,
    {
        let text = self.word.as_str();
        let len = text.unicode_len();
        let mut chars: Vec<char> = Vec::new();
        let mut i: usize = 0;
        while i < len
            invariant
                len == text@.len(),
                text@ == self@,
                0 <= i <= len,
                chars@ =~= self@.take(i as int),
            decreases len - i,
        {
            chars.push(text.get_char(i));
            i += 1;
        }
        proof {
            assert(chars@ =~= self@);
        }
        chars
    }
}

} // verus!
