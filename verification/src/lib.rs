//! Gameplay core of a daily word-guessing puzzle service.
//!
//! The library scores a guessed word against a secret solution with the
//! classic two-pass letter-matching rules (exact matches first, then
//! partial matches fed from a shared remaining-letter budget), and keeps a
//! bounded, append-only history of scored guesses per puzzle session.

use vstd::prelude::*;

mod ascii;
mod json;
mod matching;
mod puzzle_date;
mod puzzle_solution;
mod puzzle_word;
mod sha256;
mod submit_history;
mod submit_letter;
mod submit_word;
mod text;

pub use matching::Matches;
pub use puzzle_date::PuzzleDate;
pub use puzzle_date::PuzzleDateError;
pub use puzzle_solution::PuzzleSolution;
pub use puzzle_solution::PuzzleWordError;
pub use puzzle_word::PuzzleWord;
pub use sha256::sha256_hex_to_bytes;
pub use sha256::HexDecodeError;
pub use submit_history::submit_to_history;
pub use submit_history::SubmitHistory;
pub use submit_history::SubmitHistoryError;
pub use submit_history::SubmitResult;
pub use submit_letter::SubmitLetter;
pub use submit_word::SubmitWord;

verus! {

/// Number of letters in every puzzle word.
pub const PUZZLE_LETTERS_COUNT: usize = 5;

/// Maximum number of guesses a participant may submit per puzzle.
pub const HISTORY_MAX_TRIES: usize = 6;

} // verus!
