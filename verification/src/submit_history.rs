//! The bounded, append-only record of one session's scored guesses, and
//! the decision core of the submission operation.

use vstd::prelude::*;

use crate::ascii::{decimal_string, spec_decimal};
use crate::puzzle_solution::PuzzleSolution;
use crate::submit_letter::SubmitLetter;
use crate::submit_word::{spec_tint, spec_word_solved, spec_word_wf, SubmitWord};
use crate::{HISTORY_MAX_TRIES, PUZZLE_LETTERS_COUNT};

verus! {

/// Whether some word of a history view solved the puzzle.
pub open spec fn spec_solved(h: Seq<Seq<SubmitLetter>>) -> bool {
    exists|i: int| 0 <= i < h.len() && spec_word_solved(h[i])
}

/// A valid history view: every recorded word is well formed.
pub open spec fn spec_history_wf(h: Seq<Seq<SubmitLetter>>) -> bool {
    forall|i: int| 0 <= i < h.len() ==> spec_word_wf(#[trigger] h[i])
}

/// Whether a history still accepts a submission: neither solved nor at
/// the attempt ceiling.
pub open spec fn spec_submit_allowed(h: Seq<Seq<SubmitLetter>>) -> bool {
    h.len() < HISTORY_MAX_TRIES && !spec_solved(h)
}

/// The ordered record of a session's scored guesses for one puzzle.
/// Guesses are only ever appended, through [`SubmitHistory::submit`],
/// which enforces the attempt ceiling and the solved state.
#[derive(Debug, Clone, PartialEq, Eq)]
pub struct SubmitHistory {
    words: Vec<SubmitWord>,
}

impl View for SubmitHistory {
    type V = Seq<Seq<SubmitLetter>>;

    closed spec fn view(&self) -> Seq<Seq<SubmitLetter>> {
        Seq::new(self.words@.len(), |i: int| self.words@[i]@)
    }
}

/// Why a submission was rejected.
#[derive(Debug, Clone, Copy, PartialEq, Eq, Structural)]
pub enum SubmitHistoryError {
    /// The history is terminal: solved, or already holding `max` guesses.
    TooManyTimes { max: usize },
}

/// The textual description of a submission error.
pub open spec fn spec_history_error_message(e: SubmitHistoryError) -> Seq<char> {
    match e {
        SubmitHistoryError::TooManyTimes { max } => {
            "submitted for too many times, exceeding the maximum constraint of "@ + spec_decimal(
                max as int,
            )
        },
    }
}

impl SubmitHistoryError {
    /// The human-readable description of this error.
    pub fn message(&self) -> (r: String)
        ensures
            r@ == spec_history_error_message(*self),
    {
        match self {
            SubmitHistoryError::TooManyTimes { max } => {
                let mut s = String::from_str(
                    "submitted for too many times, exceeding the maximum constraint of ",
                );
                let num = decimal_string(*max);
                s.append(num.as_str());
                proof {
                    assert(s@ =~= spec_history_error_message(*self));
                }
                s
            },
        }
    }
}

impl SubmitHistory {
    /// Every recorded word is well formed.
    pub open spec fn wf(&self) -> bool {
        spec_history_wf(self@)
    }

    /// Builds a history directly from already-scored words.
    pub fn from_words(words: Vec<SubmitWord>) -> (r: SubmitHistory)
        ensures
            r@.len() == words@.len(),
            forall|i: int| 0 <= i < words@.len() ==> r@[i] == words@[i]@,
    {
        SubmitHistory { words }
    }

    /// Creates the empty history a player starts a puzzle with.
    pub fn new() -> (r: SubmitHistory)
        ensures
            r@ =~= Seq::<Seq<SubmitLetter>>::empty(),
            r.wf(),
    {
        SubmitHistory { words: Vec::new() }
    }

    /// The number of submitted guesses.
    pub fn len(&self) -> (r: usize)
        ensures
            r == self@.len(),
    {
        self.words.len()
    }

    /// Whether no guess has been submitted yet.
    pub fn is_empty(&self) -> (r: bool)
        ensures
            r == (self@.len() == 0),
    {
        self.words.len() == 0
    }

    /// The fixed number of letters of every word in the puzzle.
    pub fn letters_count(&self) -> (r: usize)
        ensures
            r == PUZZLE_LETTERS_COUNT,
    {
        PUZZLE_LETTERS_COUNT
    }

    /// How many submissions are still allowed before the ceiling.
    pub fn remaining_tries(&self) -> (r: usize)
        ensures
            self@.len() >= HISTORY_MAX_TRIES ==> r == 0,
            self@.len() < HISTORY_MAX_TRIES ==> r == HISTORY_MAX_TRIES - self@.len(),
    {
        let n = self.words.len();
        if n >= HISTORY_MAX_TRIES {
            0
        } else {
            HISTORY_MAX_TRIES - n
        }
    }

    /// Whether every recorded word is valid. Lets unverified callers
    /// establish the precondition of the JSON encoder.
    pub fn is_wf(&self) -> (r: bool)
        ensures
            r == self.wf(),
    {
        let n = self.words.len();
        let mut i: usize = 0;
        while i < n
            invariant
                n == self@.len(),
                n == self.words@.len(),
                0 <= i <= n,
                forall|j: int| 0 <= j < i ==> spec_word_wf(#[trigger] self@[j]),
            decreases n - i,
        {
            if !self.words[i].is_wf() {
                proof {
                    assert(!spec_word_wf(self@[i as int]));
                }
                return false;
            }
            i += 1;
        }
        true
    }

    /// Whether some submitted guess solved the puzzle.
    pub fn is_solved(&self) -> (r: bool)
        ensures
            r == spec_solved(self@),
    {
        let n = self.words.len();
        let mut i: usize = 0;
        while i < n
            invariant
                n == self@.len(),
                n == self.words@.len(),
                0 <= i <= n,
                forall|j: int| 0 <= j < i ==> !spec_word_solved(#[trigger] self@[j]),
            decreases n - i,
        {
            if self.words[i].all_matches() {
                proof {
                    assert(spec_word_solved(self@[i as int]));
                }
                return true;
            }
            i += 1;
        }
        false
    }

    /// Whether the attempt ceiling has been reached.
    pub fn is_full(&self) -> (r: bool)
        ensures
            r == (self@.len() >= HISTORY_MAX_TRIES),
    {
        self.words.len() >= HISTORY_MAX_TRIES
    }

    /// Borrows the scored word at position `i`.
    pub fn word_at(&self, i: usize) -> (r: &SubmitWord)
        requires
            i < self@.len(),
        ensures
            r@ == self@[i as int],
    {
        &self.words[i]
    }

    /// Appends one scored guess, unless the history is terminal.
    ///
    /// The record is append-only: entries already present are never
    /// shrunk, reordered or rewritten, so the guess count never
    /// decreases. Once the history is solved or holds
    /// [`HISTORY_MAX_TRIES`] guesses it rejects every further submission
    /// and stays unchanged.
    pub fn submit(&mut self, word: SubmitWord) -> (r: Result<(), SubmitHistoryError>)
        ensures
            old(self).wf() && word.wf() ==> final(self).wf(),
            spec_submit_allowed(old(self)@) ==> r is Ok && final(self)@ =~= old(self)@.push(
                word@,
            ),
            !spec_submit_allowed(old(self)@) ==> r == Err::<(), SubmitHistoryError>(
                SubmitHistoryError::TooManyTimes { max: HISTORY_MAX_TRIES },
            ) && final(self)@ =~= old(self)@,
            final(self)@.len() >= old(self)@.len(),
            forall|i: int| 0 <= i < old(self)@.len() ==> final(self)@[i] == old(self)@[i],
    {
        if self.words.len() < HISTORY_MAX_TRIES && !self.is_solved() {
            self.words.push(word);
            proof {
                assert(self@ =~= old(self)@.push(word@));
            }
            Ok(())
        } else {
            Err(SubmitHistoryError::TooManyTimes { max: HISTORY_MAX_TRIES })
        }
    }

    /// Borrows the underlying word storage.
    pub(crate) fn words_ref(&self) -> (r: &Vec<SubmitWord>)
        ensures
            r@.len() == self@.len(),
            forall|i: int| 0 <= i < self@.len() ==> r@[i]@ == self@[i],
    {
        &self.words
    }

    /// The scored words in submission order, by value.
    pub fn into_vec(self) -> (r: Vec<SubmitWord>)
        ensures
            r@.len() == self@.len(),
            forall|i: int| 0 <= i < self@.len() ==> r@[i]@ == self@[i],
    {
        self.words
    }
}

impl Default for SubmitHistory {
    /// The empty history.
    fn default() -> (r: SubmitHistory)
        ensures
            r@ =~= Seq::<Seq<SubmitLetter>>::empty(),
            r.wf(),
    {
        SubmitHistory::new()
    }
}

/// Exhaustion enforcement: a history holding [`HISTORY_MAX_TRIES`]
/// guesses accepts no further submission.
pub proof fn lemma_full_history_rejects(h: Seq<Seq<SubmitLetter>>)
    requires
        h.len() >= HISTORY_MAX_TRIES,
    ensures
        !spec_submit_allowed(h),
{
}

/// Solved terminality: a solved history accepts no further submission.
pub proof fn lemma_solved_history_rejects(h: Seq<Seq<SubmitLetter>>)
    requires
        spec_solved(h),
    ensures
        !spec_submit_allowed(h),
{
}

/// Solved terminality: appending never unsolves a history.
pub proof fn lemma_solved_is_stable(h: Seq<Seq<SubmitLetter>>, w: Seq<SubmitLetter>)
    requires
        spec_solved(h),
    ensures
        spec_solved(h.push(w)),
{
    let i = choose|i: int| 0 <= i < h.len() && spec_word_solved(h[i]);
    assert(h.push(w)[i] == h[i]);
}

/// Outcome of applying one submission to a loaded history record.
#[derive(Debug, Clone)]
pub struct SubmitResult {
    /// The history after the submission.
    pub submit_history: SubmitHistory,
    /// Whether the record was flagged as scored against an outdated
    /// solution; passed through unchanged.
    pub is_dirty: bool,
    /// Whether the puzzle is completed after this submission.
    pub is_completed: bool,
}

/// The view of an optionally stored history: absent means empty.
pub open spec fn spec_stored_history(stored: Option<SubmitHistory>) -> Seq<Seq<SubmitLetter>> {
    match stored {
        Some(h) => h@,
        None => Seq::empty(),
    }
}

/// The decision core of one submission against a loaded history record.
///
/// A record already marked completed is returned unchanged and the
/// submission is ignored. Otherwise the guess `answer` is scored against
/// `solution`, appended (subject to the ceiling and the solved state),
/// and the record reports whether this guess completed the puzzle.
pub fn submit_to_history(
    stored: Option<SubmitHistory>,
    is_dirty: bool,
    is_completed: bool,
    answer: &PuzzleSolution,
    solution: &PuzzleSolution,
) -> (r: Result<SubmitResult, SubmitHistoryError>)
    requires
        answer.wf(),
        solution.wf(),
    ensures
        is_completed ==> (r matches Ok(res) && res.submit_history@ == spec_stored_history(stored)
            && res.is_dirty == is_dirty && res.is_completed),
        !is_completed && spec_submit_allowed(spec_stored_history(stored)) ==> (r matches Ok(res)
            && res.submit_history@ =~= spec_stored_history(stored).push(
            spec_tint(answer@, solution@),
        ) && res.is_dirty == is_dirty && res.is_completed == spec_word_solved(
            spec_tint(answer@, solution@),
        )),
        !is_completed && !spec_submit_allowed(spec_stored_history(stored)) ==> r == Err::<
            SubmitResult,
            SubmitHistoryError,
        >(SubmitHistoryError::TooManyTimes { max: HISTORY_MAX_TRIES }),
{
    let mut history = match stored {
        Some(h) => h,
        None => SubmitHistory::new(),
    };
    if is_completed {
        return Ok(SubmitResult { submit_history: history, is_dirty, is_completed: true });
    }
    let word = SubmitWord::tint(answer, solution);
    let solved = word.all_matches();
    match history.submit(word) {
        Ok(_) => Ok(SubmitResult { submit_history: history, is_dirty, is_completed: solved }),
        Err(err) => Err(err),
    }
}

} // verus!
