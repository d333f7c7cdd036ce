use wordle::{
    Matches, PuzzleDate, PuzzleSolution, SubmitHistory, SubmitHistoryError, SubmitLetter,
    SubmitWord, HISTORY_MAX_TRIES,
};

fn sol(s: &str) -> PuzzleSolution {
    PuzzleSolution::new(s).unwrap()
}

fn missed_word() -> SubmitWord {
    SubmitWord::tint(&sol("fghij"), &sol("klmno"))
}

#[test]
fn test() {
    let date = PuzzleDate::parse("1970-01-01").unwrap();
    assert_eq!(date.inner(), (1970, 1, 1));
    let solution = PuzzleSolution::new("rusty").unwrap();
    assert_eq!(solution.inner(), "rusty");

    let mut submit_history = SubmitHistory::default();
    submit_history
        .submit(SubmitWord::new(vec![
            SubmitLetter::new('R', Matches::Yes),
            SubmitLetter::new('U', Matches::No),
            SubmitLetter::new('S', Matches::Partially),
            SubmitLetter::new('T', Matches::Yes),
            SubmitLetter::new('Y', Matches::Partially),
        ]))
        .unwrap();
    assert_eq!(submit_history.len(), 1);
}

#[test]
fn test_new_history_is_empty() {
    let history = SubmitHistory::new();
    assert_eq!(history.len(), 0);
    assert!(history.is_empty());
    assert!(!history.is_solved());
    assert!(!history.is_full());
    assert_eq!(history.remaining_tries(), HISTORY_MAX_TRIES);
    assert_eq!(history.letters_count(), 5);
}

#[test]
fn test_history_monotonic_growth() {
    let mut history = SubmitHistory::new();
    let first = missed_word();
    let second = SubmitWord::tint(&sol("erase"), &sol("speed"));
    history.submit(first.clone()).unwrap();
    assert_eq!(history.len(), 1);
    assert_eq!(history.remaining_tries(), HISTORY_MAX_TRIES - 1);
    history.submit(second.clone()).unwrap();
    assert_eq!(history.len(), 2);
    assert_eq!(*history.word_at(0), first);
    assert_eq!(*history.word_at(1), second);
}

#[test]
fn test_exhaustion_enforcement() {
    let mut history = SubmitHistory::new();
    for _ in 0..HISTORY_MAX_TRIES {
        history.submit(missed_word()).unwrap();
    }
    assert_eq!(history.len(), HISTORY_MAX_TRIES);
    assert!(history.is_full());
    assert!(!history.is_solved());
    assert_eq!(history.remaining_tries(), 0);
    let err = history.submit(missed_word()).unwrap_err();
    assert_eq!(
        err,
        SubmitHistoryError::TooManyTimes {
            max: HISTORY_MAX_TRIES
        }
    );
    assert_eq!(history.len(), HISTORY_MAX_TRIES);
}

#[test]
fn test_solved_terminality() {
    let mut history = SubmitHistory::new();
    let solved = SubmitWord::tint(&sol("rusty"), &sol("rusty"));
    history.submit(solved).unwrap();
    assert!(history.is_solved());
    let err = history.submit(missed_word()).unwrap_err();
    assert_eq!(
        err,
        SubmitHistoryError::TooManyTimes {
            max: HISTORY_MAX_TRIES
        }
    );
    assert_eq!(history.len(), 1);
    assert!(history.is_solved());
}

#[test]
fn test_submit_history_error_message() {
    let mut history = SubmitHistory::new();
    history
        .submit(SubmitWord::tint(&sol("rusty"), &sol("rusty")))
        .unwrap();
    let err = history.submit(missed_word()).unwrap_err();
    assert_eq!(
        err.message(),
        "submitted for too many times, exceeding the maximum constraint of 6"
    );
}

#[test]
fn test_scenario_rusty() {
    // Solution "rusty", submit "RUSTY": all exact, the history is solved
    // after one guess, and any further submission is rejected.
    let solution = sol("rusty");
    let answer = PuzzleSolution::new("RUSTY").unwrap();
    let result =
        wordle::submit_to_history(None, false, false, &answer, &solution).unwrap();
    assert!(result.is_completed);
    assert!(!result.is_dirty);
    assert_eq!(result.submit_history.len(), 1);
    assert!(result.submit_history.word_at(0).all_matches());
    assert_eq!(result.submit_history.remaining_tries(), HISTORY_MAX_TRIES - 1);

    let mut history = result.submit_history;
    let err = history
        .submit(SubmitWord::tint(&sol("fghij"), &solution))
        .unwrap_err();
    assert_eq!(
        err,
        SubmitHistoryError::TooManyTimes {
            max: HISTORY_MAX_TRIES
        }
    );
}

#[test]
fn test_submit_to_history_completed_record_unchanged() {
    let solution = sol("rusty");
    let mut stored = SubmitHistory::new();
    stored
        .submit(SubmitWord::tint(&sol("rusty"), &solution))
        .unwrap();
    let result = wordle::submit_to_history(
        Some(stored.clone()),
        true,
        true,
        &sol("fghij"),
        &solution,
    )
    .unwrap();
    assert!(result.is_completed);
    assert!(result.is_dirty);
    assert_eq!(result.submit_history, stored);
}

#[test]
fn test_submit_to_history_appends_scored_guess() {
    let solution = sol("speed");
    let result =
        wordle::submit_to_history(None, false, false, &sol("erase"), &solution).unwrap();
    assert!(!result.is_completed);
    assert_eq!(result.submit_history.len(), 1);
    let expected = SubmitWord::tint(&sol("erase"), &solution);
    assert_eq!(*result.submit_history.word_at(0), expected);
}

#[test]
fn test_submit_to_history_rejects_exhausted_record() {
    let solution = sol("speed");
    let mut stored = SubmitHistory::new();
    for _ in 0..HISTORY_MAX_TRIES {
        stored.submit(missed_word()).unwrap();
    }
    let err = wordle::submit_to_history(Some(stored), false, false, &sol("erase"), &solution)
        .unwrap_err();
    assert_eq!(
        err,
        SubmitHistoryError::TooManyTimes {
            max: HISTORY_MAX_TRIES
        }
    );
}
