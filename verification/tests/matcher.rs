use wordle::{Matches, PuzzleSolution, PuzzleWordError, SubmitWord};

fn sol(s: &str) -> PuzzleSolution {
    PuzzleSolution::new(s).unwrap()
}

fn letters_of(w: &SubmitWord) -> Vec<char> {
    w.to_vec().into_iter().map(|l| l.letter).collect()
}

fn marks_of(w: &SubmitWord) -> Vec<Matches> {
    w.to_vec().into_iter().map(|l| l.matches).collect()
}

#[test]
fn test_identical_guess_all_exact() {
    let word = SubmitWord::tint(&sol("rusty"), &sol("rusty"));
    assert_eq!(letters_of(&word), vec!['R', 'U', 'S', 'T', 'Y']);
    assert_eq!(marks_of(&word), vec![Matches::Yes; 5]);
    assert!(word.all_matches());
}

#[test]
fn test_disjoint_letters_all_absent() {
    let word = SubmitWord::tint(&sol("fghij"), &sol("klmno"));
    assert_eq!(marks_of(&word), vec![Matches::No; 5]);
    assert!(!word.all_matches());
}

#[test]
fn test_exact_priority_tie_break() {
    // Solution "speed", guess "erase": no position matches exactly, both
    // solution e's feed the two guessed e's, the s is present, r and a
    // are absent.
    let word = SubmitWord::tint(&sol("erase"), &sol("speed"));
    assert_eq!(letters_of(&word), vec!['E', 'R', 'A', 'S', 'E']);
    assert_eq!(
        marks_of(&word),
        vec![
            Matches::Partially,
            Matches::No,
            Matches::No,
            Matches::Partially,
            Matches::Partially,
        ]
    );
}

#[test]
fn test_duplicate_letter_conservation_concrete() {
    // Solution "world" has one o; a guess of five o's is credited once.
    let word = SubmitWord::tint(&sol("ooooo"), &sol("world"));
    assert_eq!(
        marks_of(&word),
        vec![
            Matches::No,
            Matches::Yes,
            Matches::No,
            Matches::No,
            Matches::No,
        ]
    );
}

#[test]
fn test_repeated_guess_letter_single_occurrence() {
    // Solution "house" has one s; guess "swiss" credits only the exact s
    // and drops the other two.
    let word = SubmitWord::tint(&sol("swiss"), &sol("house"));
    assert_eq!(
        marks_of(&word),
        vec![
            Matches::No,
            Matches::No,
            Matches::No,
            Matches::Yes,
            Matches::No,
        ]
    );
}

#[test]
fn test_exact_match_claims_before_partial() {
    // Solution "abbey": guess "babes" — the two b's of the solution are
    // claimed by the exact b at position 1 and the partial b at
    // position 0.
    let word = SubmitWord::tint(&sol("babes"), &sol("abbey"));
    assert_eq!(
        marks_of(&word),
        vec![
            Matches::Partially,
            Matches::Partially,
            Matches::Yes,
            Matches::Yes,
            Matches::No,
        ]
    );
}

#[test]
fn test_solution_validation() {
    assert!(PuzzleSolution::new("rusty").is_ok());
    assert_eq!(PuzzleSolution::new("RUSTY").unwrap().inner(), "rusty");
    assert!(matches!(
        PuzzleSolution::new("rust"),
        Err(PuzzleWordError::TooFewOrTooManyLetters(4))
    ));
    assert!(matches!(
        PuzzleSolution::new("rustier"),
        Err(PuzzleWordError::TooFewOrTooManyLetters(7))
    ));
    assert!(matches!(
        PuzzleSolution::new("ru5ty"),
        Err(PuzzleWordError::ContainsNonAsciiAlphabeticLetters)
    ));
    assert!(matches!(
        PuzzleSolution::new("rüsty"),
        Err(PuzzleWordError::ContainsNonAsciiAlphabeticLetters)
    ));
}

#[test]
fn test_solution_letters() {
    let s = sol("rusty");
    assert_eq!(s.letters(), vec!['r', 'u', 's', 't', 'y']);
}

#[test]
fn test_word_getters() {
    let word = SubmitWord::tint(&sol("erase"), &sol("speed"));
    assert_eq!(word.len(), 5);
    assert!(!word.is_empty());
    let owned = word.clone().into_vec();
    assert_eq!(owned.len(), 5);
    assert_eq!(owned[0].letter, 'E');
    assert_eq!(owned[0].matches, Matches::Partially);
}

#[test]
fn test_word_error_messages() {
    assert_eq!(
        PuzzleSolution::new("rust").unwrap_err().message(),
        "too few letters: 4! must be 5"
    );
    assert_eq!(
        PuzzleSolution::new("rustier").unwrap_err().message(),
        "too many letters: 7! must be 5"
    );
    assert_eq!(
        PuzzleSolution::new("ru5ty").unwrap_err().message(),
        "cannot contain non ascii alphabetic letters!!"
    );
}
