use wordle::{Matches, PuzzleSolution, SubmitHistory, SubmitLetter, SubmitWord};

fn sol(s: &str) -> PuzzleSolution {
    PuzzleSolution::new(s).unwrap()
}

fn sample_word() -> SubmitWord {
    SubmitWord::new(vec![
        SubmitLetter::new('R', Matches::Yes),
        SubmitLetter::new('U', Matches::No),
        SubmitLetter::new('S', Matches::Partially),
        SubmitLetter::new('T', Matches::Yes),
        SubmitLetter::new('Y', Matches::Partially),
    ])
}

const SAMPLE_WORD_JSON: &str = "[{\"letter\":\"R\",\"matches\":\"+\"},{\"letter\":\"U\",\"matches\":\"-\"},{\"letter\":\"S\",\"matches\":\"?\"},{\"letter\":\"T\",\"matches\":\"+\"},{\"letter\":\"Y\",\"matches\":\"?\"}]";

#[test]
fn test_matches_symbols() {
    assert_eq!(Matches::Yes.to_str(), "+");
    assert_eq!(Matches::Partially.to_str(), "?");
    assert_eq!(Matches::No.to_str(), "-");
    assert_eq!(Matches::of_symbol('+'), Matches::Yes);
    assert_eq!(Matches::of_symbol('?'), Matches::Partially);
    assert_eq!(Matches::of_symbol('-'), Matches::No);
    assert_eq!(Matches::of_symbol('x'), Matches::No);
}

#[test]
fn test_word_text_form() {
    let word = sample_word();
    assert_eq!(word.to_text(), "R+,U-,S?,T+,Y?");
}

#[test]
fn test_word_text_round_trip() {
    let word = sample_word();
    let text = word.to_text();
    assert_eq!(SubmitWord::from_text(&text), Some(word));
}

#[test]
fn test_word_text_rejects_malformed() {
    assert_eq!(SubmitWord::from_text(""), None);
    assert_eq!(SubmitWord::from_text("R+,U-,S?,T+"), None);
    assert_eq!(SubmitWord::from_text("R+,U-,S?,T+,Y?,"), None);
    assert_eq!(SubmitWord::from_text("r+,u-,s?,t+,y?"), None);
    assert_eq!(SubmitWord::from_text("R*,U-,S?,T+,Y?"), None);
}

#[test]
fn test_serde() {
    let word = sample_word();
    let json = word.to_json();
    assert_eq!(json, SAMPLE_WORD_JSON);
    assert_eq!(SubmitWord::from_json(&json), Some(word));
}

#[test]
fn test_word_json_matches_serde_json() {
    fn letter_value(letter: &str, symbol: &str) -> serde_json::Value {
        let mut object = serde_json::Map::new();
        object.insert(
            "letter".to_string(),
            serde_json::Value::String(letter.to_string()),
        );
        object.insert(
            "matches".to_string(),
            serde_json::Value::String(symbol.to_string()),
        );
        serde_json::Value::Object(object)
    }

    let value = serde_json::Value::Array(vec![
        letter_value("R", "+"),
        letter_value("U", "-"),
        letter_value("S", "?"),
        letter_value("T", "+"),
        letter_value("Y", "?"),
    ]);
    let word = sample_word();
    assert_eq!(word.to_json(), serde_json::to_string(&value).unwrap());

    let reparsed: serde_json::Value = serde_json::from_str(&word.to_json()).unwrap();
    assert_eq!(reparsed, value);
}

#[test]
fn test_wf_checks() {
    let word = sample_word();
    assert!(word.is_wf());
    let mut history = SubmitHistory::new();
    assert!(history.is_wf());
    history.submit(word).unwrap();
    assert!(history.is_wf());
    let odd = SubmitWord::new(vec![
        SubmitLetter::new('+', Matches::Yes),
        SubmitLetter::new('A', Matches::Yes),
        SubmitLetter::new('B', Matches::Yes),
        SubmitLetter::new('C', Matches::Yes),
        SubmitLetter::new('D', Matches::Yes),
    ]);
    assert!(!odd.is_wf());
}

#[test]
fn test_empty_history_json() {
    let history = SubmitHistory::new();
    assert_eq!(history.to_json(), "[]");
    assert_eq!(SubmitHistory::from_json("[]"), Some(history));
}

#[test]
fn test_history_json_round_trip() {
    let mut history = SubmitHistory::new();
    history
        .submit(SubmitWord::tint(&sol("erase"), &sol("speed")))
        .unwrap();
    history
        .submit(SubmitWord::tint(&sol("ooooo"), &sol("world")))
        .unwrap();
    let json = history.to_json();
    assert_eq!(SubmitHistory::from_json(&json), Some(history));
}

#[test]
fn test_history_json_form() {
    let mut history = SubmitHistory::new();
    history.submit(sample_word()).unwrap();
    let expected = format!("[{}]", SAMPLE_WORD_JSON);
    assert_eq!(history.to_json(), expected);
}

#[test]
fn test_history_json_matches_serde_json_round_trip() {
    let mut history = SubmitHistory::new();
    history
        .submit(SubmitWord::tint(&sol("babes"), &sol("abbey")))
        .unwrap();
    let value: serde_json::Value = serde_json::from_str(&history.to_json()).unwrap();
    let recompacted = serde_json::to_string(&value).unwrap();
    assert_eq!(SubmitHistory::from_json(&recompacted), Some(history));
}

#[test]
fn test_history_json_rejects_malformed() {
    assert_eq!(SubmitHistory::from_json(""), None);
    assert_eq!(SubmitHistory::from_json("{}"), None);
    assert_eq!(SubmitHistory::from_json("["), None);
    assert_eq!(SubmitHistory::from_json("[[]]"), None);
    assert_eq!(
        SubmitHistory::from_json("[{\"letter\":\"R\",\"matches\":\"+\"}]"),
        None
    );
    // A trailing byte after the closing bracket is rejected.
    let mut json = String::from("[");
    json.push_str(SAMPLE_WORD_JSON);
    json.push_str("] ");
    assert_eq!(SubmitHistory::from_json(&json), None);
}
