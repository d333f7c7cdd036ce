use wordle::{
    sha256_hex_to_bytes, HexDecodeError, PuzzleDate, PuzzleDateError, PuzzleWord, PuzzleWordError,
};

#[test]
fn test_puzzle_word_accepts_any_five_characters() {
    let word = PuzzleWord::new("héllo").unwrap();
    assert_eq!(word.inner(), vec!['h', 'é', 'l', 'l', 'o']);
    assert_eq!(word.to_string(), "héllo");
}

#[test]
fn test_puzzle_word_rejects_wrong_length() {
    assert!(matches!(
        PuzzleWord::new("abcd"),
        Err(PuzzleWordError::TooFewOrTooManyLetters(4))
    ));
    assert!(matches!(
        PuzzleWord::new("abcdef"),
        Err(PuzzleWordError::TooFewOrTooManyLetters(6))
    ));
}

#[test]
fn test_date_parse() {
    let date = PuzzleDate::parse("2024-02-29").unwrap();
    assert_eq!(date.inner(), (2024, 2, 29));
    assert_eq!(PuzzleDate::parse("1970-01-01").unwrap().inner(), (1970, 1, 1));
    assert_eq!(PuzzleDate::parse("9999-12-31").unwrap().inner(), (9999, 12, 31));
}

#[test]
fn test_date_parse_rejects_invalid_format() {
    assert_eq!(
        PuzzleDate::parse("2024-2-29"),
        Err(PuzzleDateError::InvalidFormat)
    );
    assert_eq!(
        PuzzleDate::parse("2024/02/29"),
        Err(PuzzleDateError::InvalidFormat)
    );
    assert_eq!(
        PuzzleDate::parse("2023-02-29"),
        Err(PuzzleDateError::InvalidFormat)
    );
    assert_eq!(
        PuzzleDate::parse("2024-13-01"),
        Err(PuzzleDateError::InvalidFormat)
    );
    assert_eq!(
        PuzzleDate::parse("2024-04-31"),
        Err(PuzzleDateError::InvalidFormat)
    );
    assert_eq!(PuzzleDate::parse(""), Err(PuzzleDateError::InvalidFormat));
}

#[test]
fn test_date_parse_rejects_too_early() {
    assert_eq!(
        PuzzleDate::parse("1969-12-31"),
        Err(PuzzleDateError::TooEarly)
    );
    assert_eq!(
        PuzzleDate::parse("0001-01-01"),
        Err(PuzzleDateError::TooEarly)
    );
}

#[test]
fn test_date_century_leap_rule() {
    // Century years are leap years only when divisible by 400.
    assert_eq!(
        PuzzleDate::parse("2100-02-29"),
        Err(PuzzleDateError::InvalidFormat)
    );
    assert_eq!(PuzzleDate::parse("2000-02-29").unwrap().inner(), (2000, 2, 29));
}

#[test]
fn test_date_text_round_trip() {
    let date = PuzzleDate::new(1970, 1, 1).unwrap();
    assert_eq!(date.to_text(), "1970-01-01");
    assert_eq!(PuzzleDate::parse(&date.to_text()), Ok(date));

    let other = PuzzleDate::new(2077, 12, 5).unwrap();
    assert_eq!(other.to_text(), "2077-12-05");
    assert_eq!(PuzzleDate::parse(&other.to_text()), Ok(other));
}

#[test]
fn test_date_new_validation() {
    assert_eq!(PuzzleDate::new(2024, 0, 1), Err(PuzzleDateError::InvalidFormat));
    assert_eq!(PuzzleDate::new(2024, 1, 32), Err(PuzzleDateError::InvalidFormat));
    assert_eq!(PuzzleDate::new(1969, 6, 15), Err(PuzzleDateError::TooEarly));
}

#[test]
fn test_date_error_messages() {
    assert_eq!(
        PuzzleDateError::InvalidFormat.message(),
        "the date must be formatted as YYYY-MM-DD"
    );
    assert_eq!(
        PuzzleDateError::TooEarly.message(),
        "the date cannot be earlier than 1970-01-01"
    );
}

#[test]
fn test_sha256_hex_to_bytes() {
    let hex = "000102030405060708090a0b0c0d0e0f101112131415161718191a1b1c1d1e1f";
    let bytes = sha256_hex_to_bytes(hex).unwrap();
    for (i, b) in bytes.iter().enumerate() {
        assert_eq!(*b, i as u8);
    }
}

#[test]
fn test_sha256_hex_mixed_case() {
    let hex = "FFff00A1b2C3d4E5f60718293a4B5c6D7e8F90aBcDeF0123456789AbCdEf0000";
    let bytes = sha256_hex_to_bytes(hex).unwrap();
    assert_eq!(bytes[0], 0xff);
    assert_eq!(bytes[1], 0xff);
    assert_eq!(bytes[2], 0x00);
    assert_eq!(bytes[3], 0xa1);
    assert_eq!(bytes[31], 0x00);
}

#[test]
fn test_sha256_hex_rejects_bad_length() {
    assert!(matches!(
        sha256_hex_to_bytes("abcd"),
        Err(HexDecodeError::InvalidLength)
    ));
    assert!(matches!(
        sha256_hex_to_bytes(""),
        Err(HexDecodeError::InvalidLength)
    ));
}

#[test]
fn test_sha256_hex_rejects_bad_character() {
    let hex = "zz0102030405060708090a0b0c0d0e0f101112131415161718191a1b1c1d1e1f";
    assert!(matches!(
        sha256_hex_to_bytes(hex),
        Err(HexDecodeError::InvalidHexCharacter)
    ));
}
