use wiki_stats::ascii::{
    char_to_number, char_to_number_hex, error_message, is_ascii, is_digit, is_hex_digit,
    is_letter, is_lowercase, is_printable, is_uppercase, to_lowercase, to_uppercase, CharError,
};

#[test]
fn classes_of_characters() {
    assert!(is_lowercase('a') && is_lowercase('z') && !is_lowercase('A') && !is_lowercase('{'));
    assert!(is_uppercase('A') && is_uppercase('Z') && !is_uppercase('a') && !is_uppercase('['));
    assert!(is_letter('q') && is_letter('Q') && !is_letter('1') && !is_letter('é'));
    assert!(is_digit('0') && is_digit('9') && !is_digit('a') && !is_digit('/'));
    assert!(is_hex_digit('0') && is_hex_digit('f') && is_hex_digit('F'));
    assert!(!is_hex_digit('g') && !is_hex_digit('G') && !is_hex_digit(' '));
    assert!(is_printable(' ') && is_printable('~') && !is_printable('\n') && !is_printable('\x7f'));
    assert!(is_ascii('\0') && is_ascii('\x7f') && !is_ascii('\u{80}') && !is_ascii('È'));
}

#[test]
fn letters_change_case() {
    assert!(matches!(to_uppercase('a'), Ok('A')));
    assert!(matches!(to_uppercase('z'), Ok('Z')));
    assert!(matches!(to_uppercase('Q'), Ok('Q')));
    assert!(matches!(to_uppercase(' '), Err(CharError::NotLetter)));
    assert!(matches!(to_lowercase('A'), Ok('a')));
    assert!(matches!(to_lowercase('Z'), Ok('z')));
    assert!(matches!(to_lowercase('q'), Ok('q')));
    assert!(matches!(to_lowercase(' '), Err(CharError::NotLetter)));
    assert!(matches!(to_lowercase('É'), Err(CharError::NotLetter)));
}

#[test]
fn digits_give_their_code() {
    assert!(matches!(char_to_number('0'), Ok(48)));
    assert!(matches!(char_to_number('9'), Ok(57)));
    assert!(matches!(char_to_number('a'), Err(CharError::NotDigit)));
    assert!(matches!(char_to_number('È'), Err(CharError::NotASCII)));
}

#[test]
fn hexadecimal_digits() {
    assert!(matches!(char_to_number_hex('7'), Ok(55)));
    assert!(matches!(char_to_number_hex('A'), Ok(10)));
    assert!(matches!(char_to_number_hex('F'), Ok(15)));
    assert!(matches!(char_to_number_hex('a'), Ok(42)));
    assert!(matches!(char_to_number_hex('f'), Ok(47)));
    assert!(matches!(char_to_number_hex('z'), Err(CharError::NotHexDigit)));
    assert!(matches!(char_to_number_hex('G'), Err(CharError::NotHexDigit)));
    assert!(matches!(char_to_number_hex('È'), Err(CharError::NotASCII)));
}

#[test]
fn every_error_has_its_message() {
    assert_eq!(error_message(&CharError::NotASCII), "Character not ASCII.");
    assert_eq!(error_message(&CharError::NotDigit), "Character not a base-10 digit.");
    assert_eq!(error_message(&CharError::NotHexDigit), "Character not a base-16 digit.");
    assert_eq!(error_message(&CharError::NotLetter), "Character not a letter.");
    assert_eq!(error_message(&CharError::NotPrintable), "Character not printable.");
}
