use biodivine_boolean_functions::parser::structs::{MultiPeekChars, PositionTracker};
use biodivine_boolean_functions::parser::structs::IntermediateToken;
use regex::Regex;

#[test]
fn intermediate_token_test_longest() {
    let actual = IntermediateToken::longest_token_len();
    let expected = "false".len();

    assert_eq!(actual, expected);
}

#[test]
fn test_ordered_patterns() {
    let tokens = IntermediateToken::all_token_patterns_from_longest();

    assert!(tokens
        .iter()
        .zip(tokens.iter().skip(1))
        .all(|(previous, current)| previous.chars().count() >= current.chars().count()))
}

#[test]
fn test_regex_line_start_char_escaped_ok() {
    let and_str_pattern = "^";
    let pattern = Regex::new(&format!(r"(?i)^{}", regex::escape(and_str_pattern))).unwrap();

    let builder = "a&b".to_string();

    assert!(!pattern.is_match(&builder))
}

#[test]
fn test_keyword_followed_by_long_s_no_match() {
    // With case ignored, the long s is a form of `s`, so it continues a name.
    assert_eq!(IntermediateToken::try_from("t\u{17f}"), None);
    assert_eq!(IntermediateToken::try_from("and\u{17f}"), None);
}

#[test]
fn test_keyword_followed_by_kelvin_sign_no_match() {
    // With case ignored, the Kelvin sign is a form of `k`, so it continues a name.
    assert_eq!(IntermediateToken::try_from("true\u{212a}"), None);
}

#[test]
fn test_keyword_followed_by_other_letter_like_symbol_matches() {
    assert!(IntermediateToken::try_from("true\u{e9}").is_some());
    assert!(IntermediateToken::try_from("and b").is_some());
}

#[test]
fn test_keyword_boundary_agrees_with_case_insensitive_class() {
    let class = Regex::new(r"(?i)^[-_a-zA-Z0-9]$").unwrap();
    for code in 0u32..0x3000 {
        if let Some(c) = char::from_u32(code) {
            let text = format!("not{}", c);
            let blocked = class.is_match(&c.to_string());
            assert_eq!(IntermediateToken::try_from(&text).is_none(), blocked, "{:?}", c);
        }
    }
}

#[test]
fn test_position_tracker_counts_taken_items() {
    let mut tracker = PositionTracker::new(MultiPeekChars::new("ab"));
    assert_eq!(tracker.current_position(), 0);
    assert_eq!(tracker.peek(), Some('a'));
    assert_eq!(tracker.peek(), Some('b'));
    assert_eq!(tracker.current_position(), 0);
    assert_eq!(tracker.next(), Some('a'));
    assert_eq!(tracker.current_position(), 1);
    assert_eq!(tracker.next(), Some('b'));
    assert_eq!(tracker.current_position(), 2);
    assert_eq!(tracker.next(), None);
    assert_eq!(tracker.current_position(), 2);
}
