use pw_viz::text::{contains_str, parse_u32, str_eq};

#[test]
fn contains_finds_substrings() {
    assert!(contains_str("Audio/Sink", "Audio"));
    assert!(contains_str("Stream/Output/Audio", "Audio"));
    assert!(contains_str("abc", ""));
    assert!(!contains_str("Aud", "Audio"));
    assert!(!contains_str("audio/sink", "Audio"));
    assert!(!contains_str("", "a"));
}

#[test]
fn str_eq_compares_characters() {
    assert!(str_eq("in", "in"));
    assert!(!str_eq("in", "out"));
    assert!(!str_eq("in", "int"));
    assert!(str_eq("", ""));
}

#[test]
fn parse_u32_accepts_decimal() {
    assert_eq!(parse_u32("42"), Some(42));
    assert_eq!(parse_u32("+7"), Some(7));
    assert_eq!(parse_u32("007"), Some(7));
    assert_eq!(parse_u32("0"), Some(0));
    assert_eq!(parse_u32("4294967295"), Some(4294967295));
}

#[test]
fn parse_u32_rejects_other_text() {
    assert_eq!(parse_u32(""), None);
    assert_eq!(parse_u32("+"), None);
    assert_eq!(parse_u32("-1"), None);
    assert_eq!(parse_u32(" 1"), None);
    assert_eq!(parse_u32("1a"), None);
    assert_eq!(parse_u32("4294967296"), None);
    assert_eq!(parse_u32("99999999999999999999"), None);
}
