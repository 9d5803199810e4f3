use crankword::clock::{compute_deadline, is_expired, TURN_SECONDS};
use crankword::ids::{GameId, UserId};
use crankword::messages::{FakeWord, JoinGameFailure, MaxGuesses, WrongTurn};
use crankword::text::{
    all_caps, no_caps, password_length_range, real_name_length_range, string_length_valid,
    username_length_range, validate_real_name, StringRange, SupportedLangs,
};

#[test]
fn all_caps_upper_cases_and_joins_words() {
    assert_eq!(all_caps("  hello   world "), "HELLO WORLD");
    assert_eq!(all_caps("apple"), "APPLE");
    assert_eq!(all_caps(""), "");
    assert_eq!(all_caps(" \t\n"), "");
    assert_eq!(all_caps("straße"), "STRASSE");
}

#[test]
fn no_caps_lower_cases_and_joins_words() {
    assert_eq!(no_caps("APPLE"), "apple");
    assert_eq!(no_caps("\tMiXeD\ncase  "), "mixed case");
}

#[test]
fn length_ranges() {
    let u = username_length_range();
    assert_eq!((u.min, u.max), (6, 20));
    let p = password_length_range();
    assert_eq!((p.min, p.max), (6, 16));
    let n = real_name_length_range();
    assert_eq!((n.min, n.max), (2, 50));
}

#[test]
fn string_length_is_checked_in_bytes() {
    let r = || StringRange { min: 2, max: 4 };
    assert!(!string_length_valid(r(), &"a".to_string()));
    assert!(string_length_valid(r(), &"ab".to_string()));
    assert!(string_length_valid(r(), &"abcd".to_string()));
    assert!(!string_length_valid(r(), &"abcde".to_string()));
    // three characters, five bytes
    assert!(!string_length_valid(r(), &"aéé".to_string()));
}

#[test]
fn real_names_between_two_and_fifty_bytes() {
    assert!(!validate_real_name(&"A".to_string()));
    assert!(validate_real_name(&"Al".to_string()));
    assert!(validate_real_name(&"x".repeat(50)));
    assert!(!validate_real_name(&"x".repeat(51)));
}

#[test]
fn language_from_tag() {
    assert_eq!(SupportedLangs::from("fr-CA"), SupportedLangs::French);
    assert_eq!(SupportedLangs::from("en-US"), SupportedLangs::English);
    assert_eq!(SupportedLangs::from("de"), SupportedLangs::English);
    assert_eq!(SupportedLangs::from("f"), SupportedLangs::English);
    assert_eq!(SupportedLangs::French.suffix(), "fr");
    assert_eq!(SupportedLangs::English.suffix(), "en");
}

#[test]
fn deadlines() {
    assert_eq!(compute_deadline(1000), 1000 + TURN_SECONDS);
    assert_eq!(compute_deadline(i64::MAX - 1), i64::MAX);
    assert!(is_expired(100, 100));
    assert!(is_expired(100, 101));
    assert!(!is_expired(100, 99));
}

#[test]
fn ids_widen() {
    assert_eq!(UserId::new(-7).get_id(), -7i64);
    assert_eq!(GameId::new(i32::MAX).get_id(), i32::MAX as i64);
}

#[test]
fn outcome_messages() {
    assert!(FakeWord::new().fake_word);
    assert!(MaxGuesses::new().max_guesses);
    assert!(WrongTurn::new().wrong_turn);
    let f = JoinGameFailure::new("full".to_string());
    assert!(!f.success);
    assert_eq!(f.error, "full");
}

#[test]
fn white_space_matches_std() {
    for c in ['\t', '\n', '\u{b}', '\u{c}', '\r', ' ', '\u{85}', '\u{a0}', '\u{1680}', '\u{2000}', '\u{200a}', '\u{2028}', '\u{2029}', '\u{202f}', '\u{205f}', '\u{3000}'] {
        assert!(crankword::text::is_white(c), "{:?}", c);
    }
    for c in ['a', '_', '\u{200b}', '\u{180e}', '\u{feff}', '\u{8}'] {
        assert!(!crankword::text::is_white(c), "{:?}", c);
    }
    for n in 0..0x3100u32 {
        if let Some(c) = char::from_u32(n) {
            assert_eq!(crankword::text::is_white(c), c.is_whitespace(), "{:?}", c);
        }
    }
}
