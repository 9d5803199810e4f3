use crankword::game::GameStatus;
use crankword::validate::{
    has_no_whitespace, validate_email, validate_password, validate_url, validate_username,
};

fn s(x: &str) -> String {
    x.to_string()
}

#[test]
fn usernames() {
    assert!(validate_username(&s("player_1")));
    assert!(validate_username(&s("a-b-c-d")));
    assert!(!validate_username(&s("short")));
    assert!(!validate_username(&s("has space")));
    assert!(!validate_username(&s("x".repeat(21).as_str())));
    assert!(validate_username(&s("x".repeat(20).as_str())));
    assert!(!validate_username(&s("émilie1")));
    assert!(!validate_username(&s("")));
}

#[test]
fn passwords_need_an_accepted_last_character() {
    assert!(validate_password(&s("abc!123")));
    assert!(validate_password(&s("   abc")));
    assert!(!validate_password(&s("abc123 ")));
    assert!(!validate_password(&s("abc12")));
    assert!(!validate_password(&s("abcdefghijklmnopq")));
    assert!(!validate_password(&s("abcdef\"")));
}

#[test]
fn whitespace_free_strings() {
    assert!(has_no_whitespace(&s("abc")));
    assert!(!has_no_whitespace(&s("a b")));
    assert!(!has_no_whitespace(&s("a\u{00a0}b")));
    assert!(!has_no_whitespace(&s("")));
}

#[test]
fn email_addresses() {
    assert!(validate_email(&s("joe.smith+tag@mail.example.org")));
    assert!(validate_email(&s("a@b.co")));
    assert!(!validate_email(&s("a@b.c")));
    assert!(!validate_email(&s("@b.com")));
    assert!(!validate_email(&s("a@.com")));
    assert!(validate_email(&s("a@..com")));
    assert!(!validate_email(&s("a@b.c0m")));
    assert!(!validate_email(&s("a@@b.com")));
    assert!(!validate_email(&s("ab.com")));
    assert!(!validate_email(&s("a b@c.com")));
}

#[test]
fn urls() {
    assert!(validate_url(&s("https://example.com")));
    assert!(validate_url(&s("http://a.b/path?q=1")));
    assert!(!validate_url(&s("ftp://example.com")));
    assert!(!validate_url(&s("https://")));
    assert!(!validate_url(&s("https://x")));
    assert!(!validate_url(&s("https://.com")));
    assert!(!validate_url(&s("https://exa mple.com")));
    assert!(!validate_url(&s("https://a\nb")));
}

#[test]
fn status_names_parse_back() {
    for st in [GameStatus::PreGame, GameStatus::InProgress, GameStatus::Finished, GameStatus::Cancelled] {
        assert_eq!(GameStatus::parse(st.as_str()), Some(st));
    }
    assert_eq!(GameStatus::parse("Finished"), None);
    assert_eq!(GameStatus::parse(""), None);
}
