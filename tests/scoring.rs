use crankword::scoring::{check_guess, is_all_right, score_uppercased, LetterScore};
use LetterScore::{Dud, RightSpot, WrongSpot};

fn score(guess: &str, secret: &str) -> Vec<LetterScore> {
    check_guess(&guess.to_string(), &secret.to_string())
}

fn credited(scores: &[LetterScore], guess: &str, letter: char) -> usize {
    guess
        .chars()
        .zip(scores.iter())
        .filter(|(c, s)| *c == letter && **s != Dud)
        .count()
}

#[test]
fn exact_match_is_all_right_spot() {
    let s = score("APPLE", "APPLE");
    assert_eq!(s, vec![RightSpot; 5]);
    assert!(is_all_right(&s));
}

#[test]
fn no_shared_letter_is_all_dud() {
    assert_eq!(score("ZZZZZ", "APPLE"), vec![Dud; 5]);
}

#[test]
fn repeated_letter_is_credited_within_budget() {
    let s = score("PAPPY", "APPLE");
    assert_eq!(s, vec![WrongSpot, WrongSpot, RightSpot, Dud, Dud]);
    // APPLE holds two P: the exact match takes one, so only one of the
    // misplaced P of the guess is credited.
    let misplaced_p = "PAPPY"
        .chars()
        .zip(s.iter())
        .filter(|(c, sc)| *c == 'P' && **sc == WrongSpot)
        .count();
    assert!(misplaced_p <= 1);
    assert!(credited(&s, "PAPPY", 'P') <= 2);
}

#[test]
fn exact_match_consumes_before_misplaced() {
    // The exact E at the end takes the only E, so the first E is a dud.
    assert_eq!(score("EERIE", "APPLE"), vec![Dud, Dud, Dud, Dud, RightSpot]);
    assert_eq!(score("LLAMA", "HELLO"), vec![WrongSpot, WrongSpot, Dud, Dud, Dud]);
}

#[test]
fn credits_never_exceed_occurrences() {
    let cases = [
        ("SPEED", "ERASE"),
        ("EERIE", "THREE"),
        ("AAAAA", "BANAL"),
        ("LEVEL", "EXPEL"),
        ("MAMMA", "MOMMY"),
    ];
    for (guess, secret) in cases {
        let s = score(guess, secret);
        assert_eq!(s.len(), guess.chars().count());
        for letter in guess.chars() {
            let occ = secret.chars().filter(|c| *c == letter).count();
            assert!(credited(&s, guess, letter) <= occ, "{} {} {}", guess, secret, letter);
        }
    }
}

#[test]
fn longer_guess_scores_every_letter() {
    let s = score("APPLES", "APPLE");
    assert_eq!(s, vec![RightSpot, RightSpot, RightSpot, RightSpot, RightSpot, Dud]);
    assert!(!is_all_right(&s));
}

#[test]
fn empty_guess_has_no_scores() {
    assert_eq!(score("", "APPLE"), Vec::<LetterScore>::new());
}

#[test]
fn case_is_ignored() {
    assert_eq!(score("apple", "APPLE"), vec![RightSpot; 5]);
    assert_eq!(score("APPLE", "apple"), vec![RightSpot; 5]);
    assert_eq!(score("pappy", "Apple"), vec![WrongSpot, WrongSpot, RightSpot, Dud, Dud]);
}

#[test]
fn exact_scorer_compares_as_given() {
    let up = |g: &str, s: &str| score_uppercased(&g.to_string(), &s.to_string());
    assert_eq!(up("APPLE", "APPLE"), vec![RightSpot; 5]);
    assert_eq!(up("ZZZZZ", "APPLE"), vec![Dud; 5]);
    assert_eq!(up("PAPPY", "APPLE"), vec![WrongSpot, WrongSpot, RightSpot, Dud, Dud]);
    assert_eq!(up("apple", "APPLE"), vec![Dud; 5]);
}
