//! Scoring of one guess against the secret word.
//!
//! Exact-position matches are credited first; the letters of the secret that
//! they did not consume are then handed, left to right, to the guess letters
//! that sit in the wrong place. A letter of the secret is credited at most once.

use vstd::prelude::*;
use vstd::string::StrSliceExecFns;
use crate::text::{to_upper, upper_of};

verus! {

/// The feedback for one letter of a guess.
#[derive(Clone, Copy, Debug, PartialEq, Eq, Structural)]
pub enum LetterScore {
    RightSpot,
    WrongSpot,
    Dud,
}

/// Position `i` of the guess holds the letter the secret has at `i`.
pub open spec fn is_exact(g: Seq<char>, s: Seq<char>, i: int) -> bool {
    0 <= i < g.len() && i < s.len() && g[i] == s[i]
}

/// How many of the first `n` letters of `s` are `c`.
pub open spec fn occ_before(s: Seq<char>, c: char, n: int) -> nat
    decreases n,
{
    if n <= 0 {
        0
    } else {
        occ_before(s, c, n - 1) + (if s[n - 1] == c { 1nat } else { 0nat })
    }
}

/// How many times `c` occurs in `s`.
pub open spec fn occurrences(s: Seq<char>, c: char) -> nat {
    occ_before(s, c, s.len() as int)
}

/// How many of the first `n` guess positions are exact matches on letter `c`.
pub open spec fn exact_before(g: Seq<char>, s: Seq<char>, c: char, n: int) -> nat
    decreases n,
{
    if n <= 0 {
        0
    } else {
        exact_before(g, s, c, n - 1) + (if is_exact(g, s, n - 1) && g[n - 1] == c {
            1nat
        } else {
            0nat
        })
    }
}

/// How many of the first `n` guess positions hold `c` without being exact.
pub open spec fn misplaced_before(g: Seq<char>, s: Seq<char>, c: char, n: int) -> nat
    decreases n,
{
    if n <= 0 {
        0
    } else {
        misplaced_before(g, s, c, n - 1) + (if !is_exact(g, s, n - 1) && g[n - 1] == c {
            1nat
        } else {
            0nat
        })
    }
}

/// The occurrences of `c` in the secret left over once every exact match
/// has taken its own.
pub open spec fn leftover(g: Seq<char>, s: Seq<char>, c: char) -> int {
    occurrences(s, c) - exact_before(g, s, c, g.len() as int)
}

/// The score of position `i`: exact matches first, then misplaced letters
/// while the leftover occurrences of that letter last.
pub open spec fn score_at(g: Seq<char>, s: Seq<char>, i: int) -> LetterScore {
    if is_exact(g, s, i) {
        LetterScore::RightSpot
    } else if misplaced_before(g, s, g[i], i) < leftover(g, s, g[i]) {
        LetterScore::WrongSpot
    } else {
        LetterScore::Dud
    }
}

/// The scores of a whole guess, one per guess letter.
pub open spec fn score_spec(g: Seq<char>, s: Seq<char>) -> Seq<LetterScore> {
    Seq::new(g.len(), |i: int| score_at(g, s, i))
}

/// Every letter is in the right spot.
pub open spec fn all_right(scores: Seq<LetterScore>) -> bool {
    forall|i: int| 0 <= i < scores.len() ==> scores[i] == LetterScore::RightSpot
}

/// How many of the first `n` positions holding `c` were credited
/// (scored anything but `Dud`).
pub open spec fn credited_before(scores: Seq<LetterScore>, g: Seq<char>, c: char, n: int) -> nat
    decreases n,
{
    if n <= 0 {
        0
    } else {
        credited_before(scores, g, c, n - 1) + (if g[n - 1] == c && scores[n - 1]
            != LetterScore::Dud {
            1nat
        } else {
            0nat
        })
    }
}

/// The characters of `s`, one element each.
pub fn chars_of(s: &str) -> (r: Vec<char>)
    ensures
        r@ == s@,
{
    let n = s.unicode_len();
    let mut r: Vec<char> = Vec::new();
    let mut i: usize = 0;
    while i < n
        invariant
            n == s@.len(),
            i <= n,
            r@ == s@.subrange(0, i as int),
        decreases n - i,
    {
        r.push(s.get_char(i));
        i = i + 1;
    }
    assert(r@ =~= s@);
    r
}

/// The number of letters among the first `n` of `s` that are `c`.
fn count_letter(s: &Vec<char>, c: char, n: usize) -> (r: usize)
    requires
        n <= s@.len(),
    ensures
        r == occ_before(s@, c, n as int),
{
    let mut r: usize = 0;
    let mut j: usize = 0;
    while j < n
        invariant
            j <= n <= s@.len(),
            r == occ_before(s@, c, j as int),
            r <= j,
        decreases n - j,
    {
        if s[j] == c {
            r = r + 1;
        }
        j = j + 1;
    }
    r
}

/// Position `i` of `g` is an exact match against `s`.
fn exact_at(g: &Vec<char>, s: &Vec<char>, i: usize) -> (r: bool)
    requires
        i < g@.len(),
    ensures
        r == is_exact(g@, s@, i as int),
{
    i < s.len() && g[i] == s[i]
}

/// The number of exact matches on `c` among the first `n` guess positions.
fn count_exact(g: &Vec<char>, s: &Vec<char>, c: char, n: usize) -> (r: usize)
    requires
        n <= g@.len(),
    ensures
        r == exact_before(g@, s@, c, n as int),
{
    let mut r: usize = 0;
    let mut j: usize = 0;
    while j < n
        invariant
            j <= n <= g@.len(),
            r == exact_before(g@, s@, c, j as int),
            r <= j,
        decreases n - j,
    {
        if exact_at(g, s, j) && g[j] == c {
            r = r + 1;
        }
        j = j + 1;
    }
    r
}

/// The number of misplaced positions holding `c` among the first `n`.
fn count_misplaced(g: &Vec<char>, s: &Vec<char>, c: char, n: usize) -> (r: usize)
    requires
        n <= g@.len(),
    ensures
        r == misplaced_before(g@, s@, c, n as int),
{
    let mut r: usize = 0;
    let mut j: usize = 0;
    while j < n
        invariant
            j <= n <= g@.len(),
            r == misplaced_before(g@, s@, c, j as int),
            r <= j,
        decreases n - j,
    {
        if !exact_at(g, s, j) && g[j] == c {
            r = r + 1;
        }
        j = j + 1;
    }
    r
}

/// Scores `guess_word` against `winning_word`, one score per guess letter,
/// after putting both in upper case.
pub fn check_guess(guess_word: &String, winning_word: &String) -> (r: Vec<LetterScore>)
    ensures
        r@ == score_spec(upper_of(guess_word@), upper_of(winning_word@)),
{
    let guess = to_upper(guess_word.as_str());
    let secret = to_upper(winning_word.as_str());
    score_uppercased(&guess, &secret)
}

/// Scores `guess_word` against `winning_word` as they stand, one score per
/// guess letter: the words are expected in upper case already.
pub fn score_uppercased(guess_word: &String, winning_word: &String) -> (r: Vec<LetterScore>)
    ensures
        r@ == score_spec(guess_word@, winning_word@),
{
    let g = chars_of(guess_word.as_str());
    let s = chars_of(winning_word.as_str());
    let ghost gs = g@;
    let ghost ss = s@;
    let mut scores: Vec<LetterScore> = Vec::new();
    let mut i: usize = 0;
    while i < g.len()
        invariant
            gs == g@,
            ss == s@,
            i <= g@.len(),
            scores@.len() == i,
            forall|k: int| 0 <= k < i ==> #[trigger] scores@[k] == score_at(gs, ss, k),
        decreases g@.len() - i,
    {
        let c = g[i];
        let sc = if exact_at(&g, &s, i) {
            LetterScore::RightSpot
        } else {
            let occ = count_letter(&s, c, s.len());
            let exact = count_exact(&g, &s, c, g.len());
            let before = count_misplaced(&g, &s, c, i);
            if exact <= occ && before < occ - exact {
                LetterScore::WrongSpot
            } else {
                LetterScore::Dud
            }
        };
        scores.push(sc);
        i = i + 1;
    }
    assert(scores@ =~= score_spec(gs, ss));
    scores
}

/// Every score is `RightSpot`.
pub fn is_all_right(scores: &Vec<LetterScore>) -> (r: bool)
    ensures
        r == all_right(scores@),
{
    let mut i: usize = 0;
    while i < scores.len()
        invariant
            i <= scores@.len(),
            forall|k: int| 0 <= k < i ==> scores@[k] == LetterScore::RightSpot,
        decreases scores@.len() - i,
    {
        if scores[i] != LetterScore::RightSpot {
            return false;
        }
        i = i + 1;
    }
    true
}

proof fn lemma_occ_before_monotone(s: Seq<char>, c: char, m: int, n: int)
    requires
        0 <= m <= n,
    ensures
        occ_before(s, c, m) <= occ_before(s, c, n),
    decreases n - m,
{
    if m < n {
        lemma_occ_before_monotone(s, c, m, n - 1);
    }
}

/// Exact matches on `c` never outnumber the occurrences of `c` in the secret.
proof fn lemma_exact_within_occurrences(g: Seq<char>, s: Seq<char>, c: char, n: int)
    requires
        0 <= n <= g.len(),
    ensures
        exact_before(g, s, c, n) <= occ_before(s, c, if n < s.len() { n } else { s.len() as int }),
    decreases n,
{
    if n > 0 {
        lemma_exact_within_occurrences(g, s, c, n - 1);
        let lo = if n - 1 < s.len() { n - 1 } else { s.len() as int };
        let hi = if n < s.len() { n } else { s.len() as int };
        lemma_occ_before_monotone(s, c, lo, hi);
    }
}

/// Among the first `n` positions holding `c`, the credited ones are the exact
/// matches plus as many misplaced ones as the leftover occurrences allow.
proof fn lemma_credited_split(g: Seq<char>, s: Seq<char>, c: char, n: int)
    requires
        0 <= n <= g.len(),
    ensures
        ({
            let b = if leftover(g, s, c) > 0 { leftover(g, s, c) } else { 0 };
            let m = misplaced_before(g, s, c, n) as int;
            credited_before(score_spec(g, s), g, c, n) == exact_before(g, s, c, n) + (if m < b {
                m
            } else {
                b
            })
        }),
    decreases n,
{
    if n > 0 {
        lemma_credited_split(g, s, c, n - 1);
    }
}

/// Scoring never credits a letter more often than the secret holds it: for
/// every letter, the positions holding it that score `RightSpot` or
/// `WrongSpot` number at most its occurrences in the secret.
pub proof fn lemma_credits_within_occurrences(guess: Seq<char>, secret: Seq<char>, letter: char)
    ensures
        credited_before(score_spec(guess, secret), guess, letter, guess.len() as int)
            <= occurrences(secret, letter),
{
    let n = guess.len() as int;
    lemma_credited_split(guess, secret, letter, n);
    lemma_exact_within_occurrences(guess, secret, letter, n);
    let hi = if n < secret.len() { n } else { secret.len() as int };
    lemma_occ_before_monotone(secret, letter, hi, secret.len() as int);
}

} // verus!
