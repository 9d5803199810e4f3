//! Text helpers: length ranges of user-entered strings, the supported
//! languages, and case normalisation of words.

use vstd::prelude::*;
use vstd::string::StrSliceExecFns;
use vstd::string::StringExecFns;

verus! {

/// Most games a user can take part in at once.
pub const MAX_CURRENT_GAMES: u8 = 3;

/// Most players in one game.
pub const MAX_PLAYERS: u8 = 6;

/// Most pending invitations of one game.
pub const MAX_INVITES: u8 = 10;

/// An inclusive range of lengths, in bytes.
pub struct StringRange {
    pub min: usize,
    pub max: usize,
}

/// The length of `s` in bytes, as UTF-8 (the length of a string in memory
/// always fits in `usize`).
pub open spec fn byte_len(s: Seq<char>) -> usize {
    vstd::utf8::encode_utf8(s).len() as usize
}

pub fn username_length_range() -> (r: StringRange)
    ensures
        r.min == 6 && r.max == 20,
{
    StringRange { min: 6, max: 20 }
}

pub fn password_length_range() -> (r: StringRange)
    ensures
        r.min == 6 && r.max == 16,
{
    StringRange { min: 6, max: 16 }
}

pub fn real_name_length_range() -> (r: StringRange)
    ensures
        r.min == 2 && r.max == 50,
{
    StringRange { min: 2, max: 50 }
}

/// The byte length of `string` lies in `range_obj`.
pub fn string_length_valid(range_obj: StringRange, string: &String) -> (r: bool)
    ensures
        r == (range_obj.min <= byte_len(string@) <= range_obj.max),
{
    let string_length: usize = string.as_str().len();
    string_length >= range_obj.min && string_length <= range_obj.max
}

/// A real name is between 2 and 50 bytes long.
pub fn validate_real_name(name: &String) -> (r: bool)
    ensures
        r == (2 <= byte_len(name@) <= 50),
{
    string_length_valid(real_name_length_range(), name)
}

/// The languages the texts come in.
#[derive(Clone, Copy, Debug, PartialEq, Eq, Structural)]
pub enum SupportedLangs {
    French,
    English,
}

/// `s` begins with the two characters `a`, `b`.
pub open spec fn starts_with2(s: Seq<char>, a: char, b: char) -> bool {
    s.len() >= 2 && s[0] == a && s[1] == b
}

impl SupportedLangs {
    /// The language code used in text keys.
    pub fn suffix(&self) -> (r: &'static str)
        ensures
            r@ == (match self {
                SupportedLangs::English => "en"@,
                SupportedLangs::French => "fr"@,
            }),
    {
        match self {
            SupportedLangs::English => "en",
            SupportedLangs::French => "fr",
        }
    }

    /// The language named by a language tag such as an `Accept-Language`
    /// value: French for a tag starting with `fr`, English otherwise.
    pub fn from(input: &str) -> (r: SupportedLangs)
        ensures
            r == (if starts_with2(input@, 'f', 'r') {
                SupportedLangs::French
            } else {
                SupportedLangs::English
            }),
    {
        let n = input.unicode_len();
        if n >= 2 && input.get_char(0) == 'f' && input.get_char(1) == 'r' {
            SupportedLangs::French
        } else {
            SupportedLangs::English
        }
    }
}

/// `c` has the Unicode `White_Space` property, as `char::is_whitespace`
/// and `str::split_whitespace` test it.
pub open spec fn white_space(c: char) -> bool {
    ('\u{9}' <= c && c <= '\u{d}') || c == ' ' || c == '\u{85}' || c == '\u{a0}' || c == '\u{1680}'
        || ('\u{2000}' <= c && c <= '\u{200a}') || c == '\u{2028}' || c == '\u{2029}' || c
        == '\u{202f}' || c == '\u{205f}' || c == '\u{3000}'
}

/// What `str::to_uppercase` returns for `s`.
pub uninterp spec fn upper_of(s: Seq<char>) -> Seq<char>;

/// What `str::to_lowercase` returns for `s`.
pub uninterp spec fn lower_of(s: Seq<char>) -> Seq<char>;

/// Whether `c` is white space.
pub fn is_white(c: char) -> (r: bool)
    ensures
        r == white_space(c),
{
    ('\u{9}' <= c && c <= '\u{d}') || c == ' ' || c == '\u{85}' || c == '\u{a0}' || c == '\u{1680}'
        || ('\u{2000}' <= c && c <= '\u{200a}') || c == '\u{2028}' || c == '\u{2029}' || c
        == '\u{202f}' || c == '\u{205f}' || c == '\u{3000}'
}

/// Relies on `str::to_uppercase`: the upper-case form of `s`, a function of
/// its characters alone.
#[verifier::external_body]
pub(crate) fn to_upper(s: &str) -> (r: String)
    ensures
        r@ == upper_of(s@),
{
    s.to_uppercase()
}

/// Relies on `str::to_lowercase`: the lower-case form of `s`, a function of
/// its characters alone.
#[verifier::external_body]
fn to_lower(s: &str) -> (r: String)
    ensures
        r@ == lower_of(s@),
{
    s.to_lowercase()
}

/// The words of `s` still to come, when `cur` is the word being read:
/// maximal runs of characters without white space.
pub open spec fn split_from(s: Seq<char>, cur: Seq<char>) -> Seq<Seq<char>>
    decreases s.len(),
{
    if s.len() == 0 {
        if cur.len() > 0 {
            seq![cur]
        } else {
            seq![]
        }
    } else if white_space(s[0]) {
        (if cur.len() > 0 {
            seq![cur]
        } else {
            seq![]
        }) + split_from(s.drop_first(), seq![])
    } else {
        split_from(s.drop_first(), cur.push(s[0]))
    }
}

/// The words of `s`, as `str::split_whitespace` yields them.
pub open spec fn words(s: Seq<char>) -> Seq<Seq<char>> {
    split_from(s, seq![])
}

/// `w` in upper case when `upper`, else in lower case.
pub open spec fn cased(w: Seq<char>, upper: bool) -> Seq<char> {
    if upper {
        upper_of(w)
    } else {
        lower_of(w)
    }
}

/// The words `ws`, each recased, joined by single spaces.
pub open spec fn join_cased(ws: Seq<Seq<char>>, upper: bool) -> Seq<char>
    decreases ws.len(),
{
    if ws.len() == 0 {
        seq![]
    } else if ws.len() == 1 {
        cased(ws[0], upper)
    } else {
        join_cased(ws.drop_last(), upper) + seq![' '] + cased(ws.last(), upper)
    }
}

/// The words of `input`, each recased, joined by single spaces.
fn recase_words(input: &str, upper: bool) -> (r: String)
    ensures
        r@ == join_cased(words(input@), upper),
{
    let ghost s = input@;
    let n = input.unicode_len();
    let mut out = String::new();
    let ghost mut done: Seq<Seq<char>> = seq![];
    let mut first = true;
    let mut start: usize = 0;
    let mut i: usize = 0;
    proof {
        reveal_strlit(" ");
        assert(s.subrange(0, 0) =~= seq![]);
        assert(s.subrange(0, n as int) =~= s);
    }
    while i < n
        invariant
            s == input@,
            n == s.len(),
            start <= i <= n,
            words(s) == done + split_from(s.subrange(i as int, n as int), s.subrange(start as int, i as int)),
            out@ == join_cased(done, upper),
            first == (done.len() == 0),
            " "@ == seq![' '],
        decreases n - i,
    {
        let c = input.get_char(i);
        let ghost rest = s.subrange(i as int, n as int);
        let ghost cur = s.subrange(start as int, i as int);
        assert(rest[0] == c);
        assert(rest.drop_first() =~= s.subrange(i + 1, n as int));
        if is_white(c) {
            if start < i {
                let w = to_lower_or_upper(input.substring_char(start, i), upper);
                if !first {
                    out.append(" ");
                }
                out.append(w.as_str());
                first = false;
                proof {
                    let d2 = done.push(cur);
                    assert(d2.drop_last() =~= done);
                    assert(done + (seq![cur] + split_from(s.subrange(i + 1, n as int), seq![])) =~= d2
                        + split_from(s.subrange(i + 1, n as int), seq![]));
                    done = d2;
                }
            } else {
                assert(cur.len() == 0);
                assert(seq![] + split_from(s.subrange(i + 1, n as int), seq![]) =~= split_from(
                    s.subrange(i + 1, n as int),
                    seq![],
                ));
            }
            start = i + 1;
            assert(s.subrange(start as int, start as int) =~= seq![]);
        } else {
            assert(cur.push(c) =~= s.subrange(start as int, i + 1));
        }
        i = i + 1;
    }
    let ghost cur = s.subrange(start as int, n as int);
    assert(s.subrange(n as int, n as int).len() == 0);
    if start < n {
        let w = to_lower_or_upper(input.substring_char(start, n), upper);
        if !first {
            out.append(" ");
        }
        out.append(w.as_str());
        proof {
            let d2 = done.push(cur);
            assert(d2.drop_last() =~= done);
            assert(done + seq![cur] =~= d2);
            done = d2;
        }
    } else {
        assert(done + seq![] =~= done);
    }
    out
}

/// `w` in upper case when `upper`, else in lower case.
fn to_lower_or_upper(w: &str, upper: bool) -> (r: String)
    ensures
        r@ == cased(w@, upper),
{
    if upper {
        to_upper(w)
    } else {
        to_lower(w)
    }
}

/// The words of `input` in upper case, joined by single spaces.
pub fn all_caps(input: &str) -> (r: String)
    ensures
        r@ == join_cased(words(input@), true),
{
    recase_words(input, true)
}

/// The words of `input` in lower case, joined by single spaces.
pub fn no_caps(input: &str) -> (r: String)
    ensures
        r@ == join_cased(words(input@), false),
{
    recase_words(input, false)
}

} // verus!
