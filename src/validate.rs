//! Checks on user-entered strings: usernames, passwords, e-mail addresses
//! and URLs, each a small grammar over characters.

use vstd::prelude::*;
use vstd::string::StrSliceExecFns;
use crate::scoring::chars_of;
use crate::text::{
    is_white, byte_len, password_length_range, string_length_valid, username_length_range, white_space,
};

verus! {

pub open spec fn is_ascii_letter(c: char) -> bool {
    ('A' <= c && c <= 'Z') || ('a' <= c && c <= 'z')
}

pub open spec fn is_ascii_digit(c: char) -> bool {
    '0' <= c && c <= '9'
}

/// A character allowed in a username.
pub open spec fn username_char(c: char) -> bool {
    is_ascii_letter(c) || is_ascii_digit(c) || c == '_' || c == '-'
}

/// A character allowed in a password.
pub open spec fn password_char(c: char) -> bool {
    is_ascii_letter(c) || is_ascii_digit(c) || c == '!' || c == '@' || c == '#' || c == '$' || c
        == '%' || c == '^' || c == '&' || c == '*' || c == '(' || c == ')' || c == '_' || c == '-'
        || c == '+' || c == '=' || c == '[' || c == ']' || c == '{' || c == '}' || c == ':' || c
        == ';' || c == '<' || c == '>' || c == '.' || c == ',' || c == '?' || c == '~' || c == '`'
        || c == '|'
}

/// A character allowed before the `@` of an e-mail address.
pub open spec fn email_local_char(c: char) -> bool {
    is_ascii_letter(c) || is_ascii_digit(c) || c == '.' || c == '_' || c == '%' || c == '+' || c
        == '-'
}

/// A character allowed in the domain of an e-mail address.
pub open spec fn domain_char(c: char) -> bool {
    is_ascii_letter(c) || is_ascii_digit(c) || c == '.' || c == '-'
}

/// A character that may open the host part of a URL.
pub open spec fn url_host_start(c: char) -> bool {
    !white_space(c) && c != '/' && c != '$' && c != '.' && c != '?' && c != '#'
}

fn ascii_letter(c: char) -> (r: bool)
    ensures
        r == is_ascii_letter(c),
{
    ('A' <= c && c <= 'Z') || ('a' <= c && c <= 'z')
}

fn ascii_digit(c: char) -> (r: bool)
    ensures
        r == is_ascii_digit(c),
{
    '0' <= c && c <= '9'
}

fn is_username_char(c: char) -> (r: bool)
    ensures
        r == username_char(c),
{
    ascii_letter(c) || ascii_digit(c) || c == '_' || c == '-'
}

fn is_password_char(c: char) -> (r: bool)
    ensures
        r == password_char(c),
{
    ascii_letter(c) || ascii_digit(c) || c == '!' || c == '@' || c == '#' || c == '$' || c == '%'
        || c == '^' || c == '&' || c == '*' || c == '(' || c == ')' || c == '_' || c == '-' || c
        == '+' || c == '=' || c == '[' || c == ']' || c == '{' || c == '}' || c == ':' || c == ';'
        || c == '<' || c == '>' || c == '.' || c == ',' || c == '?' || c == '~' || c == '`' || c
        == '|'
}

fn is_email_local_char(c: char) -> (r: bool)
    ensures
        r == email_local_char(c),
{
    ascii_letter(c) || ascii_digit(c) || c == '.' || c == '_' || c == '%' || c == '+' || c == '-'
}

fn is_domain_char(c: char) -> (r: bool)
    ensures
        r == domain_char(c),
{
    ascii_letter(c) || ascii_digit(c) || c == '.' || c == '-'
}

/// A username: one or more letters, digits, `_` or `-`, 6 to 20 bytes long.
pub fn validate_username(username: &String) -> (r: bool)
    ensures
        r == (username@.len() > 0 && (forall|i: int| 0 <= i < username@.len() ==> #[trigger] username_char(username@[i]))
            && 6 <= byte_len(username@) <= 20),
{
    let s = chars_of(username.as_str());
    let mut i: usize = 0;
    while i < s.len()
        invariant
            s@ == username@,
            i <= s@.len(),
            forall|j: int| 0 <= j < i ==> #[trigger] username_char(s@[j]),
        decreases s@.len() - i,
    {
        if !is_username_char(s[i]) {
            return false;
        }
        i = i + 1;
    }
    s.len() > 0 && string_length_valid(username_length_range(), username)
}

/// A password: 6 to 16 bytes long and ending in a letter, a digit or one of
/// the accepted symbols.
pub fn validate_password(password: &String) -> (r: bool)
    ensures
        r == (password@.len() > 0 && password_char(password@.last()) && 6 <= byte_len(password@) <= 16),
{
    let s = chars_of(password.as_str());
    if s.len() == 0 {
        return false;
    }
    is_password_char(s[s.len() - 1]) && string_length_valid(password_length_range(), password)
}

/// One or more characters, none of them white space.
pub fn has_no_whitespace(string: &String) -> (r: bool)
    ensures
        r == (string@.len() > 0 && forall|i: int| 0 <= i < string@.len() ==> !#[trigger] white_space(string@[i])),
{
    let s = chars_of(string.as_str());
    let mut i: usize = 0;
    while i < s.len()
        invariant
            s@ == string@,
            i <= s@.len(),
            forall|j: int| 0 <= j < i ==> !#[trigger] white_space(s@[j]),
        decreases s@.len() - i,
    {
        if is_white(s[i]) {
            return false;
        }
        i = i + 1;
    }
    s.len() > 0
}

/// `s` is `local@domain.tld`: the `@` at `a` and the last dot at `p`, a
/// non-empty local part, a non-empty domain, and a top-level domain of two
/// or more letters.
pub open spec fn email_split(s: Seq<char>, a: int, p: int) -> bool {
    &&& 1 <= a
    &&& a + 2 <= p
    &&& p + 3 <= s.len()
    &&& s[a] == '@'
    &&& s[p] == '.'
    &&& forall|i: int| 0 <= i < a ==> #[trigger] email_local_char(s[i])
    &&& forall|i: int| a < i < p ==> #[trigger] domain_char(s[i])
    &&& forall|i: int| p < i < s.len() ==> #[trigger] is_ascii_letter(s[i])
}

/// `s` has the shape of an e-mail address.
pub open spec fn is_email(s: Seq<char>) -> bool {
    exists|a: int, p: int| email_split(s, a, p)
}

/// Whether `email` has the shape `local@domain.tld`.
pub fn validate_email(email: &String) -> (r: bool)
    ensures
        r == is_email(email@),
{
    let s = chars_of(email.as_str());
    let ghost v = s@;
    let n = s.len();
    // the local part runs up to the first '@'
    let mut a: usize = 0;
    while a < n && s[a] != '@'
        invariant
            v == s@,
            v == email@,
            n == v.len(),
            a <= n,
            forall|j: int| 0 <= j < a ==> #[trigger] email_local_char(v[j]),
        decreases n - a,
    {
        if !is_email_local_char(s[a]) {
            assert forall|x: int, y: int| !email_split(v, x, y) by {
                if email_split(v, x, y) {
                    if x < a {
                        assert(email_local_char(v[x]));
                    } else if x == a {
                        assert(v[a as int] != '@');
                    } else {
                        assert(email_local_char(v[a as int]));
                    }
                }
            }
            return false;
        }
        a = a + 1;
    }
    if a == n || a == 0 {
        assert forall|x: int, y: int| !email_split(v, x, y) by {
            if email_split(v, x, y) {
                if x < a {
                    assert(email_local_char(v[x]));
                } else if x > a {
                    assert(email_local_char(v[a as int]));
                }
            }
        }
        return false;
    }
    // the top-level domain follows the last '.'
    let mut p: usize = n;
    while p > a + 1 && s[p - 1] != '.'
        invariant
            v == s@,
            v == email@,
            n == v.len(),
            a < n,
            a + 1 <= p <= n,
            forall|j: int| p <= j < n ==> #[trigger] v[j] != '.',
        decreases p,
    {
        p = p - 1;
    }
    // any split has its '@' at `a` and its last dot at `p - 1`
    assert forall|x: int, y: int| email_split(v, x, y) implies x == a && p > a + 1 && y == p - 1 by {
        if x < a {
            assert(email_local_char(v[x]));
        } else if x > a {
            assert(email_local_char(v[a as int]));
        }
        if y >= p {
            assert(v[y] != '.');
        } else if p > a + 1 && y < p - 1 {
            assert(is_ascii_letter(v[p - 1]));
        }
    }
    if p <= a + 1 || p - a < 3 || n - p < 2 {
        return false;
    }
    let dot = p - 1;
    let mut i: usize = a + 1;
    while i < dot
        invariant
            v == s@,
            v == email@,
            n == v.len(),
            a < i <= dot < n,
            forall|x: int, y: int| email_split(v, x, y) ==> x == a && y == dot,
            forall|j: int| a < j < i ==> #[trigger] domain_char(v[j]),
        decreases dot - i,
    {
        if !is_domain_char(s[i]) {
            assert forall|x: int, y: int| !email_split(v, x, y) by {
                if email_split(v, x, y) {
                    assert(domain_char(v[i as int]));
                }
            }
            return false;
        }
        i = i + 1;
    }
    let mut k: usize = dot + 1;
    while k < n
        invariant
            v == s@,
            v == email@,
            n == v.len(),
            dot < k <= n,
            forall|x: int, y: int| email_split(v, x, y) ==> x == a && y == dot,
            forall|j: int| dot < j < k ==> #[trigger] is_ascii_letter(v[j]),
        decreases n - k,
    {
        if !ascii_letter(s[k]) {
            assert forall|x: int, y: int| !email_split(v, x, y) by {
                if email_split(v, x, y) {
                    assert(is_ascii_letter(v[k as int]));
                }
            }
            return false;
        }
        k = k + 1;
    }
    assert(email_split(v, a as int, dot as int));
    true
}

/// `s` begins with `prefix`.
pub open spec fn starts_with(s: Seq<char>, prefix: Seq<char>) -> bool {
    prefix.len() <= s.len() && s.subrange(0, prefix.len() as int) == prefix
}

fn has_prefix(s: &Vec<char>, prefix: &str) -> (r: bool)
    ensures
        r == starts_with(s@, prefix@),
{
    let p = chars_of(prefix);
    if p.len() > s.len() {
        return false;
    }
    let mut i: usize = 0;
    while i < p.len()
        invariant
            p@ == prefix@,
            p@.len() <= s@.len(),
            i <= p@.len(),
            forall|j: int| 0 <= j < i ==> s@[j] == p@[j],
        decreases p@.len() - i,
    {
        if s[i] != p[i] {
            assert(s@.subrange(0, p@.len() as int)[i as int] != p@[i as int]);
            return false;
        }
        i = i + 1;
    }
    assert(s@.subrange(0, p@.len() as int) =~= p@);
    true
}

/// What follows the scheme of a URL: a host that starts with a character
/// other than white space, `/`, `$`, `.`, `?` or `#`, then any character
/// but a line feed, then any run of characters other than white space.
pub open spec fn url_rest(r: Seq<char>) -> bool {
    &&& r.len() >= 2
    &&& url_host_start(r[0])
    &&& r[1] != '\n'
    &&& forall|i: int| 2 <= i < r.len() ==> !#[trigger] white_space(r[i])
}

/// `s` is an `http://` or `https://` URL.
pub open spec fn is_url(s: Seq<char>) -> bool {
    if starts_with(s, "https://"@) {
        url_rest(s.subrange(("https://"@).len() as int, s.len() as int))
    } else if starts_with(s, "http://"@) {
        url_rest(s.subrange(("http://"@).len() as int, s.len() as int))
    } else {
        false
    }
}

/// Whether `url` is an `http://` or `https://` URL with a plausible host.
pub fn validate_url(url: &String) -> (r: bool)
    ensures
        r == is_url(url@),
{
    let s = chars_of(url.as_str());
    proof {
        reveal_strlit("https://");
        reveal_strlit("http://");
    }
    let start = if has_prefix(&s, "https://") {
        "https://".unicode_len()
    } else if has_prefix(&s, "http://") {
        "http://".unicode_len()
    } else {
        return false;
    };
    let ghost rest = s@.subrange(start as int, s@.len() as int);
    let n = s.len();
    if n < start + 2 {
        return false;
    }
    let c0 = s[start];
    assert(rest[0] == c0);
    assert(rest[1] == s@[start + 1]);
    if is_white(c0) || c0 == '/' || c0 == '$' || c0 == '.' || c0 == '?' || c0 == '#' {
        return false;
    }
    if s[start + 1] == '\n' {
        return false;
    }
    assert(is_url(url@) == url_rest(rest));
    let mut i: usize = start + 2;
    while i < n
        invariant
            is_url(url@) == url_rest(rest),
            rest.len() >= 2 && url_host_start(rest[0]) && rest[1] != '\n',
            n == s@.len(),
            start + 2 <= i <= n,
            rest == s@.subrange(start as int, n as int),
            forall|j: int| 2 <= j < i - start ==> !#[trigger] white_space(rest[j]),
        decreases n - i,
    {
        if is_white(s[i]) {
            assert(rest[i - start] == s@[i as int]);
            return false;
        }
        i = i + 1;
    }
    true
}

} // verus!
