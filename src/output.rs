//! The text of a tool's run: standard output and standard error, decoded, joined by a
//! newline and trimmed.
use vstd::prelude::*;
use crate::text::{first_where, chars_of, lemma_first_where_some, lemma_first_where_none};

verus! {

/// What `String::from_utf8_lossy` makes of `b`.
pub uninterp spec fn lossy_utf8(b: Seq<u8>) -> Seq<char>;

/// Relies on `String::from_utf8_lossy`: decodes bytes as UTF-8, replacing what is not
/// valid; the result depends on the bytes alone.
#[verifier::external_body]
fn decode_lossy(b: &[u8]) -> (r: String)
    ensures
        r@ == lossy_utf8(b@),
{
    String::from_utf8_lossy(b).into_owned()
}

/// A character with Unicode's `White_Space` property, which `char::is_whitespace` tests.
pub open spec fn is_white_space(c: char) -> bool {
    ('\u{9}' <= c && c <= '\u{d}') || c == ' ' || c == '\u{85}' || c == '\u{a0}' || c
        == '\u{1680}' || ('\u{2000}' <= c && c <= '\u{200a}') || c == '\u{2028}' || c
        == '\u{2029}' || c == '\u{202f}' || c == '\u{205f}' || c == '\u{3000}'
}

pub fn is_white_space_char(c: char) -> (r: bool)
    ensures
        r == is_white_space(c),
{
    ('\u{9}' <= c && c <= '\u{d}') || c == ' ' || c == '\u{85}' || c == '\u{a0}' || c
        == '\u{1680}' || ('\u{2000}' <= c && c <= '\u{200a}') || c == '\u{2028}' || c
        == '\u{2029}' || c == '\u{202f}' || c == '\u{205f}' || c == '\u{3000}'
}

pub open spec fn ink_at(s: Seq<char>) -> spec_fn(int) -> bool {
    |k: int| !is_white_space(s[k])
}

pub open spec fn ink_from_end_at(s: Seq<char>) -> spec_fn(int) -> bool {
    |k: int| !is_white_space(s[s.len() - 1 - k])
}

/// `s` without white space at either end.
pub open spec fn trimmed(s: Seq<char>) -> Seq<char> {
    match first_where(0, s.len() as int, ink_at(s)) {
        None => Seq::empty(),
        Some(i) => match first_where(0, s.len() as int, ink_from_end_at(s)) {
            Some(k) => s.subrange(i, s.len() - k),
            None => Seq::empty(),
        },
    }
}

/// `s` without white space at either end.
pub fn trim_white_space(s: &str) -> (r: &str)
    ensures
        r@ == trimmed(s@),
{
    let chars = chars_of(s);
    let n = chars.len();
    let mut i: usize = 0;
    while i < n && is_white_space_char(chars[i])
        invariant
            i <= n == chars@.len() == s@.len(),
            chars@ == s@,
            forall|m: int| 0 <= m < i ==> is_white_space(#[trigger] s@[m]),
        decreases n - i,
    {
        i = i + 1;
    }
    if i == n {
        proof {
            lemma_first_where_none(0, n as int, ink_at(s@));
        }
        return s.substring_char(0, 0);
    }
    proof {
        lemma_first_where_some(0, n as int, ink_at(s@), i as int);
    }
    let mut k: usize = 0;
    while is_white_space_char(chars[n - 1 - k])
        invariant
            i < n == chars@.len() == s@.len(),
            chars@ == s@,
            k <= n - 1 - i,
            !is_white_space(s@[i as int]),
            forall|m: int| 0 <= m < k ==> is_white_space(#[trigger] s@[n - 1 - m]),
        decreases n - k,
    {
        k = k + 1;
    }
    proof {
        lemma_first_where_some(0, n as int, ink_from_end_at(s@), k as int);
    }
    s.substring_char(i, n - k)
}

/// The text of a tool's run: its standard output and standard error decoded, joined by
/// a newline, without white space at either end.
pub fn combine_output(stdout: &[u8], stderr: &[u8]) -> (r: String)
    ensures
        r@ == trimmed(lossy_utf8(stdout@) + seq!['\n'] + lossy_utf8(stderr@)),
{
    let mut joined = decode_lossy(stdout);
    joined.append("\n");
    let err = decode_lossy(stderr);
    joined.append(err.as_str());
    proof {
        reveal_strlit("\n");
    }
    assert(joined@ =~= lossy_utf8(stdout@) + seq!['\n'] + lossy_utf8(stderr@));
    trim_white_space(joined.as_str()).to_owned()
}

} // verus!
