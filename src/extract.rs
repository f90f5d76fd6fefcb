//! The two extraction strategies: glibc from the output of `ldd --version`, musl from
//! the output of a musl tool or, failing that, of `ldd`.
use vstd::prelude::*;
use vstd::slice::slice_subrange;
use crate::parse::{parse_version, version_of_chars, lemma_decimal, lemma_parse_version_text};
use crate::scan::{
    version_token, first_version_run, is_digit, is_token_char, has_version_shape,
    lemma_embedded_version_token,
};
use crate::text::{
    first_where, char_at, occurs_at, occurrence_at, line_end, line_with_prefix_at, chars_of,
    find_char, find_pattern, end_of_line, find_line_starting_with, lemma_first_where_found,
    lemma_first_where_some, lemma_first_where_none,
};
use crate::types::{Version, decimal, version_text};

verus! {

/// The phrase that opens glibc's `ldd --version` banner.
pub open spec fn ldd_anchor() -> Seq<char> {
    seq!['l', 'd', 'd', ' ', '(']
}

/// The phrase that names musl in a tool's output.
pub open spec fn musl_anchor() -> Seq<char> {
    seq!['m', 'u', 's', 'l', ' ', 'l', 'i', 'b', 'c']
}

/// The prefix of the line on which musl's loader states its version.
pub open spec fn version_prefix() -> Seq<char> {
    seq!['V', 'e', 'r', 's', 'i', 'o', 'n', ' ']
}

/// The glibc version token of `s`: on the first line that holds `ldd (`, the first
/// version token after the first `)` that follows that phrase on the line.
pub open spec fn glibc_token(s: Seq<char>) -> Option<Seq<char>> {
    match first_where(0, s.len() as int, occurrence_at(s, ldd_anchor())) {
        None => None,
        Some(a) => {
            let e = line_end(s, a);
            match first_where(a + ldd_anchor().len(), e, char_at(s, ')')) {
                None => None,
                Some(p) => version_token(s.subrange(p + 1, e)),
            }
        },
    }
}

/// The glibc version that `s` states.
pub open spec fn glibc_version(s: Seq<char>) -> Option<Version> {
    match glibc_token(s) {
        Some(t) => parse_version(t),
        None => None,
    }
}

/// The musl version token of `s`: the first version token from the first `musl libc`
/// on; failing that, the first version token after `Version ` on the first line that
/// begins with it.
pub open spec fn musl_token(s: Seq<char>) -> Option<Seq<char>> {
    let by_anchor = match first_where(0, s.len() as int, occurrence_at(s, musl_anchor())) {
        Some(m) => version_token(s.subrange(m, s.len() as int)),
        None => None,
    };
    if by_anchor is Some {
        by_anchor
    } else {
        match first_where(0, s.len() as int, line_with_prefix_at(s, version_prefix())) {
            Some(l) => version_token(
                s.subrange(l + version_prefix().len(), line_end(s, l)),
            ),
            None => None,
        }
    }
}

/// The musl version that `s` states.
pub open spec fn musl_version(s: Seq<char>) -> Option<Version> {
    match musl_token(s) {
        Some(t) => parse_version(t),
        None => None,
    }
}

/// A line that holds `pat` at `i` goes on past its end, where `pat` holds no newline.
pub proof fn lemma_line_holds_pattern(s: Seq<char>, pat: Seq<char>, i: int)
    requires
        occurs_at(s, pat, i),
        forall|k: int| 0 <= k < pat.len() ==> pat[k] != '\n',
    ensures
        i + pat.len() <= line_end(s, i) <= s.len(),
{
    if first_where(i, s.len() as int, char_at(s, '\n')) is Some {
        lemma_first_where_found(i, s.len() as int, char_at(s, '\n'));
        let e = line_end(s, i);
        if e < i + pat.len() {
            assert(s.subrange(i, i + pat.len())[e - i] == s[e]);
        }
    }
}

/// Where on the glibc line the version token lies: the start and end of the text
/// after the closing parenthesis, and the token's position within that text.
fn glibc_token_span(t: &[char]) -> (r: Option<(usize, usize)>)
    ensures
        match r {
            Some((i, j)) => i < j <= t@.len() && glibc_token(t@) == Some(t@.subrange(i as int, j as int)),
            None => glibc_token(t@) is None,
        },
{
    let anchor = chars_of("ldd (");
    proof {
        reveal_strlit("ldd (");
        assert(anchor@ =~= ldd_anchor());
    }
    let a = match find_pattern(t, anchor.as_slice()) {
        Some(a) => a,
        None => return None,
    };
    proof {
        lemma_first_where_found(0, t@.len() as int, occurrence_at(t@, ldd_anchor()));
        lemma_line_holds_pattern(t@, ldd_anchor(), a as int);
    }
    let e = end_of_line(t, a);
    let p = match find_char(t, ')', a + anchor.len(), e) {
        Some(p) => p,
        None => return None,
    };
    proof {
        lemma_first_where_found((a + 5) as int, e as int, char_at(t@, ')'));
    }
    let rest = slice_subrange(t, p + 1, e);
    match first_version_run(rest) {
        Some((i, j)) => {
            assert(rest@.subrange(i as int, j as int) =~= t@.subrange(p + 1 + i, p + 1 + j));
            Some((p + 1 + i, p + 1 + j))
        },
        None => None,
    }
}

/// The glibc version token in the output of `ldd --version`: on the first line that
/// holds `ldd (`, the first version token after the closing parenthesis.
pub fn ldd_output_to_glibc_version_str(output_str: &str) -> (r: Result<&str, String>)
    ensures
        match r {
            Ok(tok) => glibc_token(output_str@) == Some(tok@),
            Err(e) => glibc_token(output_str@) is None && e@ == "no glibc version in ldd output"@,
        },
{
    let chars = chars_of(output_str);
    match glibc_token_span(chars.as_slice()) {
        Some((i, j)) => Ok(output_str.substring_char(i, j)),
        None => Err("no glibc version in ldd output".to_owned()),
    }
}

/// The glibc version that the output of `ldd --version` states.
pub fn glibc_version_of(output: &str) -> (r: Option<Version>)
    ensures
        r == glibc_version(output@),
{
    let chars = chars_of(output);
    let t = chars.as_slice();
    match glibc_token_span(t) {
        Some((i, j)) => version_of_chars(slice_subrange(t, i, j)),
        None => None,
    }
}

/// The musl version that a tool's output states: the first version token from the
/// phrase `musl libc` on, or else the one after `Version ` on the first line that begins
/// with it, read as major and minor.
pub fn parse_musl_version(output: &str) -> (r: Option<Version>)
    ensures
        r == musl_version(output@),
{
    let chars = chars_of(output);
    let t = chars.as_slice();
    let n = t.len();
    let anchor = chars_of("musl libc");
    let prefix = chars_of("Version ");
    proof {
        reveal_strlit("musl libc");
        reveal_strlit("Version ");
        assert(anchor@ =~= musl_anchor());
        assert(prefix@ =~= version_prefix());
    }
    if let Some(m) = find_pattern(t, anchor.as_slice()) {
        proof {
            lemma_first_where_found(0, n as int, occurrence_at(t@, musl_anchor()));
        }
        let rest = slice_subrange(t, m, n);
        if let Some((i, j)) = first_version_run(rest) {
            return version_of_chars(slice_subrange(rest, i, j));
        }
    }
    match find_line_starting_with(t, prefix.as_slice()) {
        Some(l) => {
            proof {
                lemma_first_where_found(0, n as int, line_with_prefix_at(t@, version_prefix()));
                lemma_line_holds_pattern(t@, version_prefix(), l as int);
            }
            let e = end_of_line(t, l);
            let rest = slice_subrange(t, l + prefix.len(), e);
            match first_version_run(rest) {
                Some((i, j)) => version_of_chars(slice_subrange(rest, i, j)),
                None => None,
            }
        },
        None => None,
    }
}

/// glibc's banner line up to its version: `ldd (GNU libc) `.
pub open spec fn glibc_banner() -> Seq<char> {
    seq!['l', 'd', 'd', ' ', '(', 'G', 'N', 'U', ' ', 'l', 'i', 'b', 'c', ')', ' ']
}

/// musl's banner line up to its version: `musl libc `.
pub open spec fn musl_banner() -> Seq<char> {
    seq!['m', 'u', 's', 'l', ' ', 'l', 'i', 'b', 'c', ' ']
}

/// `major.minor` is a run of digits and dots of the shape of a version token.
pub proof fn lemma_version_text_token(v: Version)
    ensures
        forall|k: int|
            0 <= k < version_text(v).len() ==> is_token_char(#[trigger] version_text(v)[k]),
        has_version_shape(version_text(v)),
{
    let a = decimal(v.major as nat);
    let b = decimal(v.minor as nat);
    let t = version_text(v);
    lemma_decimal(v.major as nat);
    lemma_decimal(v.minor as nat);
    assert forall|k: int| 0 <= k < t.len() implies is_token_char(#[trigger] t[k]) by {
        if k < a.len() {
            assert(t[k] == a[k]);
        } else if k > a.len() {
            assert(t[k] == b[k - a.len() - 1]);
        }
    }
    reveal(has_version_shape);
    let d = a.len() as int;
    assert(t[d] == '.');
    assert(t[d + 1] == b[0]);
    assert forall|k: int| 0 <= k < d implies is_digit(#[trigger] t[k]) by {
        assert(t[k] == a[k]);
    }
}

/// A version written after glibc's banner is the glibc version read back.
pub proof fn lemma_glibc_round_trip(v: Version)
    ensures
        glibc_version(glibc_banner() + version_text(v)) == Some(v),
{
    let b = glibc_banner();
    let t = version_text(v);
    let s = b + t;
    lemma_version_text_token(v);
    assert(s.subrange(0, 5) =~= ldd_anchor());
    lemma_first_where_some(0, s.len() as int, occurrence_at(s, ldd_anchor()), 0);
    assert forall|k: int| 0 <= k < s.len() implies !#[trigger] char_at(s, '\n')(k) by {
        if k < b.len() {
            assert(s[k] == b[k]);
        } else {
            assert(s[k] == t[k - b.len()]);
        }
    }
    lemma_first_where_none(0, s.len() as int, char_at(s, '\n'));
    assert forall|k: int| 5 <= k < 13 implies !#[trigger] char_at(s, ')')(k) by {
        assert(s[k] == b[k]);
    }
    assert(s[13] == ')');
    lemma_first_where_some(5, s.len() as int, char_at(s, ')'), 13);
    assert(s.subrange(14, s.len() as int) =~= seq![' '] + t + Seq::<char>::empty());
    lemma_embedded_version_token(seq![' '], t, Seq::<char>::empty());
    lemma_parse_version_text(v);
}

/// A version written after musl's banner is the musl version read back.
pub proof fn lemma_musl_round_trip(v: Version)
    ensures
        musl_version(musl_banner() + version_text(v)) == Some(v),
{
    let b = musl_banner();
    let t = version_text(v);
    let s = b + t;
    lemma_version_text_token(v);
    assert(s.subrange(0, 9) =~= musl_anchor());
    lemma_first_where_some(0, s.len() as int, occurrence_at(s, musl_anchor()), 0);
    assert forall|k: int| 0 <= k < b.len() implies !is_token_char(#[trigger] b[k]) by {
    }
    assert(s.subrange(0, s.len() as int) =~= b + t + Seq::<char>::empty());
    lemma_embedded_version_token(b, t, Seq::<char>::empty());
    lemma_parse_version_text(v);
}

} // verus!
