//! The version token scanner: the first maximal run of digits and dots that reads
//! `digits.digits`, possibly followed by further dotted parts.
use vstd::prelude::*;
use crate::text::{
    first_where, lemma_first_where_some, lemma_first_where_none, lemma_first_where_found, chars_of,
};

verus! {

pub open spec fn is_digit(c: char) -> bool {
    '0' <= c && c <= '9'
}

/// A character that may stand in a version token.
pub open spec fn is_token_char(c: char) -> bool {
    is_digit(c) || c == '.'
}

pub open spec fn non_token_at(s: Seq<char>) -> spec_fn(int) -> bool {
    |k: int| !is_token_char(s[k])
}

/// The end of the run of digits and dots that starts at `i`.
#[verifier::opaque]
pub open spec fn run_end(s: Seq<char>, i: int) -> int {
    match first_where(i, s.len() as int, non_token_at(s)) {
        Some(k) => k,
        None => s.len() as int,
    }
}

/// A maximal run of digits and dots begins at `i`.
pub open spec fn is_run_start(s: Seq<char>, i: int) -> bool {
    &&& 0 <= i < s.len()
    &&& is_token_char(s[i])
    &&& (i == 0 || !is_token_char(s[i - 1]))
}

/// `t` opens with one or more digits, then a dot, then a digit.
#[verifier::opaque]
pub open spec fn has_version_shape(t: Seq<char>) -> bool {
    exists|d: int|
        #![trigger t[d]]
        0 < d && d + 1 < t.len() && t[d] == '.' && is_digit(t[d + 1]) && forall|k: int|
            0 <= k < d ==> is_digit(#[trigger] t[k])
}

/// A run that qualifies as a version token begins at `i`.
pub open spec fn is_version_run_start(s: Seq<char>, i: int) -> bool {
    is_run_start(s, i) && has_version_shape(s.subrange(i, run_end(s, i)))
}

pub open spec fn version_run_start_at(s: Seq<char>) -> spec_fn(int) -> bool {
    |i: int| is_version_run_start(s, i)
}

/// The first run of digits and dots in `s` that has the shape `digits.digits...`.
pub open spec fn version_token(s: Seq<char>) -> Option<Seq<char>> {
    match first_where(0, s.len() as int, version_run_start_at(s)) {
        Some(i) => Some(s.subrange(i, run_end(s, i))),
        None => None,
    }
}

pub fn is_digit_char(c: char) -> (r: bool)
    ensures
        r == is_digit(c),
{
    '0' <= c && c <= '9'
}

fn is_token(c: char) -> (r: bool)
    ensures
        r == is_token_char(c),
{
    is_digit_char(c) || c == '.'
}

/// When every character of `i..j` may stand in a token and `j` closes the run, `j` is its end.
pub proof fn lemma_run_end(s: Seq<char>, i: int, j: int)
    requires
        0 <= i < j <= s.len(),
        forall|k: int| i <= k < j ==> is_token_char(#[trigger] s[k]),
        j == s.len() || !is_token_char(s[j]),
    ensures
        run_end(s, i) == j,
{
    reveal(run_end);
    if j < s.len() {
        lemma_first_where_some(i, s.len() as int, non_token_at(s), j);
    } else {
        lemma_first_where_none(i, s.len() as int, non_token_at(s));
    }
}

/// The end of the run of digits and dots that starts at `i`.
fn end_of_run(t: &[char], i: usize) -> (j: usize)
    requires
        i < t@.len(),
        is_token_char(t@[i as int]),
    ensures
        i < j <= t@.len(),
        j as int == run_end(t@, i as int),
        forall|k: int| i <= k < j ==> is_token_char(#[trigger] t@[k]),
        j == t@.len() || !is_token_char(t@[j as int]),
{
    let n = t.len();
    let mut j: usize = i + 1;
    while j < n && is_token(t[j])
        invariant
            i < j <= n == t@.len(),
            forall|k: int| i <= k < j ==> is_token_char(#[trigger] t@[k]),
        decreases n - j,
    {
        j = j + 1;
    }
    proof {
        lemma_run_end(t@, i as int, j as int);
    }
    j
}

/// Whether the run `t[i..j]` has the shape `digits.digits...`.
fn run_has_version_shape(t: &[char], i: usize, j: usize) -> (r: bool)
    requires
        i < j <= t@.len(),
    ensures
        r == has_version_shape(t@.subrange(i as int, j as int)),
{
    let ghost run = t@.subrange(i as int, j as int);
    reveal(has_version_shape);
    let mut d: usize = i;
    while d < j && is_digit_char(t[d])
        invariant
            i <= d <= j <= t@.len(),
            forall|k: int| i <= k < d ==> is_digit(#[trigger] t@[k]),
        decreases j - d,
    {
        d = d + 1;
    }
    if d > i && d < j && d + 1 < j && t[d] == '.' && is_digit_char(t[d + 1]) {
        proof {
            let dd = (d - i) as int;
            assert(run[dd] == t@[d as int]);
            assert(run[dd + 1] == t@[d + 1]);
            assert forall|k: int| 0 <= k < dd implies is_digit(#[trigger] run[k]) by {
                assert(run[k] == t@[i + k]);
            }
        }
        true
    } else {
        proof {
            if has_version_shape(run) {
                let dd = choose|dd: int|
                    #![trigger run[dd]]
                    0 < dd && dd + 1 < run.len() && run[dd] == '.' && is_digit(run[dd + 1])
                        && forall|k: int| 0 <= k < dd ==> is_digit(#[trigger] run[k]);
                if d - i < dd {
                    assert(run[d - i] == t@[d as int]);
                } else if d - i > dd {
                    assert(run[dd] == t@[i + dd]);
                } else {
                    assert(run[dd] == t@[d as int]);
                    assert(run[dd + 1] == t@[d + 1]);
                }
            }
        }
        false
    }
}

/// A run that starts at a digit or dot ends after it, and within the text.
pub proof fn lemma_run_end_bounds(s: Seq<char>, i: int)
    requires
        0 <= i < s.len(),
        is_token_char(s[i]),
    ensures
        i < run_end(s, i) <= s.len(),
{
    reveal(run_end);
    if first_where(i, s.len() as int, non_token_at(s)) is Some {
        lemma_first_where_found(i, s.len() as int, non_token_at(s));
    }
}

/// The position and end of the first qualifying run in `t`.
pub fn first_version_run(t: &[char]) -> (r: Option<(usize, usize)>)
    ensures
        match r {
            Some((i, j)) => {
                &&& version_token(t@) == Some(t@.subrange(i as int, j as int))
                &&& first_where(0, t@.len() as int, version_run_start_at(t@)) == Some(i as int)
                &&& j as int == run_end(t@, i as int)
                &&& i < j <= t@.len()
            },
            None => {
                &&& first_where(0, t@.len() as int, version_run_start_at(t@)) is None
                &&& version_token(t@) is None
            },
        },
{
    let n = t.len();
    let mut i: usize = 0;
    while i < n
        invariant
            i <= n == t@.len(),
            i == n || i == 0 || !is_token_char(t@[i - 1]),
            forall|k: int| 0 <= k < i ==> !#[trigger] is_version_run_start(t@, k),
        decreases n - i,
    {
        if !is_token(t[i]) {
            i = i + 1;
        } else {
            let j = end_of_run(t, i);
            if run_has_version_shape(t, i, j) {
                proof {
                    assert(is_version_run_start(t@, i as int));
                    lemma_first_where_some(0, n as int, version_run_start_at(t@), i as int);
                }
                return Some((i, j));
            }
            assert forall|k: int| i <= k <= j && k < n implies !#[trigger] is_version_run_start(
                t@,
                k,
            ) by {
                if i < k < j {
                    assert(is_token_char(t@[k - 1]));
                }
            }
            i = if j < n { j + 1 } else { j };
        }
    }
    proof {
        lemma_first_where_none(0, n as int, version_run_start_at(t@));
    }
    None
}

/// The first run of digits and dots in `s` that reads `digits.digits`, with any further
/// dotted parts; `None` when no run has that shape.
pub fn find_version_token(s: &str) -> (r: Option<&str>)
    ensures
        match r {
            Some(tok) => version_token(s@) == Some(tok@),
            None => version_token(s@) is None,
        },
{
    let chars = chars_of(s);
    match first_version_run(chars.as_slice()) {
        Some((i, j)) => Some(s.substring_char(i, j)),
        None => None,
    }
}

/// A text in which no digit, dot and digit stand in a row holds no version token.
pub proof fn lemma_no_version_token(s: Seq<char>)
    requires
        forall|k: int|
            0 <= k && k + 2 < s.len() ==> !(is_digit(#[trigger] s[k]) && s[k + 1] == '.'
                && is_digit(s[k + 2])),
    ensures
        version_token(s) is None,
{
    if first_where(0, s.len() as int, version_run_start_at(s)) is Some {
        lemma_first_where_found(0, s.len() as int, version_run_start_at(s));
        let i = first_where(0, s.len() as int, version_run_start_at(s))->0;
        lemma_run_end_bounds(s, i);
        let run = s.subrange(i, run_end(s, i));
        reveal(has_version_shape);
        let d = choose|d: int|
            #![trigger run[d]]
            0 < d && d + 1 < run.len() && run[d] == '.' && is_digit(run[d + 1]) && forall|k: int|
                0 <= k < d ==> is_digit(#[trigger] run[k]);
        assert(is_digit(run[d - 1]));
        assert(run[d - 1] == s[i + d - 1]);
        assert(run[d] == s[i + d]);
        assert(run[d + 1] == s[i + d + 1]);
    }
}

/// A version-shaped run of digits and dots set between text that holds neither (before)
/// and text that does not start with one (after) is the version token of the whole.
pub proof fn lemma_embedded_version_token(pre: Seq<char>, tok: Seq<char>, post: Seq<char>)
    requires
        forall|k: int| 0 <= k < pre.len() ==> !is_token_char(#[trigger] pre[k]),
        forall|k: int| 0 <= k < tok.len() ==> is_token_char(#[trigger] tok[k]),
        has_version_shape(tok),
        post.len() == 0 || !is_token_char(post[0]),
    ensures
        version_token(pre + tok + post) == Some(tok),
{
    let s = pre + tok + post;
    let i = pre.len() as int;
    let j = i + tok.len();
    reveal(has_version_shape);
    assert forall|k: int| i <= k < j implies is_token_char(#[trigger] s[k]) by {
        assert(s[k] == tok[k - i]);
    }
    if j < s.len() {
        assert(s[j] == post[0]);
    }
    lemma_run_end(s, i, j);
    assert(s.subrange(i, j) =~= tok);
    if i > 0 {
        assert(s[i - 1] == pre[i - 1]);
    }
    assert(s[i] == tok[0]);
    assert(is_version_run_start(s, i));
    assert forall|k: int| 0 <= k < i implies !#[trigger] version_run_start_at(s)(k) by {
        assert(s[k] == pre[k]);
    }
    lemma_first_where_some(0, s.len() as int, version_run_start_at(s), i);
}

} // verus!
