//! Sequences of characters: first positions, occurrences, lines.
use vstd::prelude::*;

verus! {

/// The least index in `lo..hi` at which `p` holds, if there is one.
#[verifier::opaque]
pub open spec fn first_where(lo: int, hi: int, p: spec_fn(int) -> bool) -> Option<int> {
    if exists|k: int| lo <= k < hi && #[trigger] p(k) {
        Some(choose|k: int| lo <= k < hi && #[trigger] p(k) && forall|m: int| lo <= m < k ==> !#[trigger] p(m))
    } else {
        None
    }
}

/// A witness that is the least in its range is what `first_where` returns.
pub proof fn lemma_first_where_some(lo: int, hi: int, p: spec_fn(int) -> bool, k: int)
    requires
        lo <= k < hi,
        p(k),
        forall|m: int| lo <= m < k ==> !#[trigger] p(m),
    ensures
        first_where(lo, hi, p) == Some(k),
{
    reveal(first_where);
    let c = choose|c: int| lo <= c < hi && #[trigger] p(c) && forall|m: int| lo <= m < c ==> !#[trigger] p(m);
    assert(lo <= c < hi && p(c) && forall|m: int| lo <= m < c ==> !#[trigger] p(m));
    if c < k {
        assert(!p(c));
    } else if c > k {
        assert(!p(k));
    }
}

/// Where `p` holds nowhere in the range, `first_where` finds nothing.
pub proof fn lemma_first_where_none(lo: int, hi: int, p: spec_fn(int) -> bool)
    requires
        forall|m: int| lo <= m < hi ==> !#[trigger] p(m),
    ensures
        first_where(lo, hi, p) is None,
{
    reveal(first_where);
}

/// What `first_where` returns lies in the range, satisfies `p`, and is the least such index.
pub proof fn lemma_first_where_found(lo: int, hi: int, p: spec_fn(int) -> bool)
    requires
        first_where(lo, hi, p) is Some,
    ensures
        lo <= first_where(lo, hi, p)->0 < hi,
        p(first_where(lo, hi, p)->0),
        forall|m: int| lo <= m < first_where(lo, hi, p)->0 ==> !#[trigger] p(m),
{
    reveal(first_where);
    let k = choose|k: int| lo <= k < hi && #[trigger] p(k);
    let c = choose|c: int| lo <= c < hi && #[trigger] p(c) && forall|m: int| lo <= m < c ==> !#[trigger] p(m);
    assert(lo <= c < hi && p(c) && forall|m: int| lo <= m < c ==> !#[trigger] p(m)) by {
        lemma_least_exists(lo, hi, p, k);
    }
}

/// Where `p` holds at `k`, some least index in `lo..=k` satisfies it.
proof fn lemma_least_exists(lo: int, hi: int, p: spec_fn(int) -> bool, k: int)
    requires
        lo <= k < hi,
        p(k),
    ensures
        exists|c: int| lo <= c < hi && #[trigger] p(c) && forall|m: int| lo <= m < c ==> !#[trigger] p(m),
    decreases k - lo,
{
    if exists|m: int| lo <= m < k && #[trigger] p(m) {
        let m = choose|m: int| lo <= m < k && #[trigger] p(m);
        lemma_least_exists(lo, hi, p, m);
    } else {
        assert(lo <= k < hi && p(k) && forall|m: int| lo <= m < k ==> !#[trigger] p(m));
    }
}

/// An index option read as an integer one.
pub open spec fn as_int(r: Option<usize>) -> Option<int> {
    match r {
        Some(k) => Some(k as int),
        None => None,
    }
}

/// The characters of `s`, in order.
pub fn chars_of(s: &str) -> (r: Vec<char>)
    ensures
        r@ == s@,
{
    let mut v: Vec<char> = Vec::new();
    for c in it: s.chars()
        invariant
            v@ == it.seq().take(it.index() as int),
    {
        v.push(c);
    }
    assert(v@ == s@);
    v
}

/// `s` holds the character `c` at index `k`.
pub open spec fn char_at(s: Seq<char>, c: char) -> spec_fn(int) -> bool {
    |k: int| s[k] == c
}

/// `pat` occurs in `s` starting at index `i`.
pub open spec fn occurs_at(s: Seq<char>, pat: Seq<char>, i: int) -> bool {
    0 <= i && i + pat.len() <= s.len() && s.subrange(i, i + pat.len()) == pat
}

pub open spec fn occurrence_at(s: Seq<char>, pat: Seq<char>) -> spec_fn(int) -> bool {
    |i: int| occurs_at(s, pat, i)
}

/// A line of `s` begins at `i`.
pub open spec fn is_line_start(s: Seq<char>, i: int) -> bool {
    i == 0 || s[i - 1] == '\n'
}

/// The end of the line that holds index `i`: the next newline, or the end of `s`.
pub open spec fn line_end(s: Seq<char>, i: int) -> int {
    match first_where(i, s.len() as int, char_at(s, '\n')) {
        Some(k) => k,
        None => s.len() as int,
    }
}

/// The first index of `c` in `t[lo..hi]`.
pub fn find_char(t: &[char], c: char, lo: usize, hi: usize) -> (r: Option<usize>)
    requires
        lo <= hi <= t@.len(),
    ensures
        as_int(r) == first_where(lo as int, hi as int, char_at(t@, c)),
{
    let mut k: usize = lo;
    while k < hi
        invariant
            lo <= k <= hi <= t@.len(),
            forall|m: int| lo <= m < k ==> t@[m] != c,
        decreases hi - k,
    {
        if t[k] == c {
            proof {
                lemma_first_where_some(lo as int, hi as int, char_at(t@, c), k as int);
            }
            return Some(k);
        }
        k = k + 1;
    }
    proof {
        lemma_first_where_none(lo as int, hi as int, char_at(t@, c));
    }
    None
}

/// The end of the line of `t` that holds index `i`.
pub fn end_of_line(t: &[char], i: usize) -> (r: usize)
    requires
        i <= t@.len(),
    ensures
        r as int == line_end(t@, i as int),
        i <= r <= t@.len(),
{
    match find_char(t, '\n', i, t.len()) {
        Some(k) => {
            proof {
                lemma_first_where_found(i as int, t@.len() as int, char_at(t@, '\n'));
            }
            k
        },
        None => t.len(),
    }
}

/// Whether `pat` occurs in `t` at index `i`.
pub fn matches_at(t: &[char], pat: &[char], i: usize) -> (r: bool)
    ensures
        r == occurs_at(t@, pat@, i as int),
{
    if i > t.len() || pat.len() > t.len() - i {
        return false;
    }
    let mut k: usize = 0;
    while k < pat.len()
        invariant
            i + pat@.len() <= t@.len() == t.len(),
            k <= pat@.len() == pat.len(),
            forall|m: int| 0 <= m < k ==> t@[i + m] == pat@[m],
        decreases pat@.len() - k,
    {
        if t[i + k] != pat[k] {
            proof {
                assert(t@.subrange(i as int, i + pat@.len())[k as int] == t@[i + k]);
            }
            return false;
        }
        k = k + 1;
    }
    proof {
        assert(t@.subrange(i as int, i + pat@.len()) =~= pat@);
    }
    true
}

/// The first index at which `pat` occurs in `t`.
pub fn find_pattern(t: &[char], pat: &[char]) -> (r: Option<usize>)
    ensures
        as_int(r) == first_where(0, t@.len() as int, occurrence_at(t@, pat@)),
{
    let mut k: usize = 0;
    while k < t.len()
        invariant
            k <= t@.len(),
            forall|m: int| 0 <= m < k ==> !#[trigger] occurs_at(t@, pat@, m),
        decreases t@.len() - k,
    {
        if matches_at(t, pat, k) {
            proof {
                lemma_first_where_some(0, t@.len() as int, occurrence_at(t@, pat@), k as int);
            }
            return Some(k);
        }
        k = k + 1;
    }
    proof {
        lemma_first_where_none(0, t@.len() as int, occurrence_at(t@, pat@));
    }
    None
}

pub open spec fn line_with_prefix_at(s: Seq<char>, pat: Seq<char>) -> spec_fn(int) -> bool {
    |i: int| is_line_start(s, i) && occurs_at(s, pat, i)
}

/// The start of the first line of `t` that begins with `pat`.
pub fn find_line_starting_with(t: &[char], pat: &[char]) -> (r: Option<usize>)
    ensures
        as_int(r) == first_where(0, t@.len() as int, line_with_prefix_at(t@, pat@)),
{
    let mut k: usize = 0;
    while k < t.len()
        invariant
            k <= t@.len(),
            forall|m: int| 0 <= m < k ==> !#[trigger] line_with_prefix_at(t@, pat@)(m),
        decreases t@.len() - k,
    {
        if (k == 0 || t[k - 1] == '\n') && matches_at(t, pat, k) {
            proof {
                lemma_first_where_some(0, t@.len() as int, line_with_prefix_at(t@, pat@), k as int);
            }
            return Some(k);
        }
        k = k + 1;
    }
    proof {
        lemma_first_where_none(0, t@.len() as int, line_with_prefix_at(t@, pat@));
    }
    None
}

} // verus!
