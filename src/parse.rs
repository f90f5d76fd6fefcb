//! Reading a `Version` from text of the form `major.minor[.more]`.
use vstd::prelude::*;
use vstd::slice::slice_subrange;
use crate::scan::{is_digit, is_digit_char};
use crate::text::{first_where, char_at, as_int, chars_of, find_char, lemma_first_where_found};
use crate::types::{Version, digit_char, decimal, version_text};
use crate::text::lemma_first_where_some;
use crate::text::lemma_first_where_none;

verus! {

/// The value of the decimal digit `c`.
pub open spec fn digit_value(c: char) -> nat {
    (c as u32 - '0' as u32) as nat
}

/// The value of the decimal numeral `t`, read from its most significant digit.
pub open spec fn digits_value(t: Seq<char>) -> nat
    decreases t.len(),
{
    if t.len() == 0 {
        0
    } else {
        digits_value(t.drop_last()) * 10 + digit_value(t.last())
    }
}

/// The digits of an unsigned numeral: the text after a leading `+`, if there is one.
pub open spec fn unsigned_digits(t: Seq<char>) -> Seq<char> {
    if t.len() > 0 && t[0] == '+' {
        t.drop_first()
    } else {
        t
    }
}

/// `t` read as a `usize` the way Rust's `str::parse` reads it: an optional `+`, then one
/// or more decimal digits whose value fits.
pub open spec fn parse_usize(t: Seq<char>) -> Option<usize> {
    let b = unsigned_digits(t);
    if b.len() > 0 && (forall|k: int| 0 <= k < b.len() ==> is_digit(#[trigger] b[k]))
        && digits_value(b) <= usize::MAX {
        Some(digits_value(b) as usize)
    } else {
        None
    }
}

/// The first two dot-separated parts of `t` read as major and minor; `None` when `t`
/// has no dot or either part is not a number that fits.
pub open spec fn parse_version(t: Seq<char>) -> Option<Version> {
    match first_where(0, t.len() as int, char_at(t, '.')) {
        None => None,
        Some(d1) => {
            let d2 = match first_where(d1 + 1, t.len() as int, char_at(t, '.')) {
                Some(d) => d,
                None => t.len() as int,
            };
            match (parse_usize(t.subrange(0, d1)), parse_usize(t.subrange(d1 + 1, d2))) {
                (Some(major), Some(minor)) => Some(Version { major, minor }),
                _ => None,
            }
        },
    }
}

/// A numeral's value is at least that of any of its prefixes.
pub proof fn lemma_digits_value_prefix(t: Seq<char>, k: int)
    requires
        0 <= k <= t.len(),
    ensures
        digits_value(t.take(k)) <= digits_value(t),
    decreases t.len() - k,
{
    if k < t.len() {
        lemma_digits_value_prefix(t, k + 1);
        assert(t.take(k + 1).drop_last() =~= t.take(k));
        assert(digits_value(t.take(k + 1)) == digits_value(t.take(k)) * 10 + digit_value(
            t.take(k + 1).last(),
        ));
    } else {
        assert(t.take(k) =~= t);
    }
}

/// `t` read as a `usize`, as Rust's `str::parse` reads it.
pub fn parse_component(t: &[char]) -> (r: Option<usize>)
    ensures
        r == parse_usize(t@),
{
    let start: usize = if t.len() > 0 && t[0] == '+' { 1 } else { 0 };
    let ghost b = unsigned_digits(t@);
    assert(b =~= t@.subrange(start as int, t@.len() as int));
    if start == t.len() {
        return None;
    }
    let mut value: usize = 0;
    let mut k: usize = start;
    while k < t.len()
        invariant
            start <= k <= t@.len() == t.len(),
            b == unsigned_digits(t@),
            b == t@.subrange(start as int, t@.len() as int),
            forall|m: int| start <= m < k ==> is_digit(#[trigger] t@[m]),
            value as nat == digits_value(b.take(k - start)),
        decreases t.len() - k,
    {
        let c = t[k];
        if !is_digit_char(c) {
            proof {
                assert(b[k - start] == c);
            }
            return None;
        }
        let d = (c as u32 - '0' as u32) as usize;
        proof {
            assert(b.take(k - start + 1).drop_last() =~= b.take(k - start));
            assert(b.take(k - start + 1).last() == c);
            assert(digits_value(b.take(k - start + 1)) == value * 10 + d);
        }
        match value.checked_mul(10) {
            Some(tens) => match tens.checked_add(d) {
                Some(v) => {
                    value = v;
                },
                None => {
                    proof {
                        lemma_digits_value_prefix(b, k - start + 1);
                    }
                    return None;
                },
            },
            None => {
                proof {
                    lemma_digits_value_prefix(b, k - start + 1);
                }
                return None;
            },
        }
        k = k + 1;
    }
    proof {
        assert(b.take(k - start) =~= b);
        assert forall|m: int| 0 <= m < b.len() implies is_digit(#[trigger] b[m]) by {
            assert(b[m] == t@[start + m]);
        }
    }
    Some(value)
}

/// The version that the first two dot-separated parts of `t` give.
pub fn version_of_chars(t: &[char]) -> (r: Option<Version>)
    ensures
        r == parse_version(t@),
{
    let n = t.len();
    match find_char(t, '.', 0, n) {
        None => None,
        Some(d1) => {
            proof {
                lemma_first_where_found(0, n as int, char_at(t@, '.'));
            }
            let d2 = match find_char(t, '.', d1 + 1, n) {
                Some(d) => {
                    proof {
                        lemma_first_where_found(d1 + 1, n as int, char_at(t@, '.'));
                    }
                    d
                },
                None => n,
            };
            let major = parse_component(slice_subrange(t, 0, d1));
            let minor = parse_component(slice_subrange(t, d1 + 1, d2));
            match (major, minor) {
                (Some(major), Some(minor)) => Some(Version { major, minor }),
                _ => None,
            }
        },
    }
}

/// The version that the first two dot-separated parts of `version` give, read as
/// major and minor; `None` when there is no dot or either part is not a number that
/// fits in a `usize`.
pub fn parse_glibc_version(version: &str) -> (r: Option<Version>)
    ensures
        r == parse_version(version@),
{
    let chars = chars_of(version);
    version_of_chars(chars.as_slice())
}

/// A digit's numeral is a digit of that value.
pub proof fn lemma_digit_char(d: nat)
    requires
        d < 10,
    ensures
        is_digit(digit_char(d)),
        digit_value(digit_char(d)) == d,
{
    let ds = seq!['0', '1', '2', '3', '4', '5', '6', '7', '8', '9'];
    assert(ds[0] == '0' && ds[1] == '1' && ds[2] == '2' && ds[3] == '3' && ds[4] == '4');
    assert(ds[5] == '5' && ds[6] == '6' && ds[7] == '7' && ds[8] == '8' && ds[9] == '9');
}

/// A decimal numeral is made of digits, and reads back as its number.
pub proof fn lemma_decimal(n: nat)
    ensures
        decimal(n).len() > 0,
        forall|k: int| 0 <= k < decimal(n).len() ==> is_digit(#[trigger] decimal(n)[k]),
        digits_value(decimal(n)) == n,
    decreases n,
{
    if n < 10 {
        lemma_digit_char(n);
        assert(decimal(n).drop_last() =~= Seq::<char>::empty());
        assert(digits_value(Seq::<char>::empty()) == 0);
        assert(digits_value(decimal(n)) == digits_value(decimal(n).drop_last()) * 10
            + digit_value(decimal(n).last()));
    } else {
        lemma_decimal(n / 10);
        lemma_digit_char(n % 10);
        assert(decimal(n).drop_last() =~= decimal(n / 10));
        assert(digits_value(decimal(n)) == digits_value(decimal(n).drop_last()) * 10
            + digit_value(decimal(n).last()));
        assert((n / 10) * 10 + n % 10 == n) by (nonlinear_arith);
    }
}

/// Writing a `usize` in decimal and reading it back gives the same number.
pub proof fn lemma_parse_decimal(n: usize)
    ensures
        parse_usize(decimal(n as nat)) == Some(n),
{
    lemma_decimal(n as nat);
    assert(unsigned_digits(decimal(n as nat)) == decimal(n as nat)) by {
        assert(is_digit(decimal(n as nat)[0]));
    }
}

/// Writing a version as `major.minor` and reading it back gives the same version.
pub proof fn lemma_parse_version_text(v: Version)
    ensures
        parse_version(version_text(v)) == Some(v),
{
    let a = decimal(v.major as nat);
    let b = decimal(v.minor as nat);
    let t = version_text(v);
    let la = a.len() as int;
    lemma_decimal(v.major as nat);
    lemma_decimal(v.minor as nat);
    lemma_parse_decimal(v.major);
    lemma_parse_decimal(v.minor);
    assert forall|m: int| 0 <= m < a.len() implies !#[trigger] char_at(t, '.')(m) by {
        assert(t[m] == a[m]);
    }
    assert(t[a.len() as int] == '.');
    lemma_first_where_some(0, t.len() as int, char_at(t, '.'), la);
    assert forall|m: int| la + 1 <= m < t.len() implies !#[trigger] char_at(t, '.')(m) by {
        assert(t[m] == b[m - la - 1]);
    }
    lemma_first_where_none(la + 1, t.len() as int, char_at(t, '.'));
    assert(t.subrange(0, a.len() as int) =~= a);
    assert(t.subrange(la + 1, t.len() as int) =~= b);
}

} // verus!
