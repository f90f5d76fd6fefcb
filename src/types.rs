//! The version records and their textual form.
use vstd::prelude::*;

verus! {

/// A two-part version number, `major.minor`.
#[derive(Clone, Copy, Debug, PartialEq, Eq, Structural)]
pub struct Version {
    pub major: usize,
    pub minor: usize,
}

/// The outcome of one detection: the glibc and the musl version, each if found.
#[derive(Clone, Copy, Debug, PartialEq, Eq, Structural)]
pub struct LibcVersions {
    pub glibc: Option<Version>,
    pub musl: Option<Version>,
}

/// The decimal digit for `d`, below ten.
pub open spec fn digit_char(d: nat) -> char {
    seq!['0', '1', '2', '3', '4', '5', '6', '7', '8', '9'][d as int]
}

/// The decimal numeral of `n`, without leading zeros.
pub open spec fn decimal(n: nat) -> Seq<char>
    decreases n,
{
    if n < 10 {
        seq![digit_char(n)]
    } else {
        decimal(n / 10).push(digit_char(n % 10))
    }
}

/// `major.minor` in decimal.
pub open spec fn version_text(v: Version) -> Seq<char> {
    decimal(v.major as nat) + seq!['.'] + decimal(v.minor as nat)
}

/// One side of the rendered result: the version, or a note that none was found.
pub open spec fn detected_text(v: Option<Version>) -> Seq<char> {
    match v {
        Some(v) => version_text(v),
        None => "<not detected>"@,
    }
}

/// `glibc {glibc} | musl {musl}`.
pub open spec fn libc_versions_text(l: LibcVersions) -> Seq<char> {
    "glibc "@ + detected_text(l.glibc) + " | musl "@ + detected_text(l.musl)
}

/// The numeral of a single decimal digit.
fn digit_str(d: usize) -> (r: &'static str)
    requires
        d < 10,
    ensures
        r@ == seq![digit_char(d as nat)],
{
    proof {
        reveal_strlit("0");
        reveal_strlit("1");
        reveal_strlit("2");
        reveal_strlit("3");
        reveal_strlit("4");
        reveal_strlit("5");
        reveal_strlit("6");
        reveal_strlit("7");
        reveal_strlit("8");
        reveal_strlit("9");
    }
    match d {
        0 => "0",
        1 => "1",
        2 => "2",
        3 => "3",
        4 => "4",
        5 => "5",
        6 => "6",
        7 => "7",
        8 => "8",
        _ => "9",
    }
}

/// Appends the decimal numeral of `n` to `out`.
fn push_decimal(out: &mut String, n: usize)
    ensures
        final(out)@ == old(out)@ + decimal(n as nat),
    decreases n,
{
    if n < 10 {
        out.append(digit_str(n));
    } else {
        push_decimal(out, n / 10);
        out.append(digit_str(n % 10));
        assert(final(out)@ =~= old(out)@ + decimal(n as nat));
    }
}

impl Version {
    /// The version as `major.minor`.
    pub fn to_string(&self) -> (r: String)
        ensures
            r@ == version_text(*self),
    {
        let mut out = String::new();
        push_decimal(&mut out, self.major);
        out.append(".");
        proof {
            reveal_strlit(".");
        }
        push_decimal(&mut out, self.minor);
        assert(out@ =~= version_text(*self));
        out
    }
}

fn push_detected(out: &mut String, v: &Option<Version>)
    ensures
        final(out)@ == old(out)@ + detected_text(*v),
{
    match v {
        Some(v) => {
            let text = v.to_string();
            out.append(text.as_str());
        },
        None => out.append("<not detected>"),
    }
}

impl LibcVersions {
    /// The result as `glibc {major}.{minor} | musl {major}.{minor}`, with
    /// `<not detected>` standing for a version that was not found.
    pub fn to_string(&self) -> (r: String)
        ensures
            r@ == libc_versions_text(*self),
    {
        let mut out = String::new();
        out.append("glibc ");
        push_detected(&mut out, &self.glibc);
        out.append(" | musl ");
        push_detected(&mut out, &self.musl);
        assert(out@ =~= libc_versions_text(*self));
        out
    }
}

} // verus!
