use glibc_musl_version::{
    LibcVersions, Version, glibc_version_of, ldd_output_to_glibc_version_str, libc_versions_from_outputs,
    parse_musl_version,
};

#[test]
fn glibc_plain_banner() {
    let out = "ldd (GNU libc) 2.12\nCopyright ...";
    assert_eq!(ldd_output_to_glibc_version_str(out), Ok("2.12"));
    assert_eq!(glibc_version_of(out), Some(Version { major: 2, minor: 12 }));
}

#[test]
fn glibc_skips_parenthetical() {
    let out = "ldd (Ubuntu GLIBC 2.41-6ubuntu1.1) 2.41\n...";
    assert_eq!(ldd_output_to_glibc_version_str(out), Ok("2.41"));
    assert_eq!(glibc_version_of(out), Some(Version { major: 2, minor: 41 }));
}

#[test]
fn glibc_error_message() {
    assert_eq!(
        ldd_output_to_glibc_version_str("nothing"),
        Err("no glibc version in ldd output".to_string())
    );
}

#[test]
fn glibc_needs_closing_parenthesis_on_the_line() {
    assert!(ldd_output_to_glibc_version_str("ldd (GNU libc 2.12\n) 2.13").is_err());
}

#[test]
fn glibc_uses_first_anchor_line_only() {
    assert!(ldd_output_to_glibc_version_str("ldd (a) none\nldd (b) 2.5").is_err());
    assert_eq!(ldd_output_to_glibc_version_str("x\r\nldd (b) 2.5\r\n"), Ok("2.5"));
}

#[test]
fn glibc_token_must_follow_on_same_line() {
    assert!(ldd_output_to_glibc_version_str("ldd (GNU libc)\n2.12").is_err());
}

#[test]
fn musl_from_version_line() {
    assert_eq!(
        parse_musl_version("musl libc (x86_64)\nVersion 1.2.3\n"),
        Some(Version { major: 1, minor: 2 })
    );
}

#[test]
fn musl_from_anchor_line() {
    assert_eq!(
        parse_musl_version("musl libc (x86_64) 1.3.0\n"),
        Some(Version { major: 1, minor: 3 })
    );
}

#[test]
fn musl_version_line_without_anchor() {
    assert_eq!(parse_musl_version("loader\nVersion 1.2.4\n"), Some(Version { major: 1, minor: 2 }));
    assert_eq!(parse_musl_version("  Version 1.2.4"), None);
}

#[test]
fn musl_anchor_token_may_lie_on_a_later_line() {
    assert_eq!(parse_musl_version("musl libc\nsomething 1.2.5"), Some(Version { major: 1, minor: 2 }));
}

#[test]
fn musl_first_version_line_only() {
    assert_eq!(parse_musl_version("Version x\nVersion 1.2"), None);
}

#[test]
fn musl_token_that_overflows_is_not_detected() {
    assert_eq!(parse_musl_version("musl libc 99999999999999999999999.1\nVersion 1.2"), None);
}

#[test]
fn nothing_detected() {
    let out = "some random output not containing versions";
    assert!(ldd_output_to_glibc_version_str(out).is_err());
    assert_eq!(parse_musl_version(out), None);
    let r = libc_versions_from_outputs(out, None);
    assert_eq!(r, LibcVersions { glibc: None, musl: None });
    assert_eq!(r.to_string(), "glibc <not detected> | musl <not detected>");
}

#[test]
fn round_trip_through_banners() {
    for (major, minor) in [(0usize, 0usize), (2, 41), (1, 2), (10, 305), (usize::MAX, 7)] {
        let v = Version { major, minor };
        let glibc_line = format!("ldd (GNU libc) {}", v.to_string());
        assert_eq!(glibc_version_of(&glibc_line), Some(v));
        let musl_line = format!("musl libc {}", v.to_string());
        assert_eq!(parse_musl_version(&musl_line), Some(v));
    }
}
