use glibc_musl_version::{find_version_token, parse_glibc_version};

#[test]
fn scanner_finds_nothing_without_digits_dot_digits() {
    assert_eq!(find_version_token(""), None);
    assert_eq!(find_version_token("no numbers here"), None);
    assert_eq!(find_version_token("12 34 5. .6 . 7..8"), None);
    assert_eq!(find_version_token("2021"), None);
}

#[test]
fn scanner_rejects_lone_dot_and_missing_major() {
    assert_eq!(find_version_token("."), None);
    assert_eq!(find_version_token(".5"), None);
    assert_eq!(find_version_token("x .5 y 3."), None);
}

#[test]
fn scanner_returns_token_amid_noise() {
    assert_eq!(find_version_token("(abc) 2.41 xyz"), Some("2.41"));
    assert_eq!(find_version_token("v1.2-beta"), Some("1.2"));
    assert_eq!(find_version_token("[10.0]"), Some("10.0"));
}

#[test]
fn scanner_keeps_longer_dotted_continuation() {
    assert_eq!(find_version_token("release 2.41.3 build"), Some("2.41.3"));
    assert_eq!(find_version_token("1.2..3"), Some("1.2..3"));
}

#[test]
fn scanner_first_match_wins() {
    assert_eq!(find_version_token("a 1.2 b 3.4"), Some("1.2"));
    assert_eq!(find_version_token(".5 then 7.8"), Some("7.8"));
    assert_eq!(find_version_token("é 3.14 ü"), Some("3.14"));
}

#[test]
fn parse_version_keeps_first_two_parts() {
    let v = parse_glibc_version("1.2.3").unwrap();
    assert_eq!((v.major, v.minor), (1, 2));
    let v = parse_glibc_version("07.010").unwrap();
    assert_eq!((v.major, v.minor), (7, 10));
}

#[test]
fn parse_version_rejects_what_does_not_parse() {
    assert!(parse_glibc_version("2").is_none());
    assert!(parse_glibc_version("2.").is_none());
    assert!(parse_glibc_version(".5").is_none());
    assert!(parse_glibc_version("a.b").is_none());
    assert!(parse_glibc_version("-1.2").is_none());
}

#[test]
fn parse_version_overflow_is_not_detected() {
    assert!(parse_glibc_version("99999999999999999999999.1").is_none());
    assert!(parse_glibc_version("1.99999999999999999999999").is_none());
    let v = parse_glibc_version("18446744073709551615.0");
    if usize::MAX as u128 == 18446744073709551615u128 {
        assert_eq!(v.unwrap().major, usize::MAX);
    }
}

#[test]
fn parse_version_accepts_plus_sign_like_str_parse() {
    let v = parse_glibc_version("+3.+4").unwrap();
    assert_eq!((v.major, v.minor), (3, 4));
    assert!(parse_glibc_version("+.4").is_none());
}
