use glibc_musl_version::{
    LibcVersions, Version, ldd_output_to_glibc_version_str, parse_glibc_version, parse_musl_version,
};

#[test]
fn parse_glibc_ldd_output() {
    let out = r#"ldd (GNU libc) 2.12
Copyright (C) 2010 Free Software Foundation, Inc."#;
    let ver_res = ldd_output_to_glibc_version_str(out);
    assert!(ver_res.is_ok());
    let ver_str = ver_res.unwrap();
    assert_eq!(ver_str, "2.12");
    let parsed = parse_glibc_version(ver_str);
    let parsed = parsed.unwrap();
    assert_eq!(parsed.major, 2);
    assert_eq!(parsed.minor, 12);

    let out2 = r#"ldd (Ubuntu GLIBC 2.41-6ubuntu1.1) 2.41
Copyright (C) 2024 Free Software Foundation, Inc.
This is free software; see the source for copying conditions.  There is NO
warranty; not even for MERCHANTABILITY or FITNESS FOR A PARTICULAR PURPOSE.
Written by Roland McGrath and Ulrich Drepper.
"#;
    let ver_res2 = ldd_output_to_glibc_version_str(out2);
    assert!(ver_res2.is_ok());
    let ver_str2 = ver_res2.unwrap();
    assert_eq!(ver_str2, "2.41");
    let parsed2 = parse_glibc_version(ver_str2);
    let parsed2 = parsed2.unwrap();
    assert_eq!(parsed2.major, 2);
    assert_eq!(parsed2.minor, 41);
}

#[test]
fn parse_musl_from_ldd_output() {
    let out = "musl libc (x86_64)\nVersion 1.2.3\n";
    let parsed = parse_musl_version(out);
    let parsed = parsed.unwrap();
    assert_eq!(parsed.major, 1);
    assert_eq!(parsed.minor, 2);

    let out2 = "musl libc (x86_64) 1.3.0\n";
    let parsed2 = parse_musl_version(out2);
    let parsed2 = parsed2.unwrap();
    assert_eq!(parsed2.major, 1);
    assert_eq!(parsed2.minor, 3);
}

#[test]
fn get_version_fallbacks() {
    let out = "some random output not containing versions";
    assert!(ldd_output_to_glibc_version_str(out).is_err());
    assert!(parse_musl_version(out).is_none());
}

#[test]
fn get_os_libc_versions_both_none() {
    // Output that names neither glibc nor musl
    let out = "random output without libc info";
    let glibc = parse_glibc_version(out);
    let musl = parse_musl_version(out);
    assert!(glibc.is_none());
    assert!(musl.is_none());
}

#[test]
fn get_os_libc_versions_glibc_only() {
    // glibc's output
    let out = r#"ldd (GNU libc) 2.17\nCopyright (C) 2013 Free Software Foundation, Inc."#;
    let glibc = parse_glibc_version("2.17");
    let musl = parse_musl_version(out);
    assert!(glibc.is_some());
    assert!(musl.is_none());
    let v = glibc.unwrap();
    assert_eq!(v.major, 2);
    assert_eq!(v.minor, 17);
}

#[test]
fn get_os_libc_versions_musl_only() {
    // musl's output
    let out = "musl libc (x86_64)\nVersion 1.1.24\n";
    let glibc = parse_glibc_version(out);
    let musl = parse_musl_version(out);
    assert!(glibc.is_none());
    assert!(musl.is_some());
    let v = musl.unwrap();
    assert_eq!(v.major, 1);
    assert_eq!(v.minor, 1);
}

#[test]
fn libc_versions_display() {
    let both = LibcVersions {
        glibc: Some(Version { major: 2, minor: 31 }),
        musl: Some(Version { major: 1, minor: 2 }),
    };
    assert_eq!(both.to_string(), "glibc 2.31 | musl 1.2");
    let only_glibc = LibcVersions {
        glibc: Some(Version { major: 2, minor: 17 }),
        musl: None,
    };
    assert_eq!(only_glibc.to_string(), "glibc 2.17 | musl <not detected>");
    let only_musl = LibcVersions {
        glibc: None,
        musl: Some(Version { major: 1, minor: 1 }),
    };
    assert_eq!(only_musl.to_string(), "glibc <not detected> | musl 1.1");
    let none = LibcVersions {
        glibc: None,
        musl: None,
    };
    assert_eq!(none.to_string(), "glibc <not detected> | musl <not detected>");
}
