use glibc_musl_version::detect_other::get_os_libc_versions;
use glibc_musl_version::{
    Action, Detection, LibcVersions, PlatformDetector, Tool, Version, combine_output,
    libc_versions_from_outputs,
};

const GLIBC_OUT: &str = "ldd (GNU libc) 2.17\nCopyright (C) 2013 Free Software Foundation, Inc.";
const MUSL_OUT: &str = "musl libc (x86_64)\nVersion 1.1.24\n";

#[test]
fn null_detector_runs_nothing() {
    let (state, action) = PlatformDetector::Null.start();
    assert!(matches!(state, Detection::Finished));
    match action {
        Action::Finish(r) => assert_eq!(r, Ok(LibcVersions { glibc: None, musl: None })),
        Action::Run(_) => panic!("the null detector ran a tool"),
    }
    assert_eq!(get_os_libc_versions(), Ok(LibcVersions { glibc: None, musl: None }));
}

#[test]
fn real_detector_asks_for_ldd_then_musl_ldd() {
    let (state, action) = PlatformDetector::Real.start();
    assert!(matches!(action, Action::Run(Tool::Ldd)));
    let (state, action) = state.step(Ok(GLIBC_OUT.to_string()));
    assert!(matches!(action, Action::Run(Tool::MuslLdd)));
    let (state, action) = state.step(Ok(MUSL_OUT.to_string()));
    assert!(matches!(state, Detection::Finished));
    match action {
        Action::Finish(r) => assert_eq!(
            r,
            Ok(LibcVersions {
                glibc: Some(Version { major: 2, minor: 17 }),
                musl: Some(Version { major: 1, minor: 1 }),
            })
        ),
        Action::Run(_) => panic!("expected the result"),
    }
}

#[test]
fn missing_primary_tool_is_an_error() {
    let (state, _) = PlatformDetector::Real.start();
    let (state, action) = state.step(Err("failed to execute ldd: not found".to_string()));
    assert!(matches!(state, Detection::Finished));
    match action {
        Action::Finish(r) => assert_eq!(r, Err("failed to execute ldd: not found".to_string())),
        Action::Run(_) => panic!("expected the error"),
    }
}

#[test]
fn missing_musl_tool_falls_back_to_ldd_output() {
    let (state, _) = PlatformDetector::Real.start();
    let (state, _) = state.step(Ok(MUSL_OUT.to_string()));
    let (_, action) = state.step(Err("no musl-ldd".to_string()));
    match action {
        Action::Finish(r) => assert_eq!(
            r,
            Ok(LibcVersions { glibc: None, musl: Some(Version { major: 1, minor: 1 }) })
        ),
        Action::Run(_) => panic!("expected the result"),
    }
}

#[test]
fn detection_is_repeatable() {
    let first = libc_versions_from_outputs(GLIBC_OUT, Some(MUSL_OUT));
    let second = libc_versions_from_outputs(GLIBC_OUT, Some(MUSL_OUT));
    assert_eq!(first, second);
    assert_eq!(first.to_string(), "glibc 2.17 | musl 1.1");
}

#[test]
fn tool_names() {
    assert_eq!(Tool::Ldd.command_name(), "ldd");
    assert_eq!(Tool::MuslLdd.command_name(), "musl-ldd");
}

#[test]
fn version_renders_major_dot_minor() {
    assert_eq!(Version { major: 0, minor: 0 }.to_string(), "0.0");
    assert_eq!(Version { major: 123, minor: 4560 }.to_string(), "123.4560");
}

#[test]
fn combine_output_joins_and_trims() {
    assert_eq!(combine_output(b"  out\n", b"err \n"), "out\n\nerr");
    assert_eq!(combine_output(b"", b""), "");
    assert_eq!(combine_output(b"\t\n", b"\xe3\x80\x80"), "");
}

#[test]
fn combine_output_replaces_invalid_bytes() {
    assert_eq!(combine_output(b"a\xffb", b""), "a\u{fffd}b");
}
