//! The detection's decisions. The caller runs the diagnostic tools that an `Action`
//! names and hands each run's outcome back to `Detection::step`.
use vstd::prelude::*;
use crate::extract::{glibc_version, musl_version, glibc_version_of, parse_musl_version};
use crate::types::LibcVersions;

verus! {

/// The diagnostic tools that a detection may ask for, each to be run with `--version`.
#[derive(Clone, Copy, Debug, PartialEq, Eq, Structural)]
pub enum Tool {
    /// The dynamic linker's diagnostic tool, `ldd`.
    Ldd,
    /// musl's own loader tool, `musl-ldd`.
    MuslLdd,
}

impl Tool {
    /// The name of the tool's executable.
    pub fn command_name(&self) -> (r: &'static str)
        ensures
            *self == Tool::Ldd ==> r@ == "ldd"@,
            *self == Tool::MuslLdd ==> r@ == "musl-ldd"@,
    {
        match self {
            Tool::Ldd => "ldd",
            Tool::MuslLdd => "musl-ldd",
        }
    }
}

/// The two ways to detect: by running the diagnostic tools, or, on a platform that
/// has none, by reporting nothing found without running anything.
#[derive(Clone, Copy, Debug, PartialEq, Eq, Structural)]
pub enum PlatformDetector {
    Real,
    Null,
}

/// Where a detection stands.
pub enum Detection {
    /// Waiting for the run of `ldd`.
    AwaitingLdd,
    /// Waiting for the run of `musl-ldd`; `ldd` printed `ldd_output`.
    AwaitingMuslTool { ldd_output: String },
    /// The result has been handed out.
    Finished,
}

/// What the caller does next: run a tool and report its outcome, or take the result.
pub enum Action {
    Run(Tool),
    Finish(Result<LibcVersions, String>),
}

/// The versions that the tools' outputs state: glibc from the output of `ldd`; musl from
/// the output of `musl-ldd`, or from that of `ldd` where `musl-ldd` could not be run.
pub open spec fn detected_versions(ldd_output: Seq<char>, musl_output: Option<Seq<char>>) -> LibcVersions {
    LibcVersions {
        glibc: glibc_version(ldd_output),
        musl: musl_version(
            match musl_output {
                Some(m) => m,
                None => ldd_output,
            },
        ),
    }
}

/// Detection is repeatable: where the tools print the same text on two runs, the
/// versions found are the same.
pub proof fn lemma_detection_repeatable(
    ldd_first: Seq<char>,
    musl_first: Option<Seq<char>>,
    ldd_second: Seq<char>,
    musl_second: Option<Seq<char>>,
)
    requires
        ldd_first == ldd_second,
        musl_first == musl_second,
    ensures
        detected_versions(ldd_first, musl_first) == detected_versions(ldd_second, musl_second),
{
}

/// The versions that the tools' outputs state; `musl_output` is `None` where
/// `musl-ldd` could not be run, and the output of `ldd` then stands in for it.
pub fn libc_versions_from_outputs(ldd_output: &str, musl_output: Option<&str>) -> (r: LibcVersions)
    ensures
        r == detected_versions(
            ldd_output@,
            match musl_output {
                Some(m) => Some(m@),
                None => None,
            },
        ),
{
    let glibc = glibc_version_of(ldd_output);
    let musl = match musl_output {
        Some(m) => parse_musl_version(m),
        None => parse_musl_version(ldd_output),
    };
    LibcVersions { glibc, musl }
}

impl PlatformDetector {
    /// Opens a detection. The real detector first asks for a run of `ldd`; the null one
    /// finishes at once with nothing found, and asks for no run.
    pub fn start(&self) -> (r: (Detection, Action))
        ensures
            *self == PlatformDetector::Real ==> r.0 is AwaitingLdd && r.1 == Action::Run(Tool::Ldd),
            *self == PlatformDetector::Null ==> r.0 is Finished && r.1 == Action::Finish(
                Ok(LibcVersions { glibc: None, musl: None }),
            ),
    {
        match self {
            PlatformDetector::Real => (Detection::AwaitingLdd, Action::Run(Tool::Ldd)),
            PlatformDetector::Null => (
                Detection::Finished,
                Action::Finish(Ok(LibcVersions { glibc: None, musl: None })),
            ),
        }
    }
}

impl Detection {
    /// Takes the outcome of the run that the last action asked for: the tool's output,
    /// or the message of why it could not be run. A failed run of `ldd` ends the
    /// detection with that message; after `ldd`, `musl-ldd` is asked for; a failed run
    /// of `musl-ldd` is no error, and the output of `ldd` stands in for it.
    pub fn step(self, outcome: Result<String, String>) -> (r: (Detection, Action))
        requires
            !(self is Finished),
        ensures
            self is AwaitingLdd ==> match outcome {
                Ok(out) => r.0 == (Detection::AwaitingMuslTool { ldd_output: out }) && r.1
                    == Action::Run(Tool::MuslLdd),
                Err(e) => r.0 is Finished && r.1 == Action::Finish(Err(e)),
            },
            self is AwaitingMuslTool ==> r.0 is Finished && r.1 == Action::Finish(
                Ok(
                    detected_versions(
                        self->ldd_output@,
                        match outcome {
                            Ok(m) => Some(m@),
                            Err(_) => None,
                        },
                    ),
                ),
            ),
    {
        match self {
            Detection::AwaitingLdd => match outcome {
                Ok(out) => (Detection::AwaitingMuslTool { ldd_output: out }, Action::Run(Tool::MuslLdd)),
                Err(e) => (Detection::Finished, Action::Finish(Err(e))),
            },
            Detection::AwaitingMuslTool { ldd_output } => {
                let versions = match &outcome {
                    Ok(m) => libc_versions_from_outputs(ldd_output.as_str(), Some(m.as_str())),
                    Err(_) => libc_versions_from_outputs(ldd_output.as_str(), None),
                };
                (Detection::Finished, Action::Finish(Ok(versions)))
            },
            Detection::Finished => unreached(),
        }
    }
}

} // verus!
