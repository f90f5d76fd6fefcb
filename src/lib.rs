//! Detection of the C standard library (glibc or musl) of the host and of its
//! `major.minor` version, from the text that the system's diagnostic tools print.
pub mod text;
pub mod scan;
pub mod types;
pub mod parse;
pub mod extract;
pub mod output;
pub mod detect;
pub mod detect_other;

pub use detect::{Action, Detection, PlatformDetector, Tool, libc_versions_from_outputs};
pub use extract::{glibc_version_of, ldd_output_to_glibc_version_str, parse_musl_version};
pub use output::combine_output;
pub use parse::parse_glibc_version;
pub use scan::find_version_token;
pub use types::{LibcVersions, Version};
