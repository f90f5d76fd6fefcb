//! Detection on a platform without the diagnostic tools.
use vstd::prelude::*;
use crate::types::LibcVersions;

verus! {

/// Detection where the diagnostic tools do not exist: nothing is run and nothing is found.
pub fn get_os_libc_versions() -> (r: Result<LibcVersions, String>)
    ensures
        r == Ok::<LibcVersions, String>(LibcVersions { glibc: None, musl: None }),
{
    Ok(LibcVersions { glibc: None, musl: None })
}

} // verus!
