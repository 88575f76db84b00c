use vstd::prelude::*;

verus! {

/// A version representing ENet's version schema.
///
/// Get the current version with [`Version::current`].
#[derive(Debug, Clone, Copy, PartialEq, Eq, Structural)]
pub struct Version {
    pub major: u8,
    pub minor: u8,
    pub patch: u8,
}

impl Version {
    /// Get the version of the ENet library.
    pub fn current() -> (v: Version)
        ensures
            v == (Version { major: 1, minor: 3, patch: 18 }),
    {
        Version { major: 1, minor: 3, patch: 18 }
    }
}

} // verus!
