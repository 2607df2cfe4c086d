//! Protocol versions.

use vstd::prelude::*;

verus! {

/// A version of the protocol.
#[derive(Clone, Copy, Debug, PartialEq, Eq, Structural)]
pub struct Version {
    pub major: u8,
    pub minor: u8,
}

impl Version {
    pub fn new(major: u8, minor: u8) -> (r: Self)
        ensures
            r == (Version { major, minor }),
    {
        Version { major, minor }
    }
}

} // verus!
