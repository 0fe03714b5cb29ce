//! Addresses in the debugee: relocated (as mapped in memory) and global (as
//! written in the object file).

use vstd::prelude::*;

verus! {

/// Address in the debugee memory, after the object file was mapped.
#[derive(Debug, Clone, Copy, PartialEq, Eq, Structural)]
pub struct RelocatedAddress(pub usize);

/// Address as written in the object file, before relocation.
#[derive(Debug, Clone, Copy, PartialEq, Eq, Structural)]
pub struct GlobalAddress(pub usize);

impl RelocatedAddress {
    /// The address as an integer.
    pub fn as_usize(&self) -> (r: usize)
        ensures
            r == self.0,
    {
        self.0
    }

    /// The address as a 64 bit integer.
    pub fn as_u64(&self) -> (r: u64)
        ensures
            r == self.0,
    {
        self.0 as u64
    }
}

impl GlobalAddress {
    /// The address as an integer.
    pub fn as_usize(&self) -> (r: usize)
        ensures
            r == self.0,
    {
        self.0
    }
}

} // verus!
