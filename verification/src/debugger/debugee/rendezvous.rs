//! Shared libraries that the dynamic linker reports.

use vstd::prelude::*;

verus! {

/// A shared library in the list that the dynamic linker maintains: its load
/// address and its name.
pub struct LinkMap {
    pub addr: usize,
    pub name: String,
}

} // verus!
