//! States of a debugee process as types: a process is prepared from a
//! template, then installed (running and attached with ptrace). Creating and
//! attaching the process is left to the caller.

use vstd::prelude::*;

verus! {

/// Process state.
pub trait State {}

/// Process running and attached with `ptrace` system call.
pub struct Installed;

impl State for Installed {}

/// Process prepare for instantiation by a `fork` call.
pub struct Template;

impl State for Template {}

} // verus!
