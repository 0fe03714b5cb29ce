//! Frames of a backtrace as the unwinder reports them. Walking the stack of
//! the debugee is left to the caller; the library decides where a backtrace
//! ends.

use crate::text::{contains, spec_contains};
use vstd::prelude::*;

verus! {

/// A frame in a known function.
pub struct KnownPlace {
    pub func_name: String,
    pub start_ip: u64,
    pub offset: u64,
    pub signal_frame: bool,
}

/// A frame of a backtrace: its instruction pointer and, when known, its function.
pub struct BacktracePart {
    pub ip: u64,
    pub place: Option<KnownPlace>,
}

pub open spec fn main_name() -> Seq<char> {
    seq!['m', 'a', 'i', 'n']
}

pub open spec fn main_path_suffix() -> Seq<char> {
    seq![':', ':', 'm', 'a', 'i', 'n']
}

pub open spec fn thread_start_suffix() -> Seq<char> {
    seq![':', ':', 't', 'h', 'r', 'e', 'a', 'd', '_', 's', 't', 'a', 'r', 't']
}

/// A frame of a function where a backtrace ends: `main`, a function named
/// `main` in some module, or the start of a thread.
pub open spec fn spec_is_main_frame(fn_name: Seq<char>) -> bool {
    fn_name == main_name() || spec_contains(fn_name, main_path_suffix()) || spec_contains(
        fn_name,
        thread_start_suffix(),
    )
}

/// Whether the backtrace ends at a frame of the function with this (demangled) name.
pub fn is_main_frame(fn_name: &str) -> (r: bool)
    ensures
        r == spec_is_main_frame(fn_name@),
{
    proof {
        reveal_strlit("main");
        reveal_strlit("::main");
        reveal_strlit("::thread_start");
        assert("main"@ =~= main_name());
        assert("::main"@ =~= main_path_suffix());
        assert("::thread_start"@ =~= thread_start_suffix());
    }
    crate::text::str_eq(fn_name, "main") || contains(fn_name, "::main") || contains(fn_name, "::thread_start")
}

} // verus!
