//! The debugee: its threads under ptrace, its debug information and the
//! decisions taken when it stops.

use crate::debugger::debugee::tracer::{first_at, Breakpoint, BrkptType, StopReason, TraceContext};
use crate::text::{contains, spec_contains};
use vstd::prelude::*;

pub mod dwarf;
pub mod ldd;
pub mod registry;
pub mod rendezvous;
pub mod tracee;
pub mod tracer;

verus! {

/// Execution state of the debugee process.
#[derive(Debug, Clone, Copy, PartialEq, Eq, Structural)]
pub enum ExecutionStatus {
    Unload,
    InProgress,
    Exited,
}

/// Work that a stop of the debugee calls for, besides reporting it.
#[derive(Debug, Clone, Copy, PartialEq, Eq, Structural)]
pub enum StopFollowUp {
    Nothing,
    /// The program is loaded: compute the mappings of the program file.
    UpdateProgramMappings,
    /// The program reached its entry point: find the dynamic linker's list of
    /// shared libraries, attach the thread library, and load the debug
    /// information of the libraries quietly.
    InitLibraries,
    /// The dynamic linker changed the list of shared libraries: reload their
    /// debug information.
    ReloadLibraries,
}

/// What a stop of the debugee changes of its execution status (`None`: no
/// change) and what work it calls for: the end of the process ends its
/// execution; its start begins it; a breakpoint at the entry point or at the
/// dynamic linker's function asks for the shared libraries.
pub open spec fn spec_stop_follow_up(bps: Seq<Breakpoint>, stop: StopReason) -> (Option<ExecutionStatus>, StopFollowUp) {
    match stop {
        StopReason::DebugeeExit(_) => (Some(ExecutionStatus::Exited), StopFollowUp::Nothing),
        StopReason::DebugeeStart => (Some(ExecutionStatus::InProgress), StopFollowUp::UpdateProgramMappings),
        StopReason::Breakpoint(_, addr) => match first_at(bps, addr.0) {
            Some(i) => match bps[i].brkpt_type {
                BrkptType::EntryPoint => (None, StopFollowUp::InitLibraries),
                BrkptType::LinkerMapFn => (None, StopFollowUp::ReloadLibraries),
                _ => (None, StopFollowUp::Nothing),
            },
            None => (None, StopFollowUp::Nothing),
        },
        StopReason::NoSuchProcess(_) => (Some(ExecutionStatus::Exited), StopFollowUp::Nothing),
        _ => (None, StopFollowUp::Nothing),
    }
}

/// Decide what a stop of the debugee changes and calls for (see [`spec_stop_follow_up`]).
pub fn stop_follow_up(ctx: &TraceContext, stop: &StopReason) -> (r: (Option<ExecutionStatus>, StopFollowUp))
    ensures
        r == spec_stop_follow_up(ctx.breakpoints@, *stop),
{
    match stop {
        StopReason::DebugeeExit(_) => (Some(ExecutionStatus::Exited), StopFollowUp::Nothing),
        StopReason::DebugeeStart => (Some(ExecutionStatus::InProgress), StopFollowUp::UpdateProgramMappings),
        StopReason::Breakpoint(_, addr) => match tracer::find_breakpoint_at(ctx.breakpoints, *addr) {
            Some(i) => match ctx.breakpoints[i].brkpt_type {
                BrkptType::EntryPoint => (None, StopFollowUp::InitLibraries),
                BrkptType::LinkerMapFn => (None, StopFollowUp::ReloadLibraries),
                _ => (None, StopFollowUp::Nothing),
            },
            None => (None, StopFollowUp::Nothing),
        },
        StopReason::NoSuchProcess(_) => (Some(ExecutionStatus::Exited), StopFollowUp::Nothing),
        _ => (None, StopFollowUp::Nothing),
    }
}

/// A dependency that has no debug information to load: the empty path, which
/// stands for the program itself, and the virtual dynamic shared object.
pub open spec fn spec_skips_dependency(path: Seq<char>) -> bool {
    path.len() == 0 || spec_contains(path, seq!['v', 'd', 's', 'o'])
}

/// Whether the debug information of a dependency is not loaded (see [`spec_skips_dependency`]).
pub fn skips_dependency(path: &str) -> (r: bool)
    ensures
        r == spec_skips_dependency(path@),
{
    proof {
        reveal_strlit("vdso");
        assert("vdso"@ =~= seq!['v', 'd', 's', 'o']);
    }
    path.unicode_len() == 0 || contains(path, "vdso")
}

} // verus!
