//! Decisions of the ptrace tracer: what a thread event means for the debugee
//! and what the tracer does next. The system calls themselves (waitpid,
//! ptrace requests) are made by the caller, which hands the events in.

use crate::debugger::address::RelocatedAddress;
use crate::debugger::debugee::tracee::{StopType, TraceeCtl, TraceeStatus, Tracee};
use crate::debugger::error::Error;
use crate::debugger::register::debug::DebugRegisterNumber;
use std::collections::VecDeque;
use vstd::prelude::*;

verus! {

pub const SIGINT: i32 = 2;

pub const SIGTRAP: i32 = 5;

pub const SIGCHLD: i32 = 17;

pub const SIGALRM: i32 = 14;

pub const SIGURG: i32 = 23;

pub const SIGVTALRM: i32 = 26;

pub const SIGPROF: i32 = 27;

pub const SIGIO: i32 = 29;

/// `si_code` of a trap caused by a software breakpoint.
pub const TRAP_BRKPT: i32 = 1;

/// `si_code` of a trap caused by a single step.
pub const TRAP_TRACE: i32 = 2;

/// `si_code` of a trap caused by a hardware breakpoint.
pub const TRAP_HWBKPT: i32 = 4;

/// `si_code` of a signal sent by the kernel.
pub const SI_KERNEL: i32 = 0x80;

/// Signals that don't interrupt a debugging process and are sent to the
/// debugee directly on fire.
pub open spec fn spec_is_quiet_signal(signal: i32) -> bool {
    signal == SIGALRM || signal == SIGURG || signal == SIGCHLD || signal == SIGIO || signal == SIGVTALRM
        || signal == SIGPROF
}

/// Signals that may interrupt a debugging process but are not injected into the debugee.
pub open spec fn spec_is_transparent_signal(signal: i32) -> bool {
    signal == SIGINT
}

/// Whether a signal is delivered to the debugee without interrupting the debugging.
pub fn is_quiet_signal(signal: i32) -> (r: bool)
    ensures
        r == spec_is_quiet_signal(signal),
        r == (signal == 14 || signal == 23 || signal == 17 || signal == 29 || signal == 26 || signal == 27),
{
    signal == SIGALRM || signal == SIGURG || signal == SIGCHLD || signal == SIGIO || signal == SIGVTALRM
        || signal == SIGPROF
}

/// Whether a signal interrupts the debugging without being injected into the debugee.
pub fn is_transparent_signal(signal: i32) -> (r: bool)
    ensures
        r == spec_is_transparent_signal(signal),
{
    signal == SIGINT
}

/// Whether a thread stopped by `SIGTRAP` with the given `si_code` reached an
/// expected trap of a single step (breakpoints count as traps too).
pub fn is_step_trap(sigtrap_stop: bool, si_code: i32) -> (r: bool)
    ensures
        r == (sigtrap_stop && (si_code == TRAP_TRACE || si_code == TRAP_BRKPT || si_code == SI_KERNEL
            || si_code == TRAP_HWBKPT)),
{
    sigtrap_stop && (si_code == TRAP_TRACE || si_code == TRAP_BRKPT || si_code == SI_KERNEL || si_code
        == TRAP_HWBKPT)
}

/// Whether a thread stopped by `SIGTRAP` stopped inside a system call, which
/// a single step has to leave first.
pub fn is_syscall_trap(sigtrap_stop: bool, si_code: i32) -> (r: bool)
    ensures
        r == (sigtrap_stop && si_code == TRAP_SYSCALL),
{
    sigtrap_stop && si_code == TRAP_SYSCALL
}

#[derive(Debug)]
pub enum WatchpointHitType {
    /// Hit of the underlying hardware breakpoint cause value changed.
    DebugRegister(DebugRegisterNumber),
    /// Hit of the underlying breakpoint at the end of the watchpoint scope.
    EndOfScope(Vec<u32>),
}

#[derive(Debug)]
pub enum StopReason {
    /// Whole debugee process exited with code.
    DebugeeExit(i32),
    /// Debugee just started.
    DebugeeStart,
    /// Debugee stopped at breakpoint.
    Breakpoint(i32, RelocatedAddress),
    /// Debugee stopped at watchpoint.
    Watchpoint(i32, RelocatedAddress, WatchpointHitType),
    /// Debugee stopped with OS signal.
    SignalStop(i32, i32),
    /// Debugee stopped with Errno::ESRCH.
    NoSuchProcess(i32),
}

/// Kind of a breakpoint.
#[derive(Debug)]
pub enum BrkptType {
    /// A breakpoint at the entry point of the program.
    EntryPoint,
    /// A breakpoint at the function that the dynamic linker calls when the
    /// list of shared libraries changes.
    LinkerMapFn,
    /// A breakpoint that the user set.
    UserDefined,
    /// A breakpoint for one thread, removed after it is hit.
    Temporary,
    /// A temporary breakpoint for any thread.
    TemporaryAsync,
    /// A breakpoint whose hit is handled by a callback of the caller, unseen by the user.
    Transparent,
    /// A breakpoint at the end of the scope of the given watchpoints.
    WatchpointCompanion(Vec<u32>),
}

/// What the tracer knows of a breakpoint.
#[derive(Debug)]
pub struct Breakpoint {
    pub addr: RelocatedAddress,
    pub pid: i32,
    pub brkpt_type: BrkptType,
    pub enabled: bool,
    /// The code byte that the trap instruction replaced.
    pub saved_data: u8,
}

/// The trap instruction (`int3` of x86-64) that a software breakpoint writes.
pub const INT3: u8 = 0xcc;

/// A machine word of code with its lowest byte replaced: how a breakpoint is
/// written into the code (`byte` is [`INT3`]) or taken out of it (`byte` is
/// the saved byte).
pub fn with_low_byte(word: u64, byte: u8) -> (r: u64)
    ensures
        r % 256 == byte as int,
        r / 256 == word / 256,
{
    let r = (word & !0xffu64) | (byte as u64);
    assert(r % 256 == byte as u64 && r / 256 == word / 256) by (bit_vector)
        requires
            r == (word & !0xffu64) | (byte as u64),
    ;
    r
}

impl Breakpoint {
    pub open spec fn spec_is_temporary(&self) -> bool {
        self.brkpt_type is Temporary
    }

    pub open spec fn spec_is_temporary_async(&self) -> bool {
        self.brkpt_type is TemporaryAsync
    }

    pub open spec fn spec_is_wp_companion(&self) -> bool {
        self.brkpt_type is WatchpointCompanion
    }

    pub fn is_temporary(&self) -> (r: bool)
        ensures
            r == self.spec_is_temporary(),
    {
        match self.brkpt_type {
            BrkptType::Temporary => true,
            _ => false,
        }
    }

    pub fn is_temporary_async(&self) -> (r: bool)
        ensures
            r == self.spec_is_temporary_async(),
    {
        match self.brkpt_type {
            BrkptType::TemporaryAsync => true,
            _ => false,
        }
    }

    pub fn is_wp_companion(&self) -> (r: bool)
        ensures
            r == self.spec_is_wp_companion(),
    {
        match self.brkpt_type {
            BrkptType::WatchpointCompanion(_) => true,
            _ => false,
        }
    }
}

/// Breakpoints that the tracer consults when a thread stops.
pub struct TraceContext<'a> {
    pub breakpoints: &'a [Breakpoint],
}

impl<'a> TraceContext<'a> {
    pub fn new(breakpoints: &'a [Breakpoint]) -> (r: Self)
        ensures
            r.breakpoints@ == breakpoints@,
    {
        Self { breakpoints }
    }
}

/// What to do when a thread stops at a software breakpoint.
#[derive(Debug)]
pub enum BreakpointTrapAction {
    /// No known breakpoint is at the address: ignore the stop.
    Ignore,
    /// The breakpoint must not stop this thread now (temporary breakpoints are
    /// set for another thread): step over it, disabling it for the step if it
    /// is enabled, and keep the thread stopped without reporting.
    StepOver { index: usize, was_enabled: bool },
    /// Stop the whole debugee and report the reason.
    Stop(StopReason),
}

/// Index of the first breakpoint at an address.
pub open spec fn first_at(bps: Seq<Breakpoint>, addr: usize) -> Option<int>
    decreases bps.len(),
{
    if bps.len() == 0 {
        None
    } else {
        match first_at(bps.drop_last(), addr) {
            Some(i) => Some(i),
            None => if bps.last().addr.0 == addr {
                Some(bps.len() - 1)
            } else {
                None
            },
        }
    }
}

/// Index of the first breakpoint at an address.
pub fn find_breakpoint_at(bps: &[Breakpoint], pc: RelocatedAddress) -> (r: Option<usize>)
    ensures
        r is None <==> first_at(bps@, pc.0) is None,
        r matches Some(k) ==> first_at(bps@, pc.0) == Some(k as int) && k < bps@.len(),
{
    let mut i: usize = 0;
    let mut found: Option<usize> = None;
    while i < bps.len()
        invariant
            i <= bps@.len(),
            found is None <==> first_at(bps@.subrange(0, i as int), pc.0) is None,
            found matches Some(k) ==> k < i && first_at(bps@.subrange(0, i as int), pc.0) == Some(k as int),
        decreases bps@.len() - i,
    {
        proof {
            assert(bps@.subrange(0, i + 1).drop_last() =~= bps@.subrange(0, i as int));
        }
        if found.is_none() && bps[i].addr.0 == pc.0 {
            found = Some(i);
        }
        i = i + 1;
    }
    proof {
        assert(bps@.subrange(0, i as int) =~= bps@);
    }
    found
}

/// True when some breakpoint is temporary (for a thread or for any thread).
pub open spec fn has_temporary(bps: Seq<Breakpoint>) -> bool {
    exists|i: int| 0 <= i < bps.len() && (bps[i].spec_is_temporary() || bps[i].spec_is_temporary_async())
}

/// What a stop of thread `pid` at a software breakpoint at `pc` means, with
/// the breakpoints `bps` set.
pub open spec fn trap_action(bps: Seq<Breakpoint>, pid: i32, pc: RelocatedAddress, r: BreakpointTrapAction) -> bool {
    match first_at(bps, pc.0) {
        None => r is Ignore,
        Some(i) => {
            let b = bps[i];
            if has_temporary(bps) && !(b.spec_is_temporary() && pid == b.pid)
                && !b.spec_is_wp_companion() && !b.spec_is_temporary_async() {
                r == BreakpointTrapAction::StepOver { index: i as usize, was_enabled: b.enabled }
            } else {
                match b.brkpt_type {
                    BrkptType::WatchpointCompanion(wps) => r matches BreakpointTrapAction::Stop(
                        StopReason::Watchpoint(p, a, WatchpointHitType::EndOfScope(w)),
                    ) && p == pid && a == pc && w@ == wps@,
                    _ => r == BreakpointTrapAction::Stop(StopReason::Breakpoint(pid, pc)),
                }
            }
        },
    }
}

/// Decide what a stop of thread `pid` at a software breakpoint at `pc` means.
pub fn breakpoint_trap_action(ctx: &TraceContext, pid: i32, pc: RelocatedAddress) -> (r: BreakpointTrapAction)
    ensures
        trap_action(ctx.breakpoints@, pid, pc, r),
{
    let bps = ctx.breakpoints;
    let found = find_breakpoint_at(bps, pc);
    let idx = match found {
        None => {
            return BreakpointTrapAction::Ignore;
        },
        Some(k) => k,
    };
    let mut has_tmp = false;
    let mut j: usize = 0;
    while j < bps.len()
        invariant
            j <= bps@.len(),
            has_tmp <==> exists|k: int|
                0 <= k < j && (bps@[k].spec_is_temporary() || bps@[k].spec_is_temporary_async()),
        decreases bps@.len() - j,
    {
        if bps[j].is_temporary() || bps[j].is_temporary_async() {
            has_tmp = true;
        }
        j = j + 1;
    }
    assert(first_at(bps@, pc.0) == Some(idx as int));
    assert(has_tmp == has_temporary(bps@));
    let brkpt = &bps[idx];
    if has_tmp {
        let temporary_hit = brkpt.is_temporary() && pid == brkpt.pid;
        let temporary_async_hit = brkpt.is_temporary_async();
        let watchpoint_hit = brkpt.is_wp_companion();
        if !temporary_hit && !watchpoint_hit && !temporary_async_hit {
            return BreakpointTrapAction::StepOver { index: idx, was_enabled: brkpt.enabled };
        }
    }
    match &brkpt.brkpt_type {
        BrkptType::WatchpointCompanion(wps) => {
            let w = wps.clone();
            assert(w@ =~= wps@);
            BreakpointTrapAction::Stop(StopReason::Watchpoint(pid, pc, WatchpointHitType::EndOfScope(w)))
        },
        _ => BreakpointTrapAction::Stop(StopReason::Breakpoint(pid, pc)),
    }
}

/// Ptrace tracer state.
pub struct Tracer {
    tracee_ctl: TraceeCtl,
    inject_signal_queue: VecDeque<(i32, i32)>,
    group_stop_guard: bool,
}

impl Tracer {
    /// Signals waiting to be injected: (thread, signal), oldest first.
    pub closed spec fn queue_view(&self) -> Seq<(i32, i32)> {
        self.inject_signal_queue@
    }

    pub closed spec fn guard_view(&self) -> bool {
        self.group_stop_guard
    }

    pub open spec fn wf(&self) -> bool {
        self.ctl_view().wf()
    }

    /// Control of the debugee threads.
    pub closed spec fn ctl_view(&self) -> TraceeCtl {
        self.tracee_ctl
    }

    /// Control of the debugee threads.
    pub fn tracee_ctl(&self) -> (r: &TraceeCtl)
        ensures
            *r == self.ctl_view(),
    {
        &self.tracee_ctl
    }

    /// Record that a thread was resumed.
    pub fn mark_running(&mut self, pid: i32)
        requires
            old(self).wf(),
        ensures
            final(self).wf(),
            old(self).ctl_view().tracee_of(pid) matches Some(t) ==> final(self).ctl_view().tracee_of(pid) == Some(
                Tracee { status: TraceeStatus::Running, ..t },
            ),
            old(self).ctl_view().tracee_of(pid) is None ==> final(self).ctl_view().tracee_of(pid) is None,
            forall|other: i32| other != pid ==> #[trigger] final(self).ctl_view().tracee_of(other) == old(self).ctl_view().tracee_of(other),
            final(self).queue_view() == old(self).queue_view(),
            final(self).guard_view() == old(self).guard_view(),
    {
        self.tracee_ctl.set_running(pid);
    }

    /// Record that a thread is stopped.
    pub fn mark_stopped(&mut self, pid: i32, stop_type: StopType)
        requires
            old(self).wf(),
        ensures
            final(self).wf(),
            old(self).ctl_view().tracee_of(pid) matches Some(t) ==> final(self).ctl_view().tracee_of(pid) == Some(
                Tracee { status: TraceeStatus::Stopped(stop_type), ..t },
            ),
            old(self).ctl_view().tracee_of(pid) is None ==> final(self).ctl_view().tracee_of(pid) is None,
            forall|other: i32| other != pid ==> #[trigger] final(self).ctl_view().tracee_of(other) == old(self).ctl_view().tracee_of(other),
            final(self).queue_view() == old(self).queue_view(),
            final(self).guard_view() == old(self).guard_view(),
    {
        self.tracee_ctl.set_stop(pid, stop_type);
    }

    /// Create new [`Tracer`] for internally created debugee process.
    ///
    /// # Arguments
    ///
    /// * `proc_pid`: process id
    pub fn new(proc_pid: i32) -> (r: Self)
        ensures
            r.wf(),
            r.ctl_view().proc_pid_view() == proc_pid,
            r.ctl_view().tracees() == seq![Tracee { number: 0, pid: proc_pid, status: TraceeStatus::Stopped(StopType::Interrupt) }],
            r.queue_view().len() == 0,
            !r.guard_view(),
    {
        Self { tracee_ctl: TraceeCtl::new(proc_pid), inject_signal_queue: VecDeque::new(), group_stop_guard: false }
    }

    /// Create [`Tracer`] for external process attached by pid.
    ///
    /// # Arguments
    ///
    /// * `proc_pid`: process id
    /// * `threads`: id's of process threads
    pub fn new_external(proc_pid: i32, threads: &[i32]) -> (r: Self)
        ensures
            r.wf(),
            r.ctl_view().proc_pid_view() == proc_pid,
            forall|pid: i32|
                (r.ctl_view().tracee_of(pid) is Some) <==> (exists|k: int| 0 <= k < threads@.len() && threads@[k] == pid),
            r.queue_view().len() == 0,
            !r.guard_view(),
    {
        Self {
            tracee_ctl: TraceeCtl::new_external(proc_pid, threads),
            inject_signal_queue: VecDeque::new(),
            group_stop_guard: false,
        }
    }

    /// Whether a group stop is in progress.
    pub fn group_stop_in_progress(&self) -> (r: bool)
        ensures
            r == self.guard_view(),
    {
        self.group_stop_guard
    }

    /// Mark a group stop as started.
    pub fn lock_group_stop(&mut self)
        ensures
            final(self).guard_view(),
            final(self).ctl_view() == old(self).ctl_view(),
            final(self).queue_view() == old(self).queue_view(),
    {
        self.group_stop_guard = true
    }

    /// Mark a group stop as finished.
    pub fn unlock_group_stop(&mut self)
        ensures
            !final(self).guard_view(),
            final(self).ctl_view() == old(self).ctl_view(),
            final(self).queue_view() == old(self).queue_view(),
    {
        self.group_stop_guard = false
    }

    /// Whether a group stop initiated by a thread must interrupt other
    /// threads: not while a group stop is in progress, and only if a thread
    /// other than the initiator is controlled.
    pub fn group_stop_required(&self, initiator_pid: i32) -> (r: bool)
        ensures
            r == (!self.guard_view() && exists|k: int|
                0 <= k < self.ctl_view().tracees().len() && self.ctl_view().tracees()[k].pid != initiator_pid),
    {
        !self.group_stop_guard && self.tracee_ctl.has_other_than(initiator_pid)
    }

    /// Take the oldest signal waiting for injection.
    pub fn next_injection(&mut self) -> (r: Option<(i32, i32)>)
        ensures
            old(self).queue_view().len() == 0 ==> r is None && final(self).queue_view() == old(self).queue_view(),
            old(self).queue_view().len() > 0 ==> r == Some(old(self).queue_view()[0]) && final(self).queue_view()
                == old(self).queue_view().drop_first(),
            final(self).ctl_view() == old(self).ctl_view(),
            final(self).guard_view() == old(self).guard_view(),
    {
        self.inject_signal_queue.pop_front()
    }

    /// The oldest signal waiting for injection, left in the queue.
    pub fn pending_injection(&self) -> (r: Option<(i32, i32)>)
        ensures
            self.queue_view().len() == 0 ==> r is None,
            self.queue_view().len() > 0 ==> r == Some(self.queue_view()[0]),
    {
        if self.inject_signal_queue.len() == 0 {
            None
        } else {
            Some(self.inject_signal_queue[0])
        }
    }

    /// Threads waiting for a signal injection.
    pub fn queued_threads(&self) -> (r: Vec<i32>)
        ensures
            r@ == self.queue_view().map_values(|e: (i32, i32)| e.0),
    {
        let mut r: Vec<i32> = Vec::new();
        let mut i: usize = 0;
        while i < self.inject_signal_queue.len()
            invariant
                i <= self.queue_view().len(),
                r@ == self.queue_view().subrange(0, i as int).map_values(|e: (i32, i32)| e.0),
            decreases self.queue_view().len() - i,
        {
            r.push(self.inject_signal_queue[i].0);
            proof {
                assert(self.queue_view().subrange(0, i + 1).map_values(|e: (i32, i32)| e.0) =~= self.queue_view().subrange(
                    0,
                    i as int,
                ).map_values(|e: (i32, i32)| e.0).push(self.queue_view()[i as int].0));
            }
            i = i + 1;
        }
        proof {
            assert(self.queue_view().subrange(0, i as int) =~= self.queue_view());
        }
        r
    }

    /// A thread exited with a code: it leaves control, and the exit of the
    /// main thread is the exit of the debugee.
    pub fn on_exited(&mut self, pid: i32, code: i32) -> (r: Option<StopReason>)
        requires
            old(self).wf(),
        ensures
            final(self).wf(),
            final(self).ctl_view().tracee_of(pid) is None,
            forall|other: i32| other != pid ==> #[trigger] final(self).ctl_view().tracee_of(other) == old(self).ctl_view().tracee_of(other),
            pid == old(self).ctl_view().proc_pid_view() ==> r == Some(StopReason::DebugeeExit(code)),
            pid != old(self).ctl_view().proc_pid_view() ==> r is None,
            final(self).queue_view() == old(self).queue_view(),
            final(self).guard_view() == old(self).guard_view(),
    {
        self.tracee_ctl.remove(pid);
        if pid == self.tracee_ctl.proc_pid() {
            Some(StopReason::DebugeeExit(code))
        } else {
            None
        }
    }

    /// A thread is about to exit (exit event): it leaves control. Returns its
    /// tracee, if it was controlled.
    pub fn on_thread_exit(&mut self, pid: i32) -> (r: Option<Tracee>)
        requires
            old(self).wf(),
        ensures
            final(self).wf(),
            r == old(self).ctl_view().tracee_of(pid),
            final(self).ctl_view().tracee_of(pid) is None,
            forall|other: i32| other != pid ==> #[trigger] final(self).ctl_view().tracee_of(other) == old(self).ctl_view().tracee_of(other),
            final(self).queue_view() == old(self).queue_view(),
            final(self).guard_view() == old(self).guard_view(),
    {
        self.tracee_ctl.remove(pid)
    }

    /// The debugee is about to start (exec event of a thread): the thread comes under control.
    pub fn on_exec_event(&mut self, pid: i32) -> (r: StopReason)
        requires
            old(self).wf(),
        ensures
            final(self).wf(),
            r == StopReason::DebugeeStart,
            final(self).ctl_view().tracee_of(pid) matches Some(t) && t.status == TraceeStatus::Stopped(
                StopType::Interrupt,
            ),
            forall|other: i32| other != pid ==> #[trigger] final(self).ctl_view().tracee_of(other) == old(self).ctl_view().tracee_of(other),
            final(self).queue_view() == old(self).queue_view(),
            final(self).guard_view() == old(self).guard_view(),
    {
        self.tracee_ctl.add(pid);
        StopReason::DebugeeStart
    }

    /// A thread stopped after it started or was interrupted: a known thread is
    /// marked as interrupted, an unknown one comes under control. Returns true
    /// for a new thread (watchpoints must then be distributed to it).
    pub fn on_stop_event(&mut self, pid: i32) -> (r: bool)
        requires
            old(self).wf(),
        ensures
            final(self).wf(),
            r == (old(self).ctl_view().tracee_of(pid) is None),
            final(self).ctl_view().tracee_of(pid) matches Some(t) && t.status == TraceeStatus::Stopped(
                StopType::Interrupt,
            ),
            forall|other: i32| other != pid ==> #[trigger] final(self).ctl_view().tracee_of(other) == old(self).ctl_view().tracee_of(other),
            final(self).queue_view() == old(self).queue_view(),
            final(self).guard_view() == old(self).guard_view(),
    {
        match self.tracee_ctl.tracee(pid) {
            Some(_) => {
                self.tracee_ctl.set_stop(pid, StopType::Interrupt);
                false
            },
            None => {
                self.tracee_ctl.add(pid);
                true
            },
        }
    }

    /// A thread stopped with a signal other than `SIGTRAP`: the signal is
    /// queued for injection unless it is transparent, and the thread is in a
    /// signal stop. Returns the stop reason and whether the other threads must
    /// be stopped too (not for quiet signals).
    pub fn on_signal(&mut self, pid: i32, signal: i32) -> (r: (StopReason, bool))
        requires
            old(self).wf(),
            old(self).ctl_view().tracee_of(pid) is Some,
        ensures
            final(self).wf(),
            r.0 == StopReason::SignalStop(pid, signal),
            r.1 == !spec_is_quiet_signal(signal),
            spec_is_transparent_signal(signal) ==> final(self).queue_view() == old(self).queue_view(),
            !spec_is_transparent_signal(signal) ==> final(self).queue_view() == old(self).queue_view().push(
                (pid, signal),
            ),
            final(self).ctl_view().tracee_of(pid) == Some(
                Tracee { status: TraceeStatus::Stopped(StopType::SignalStop(signal)), ..old(self).ctl_view().tracee_of(pid)->Some_0 },
            ),
            forall|other: i32| other != pid ==> #[trigger] final(self).ctl_view().tracee_of(other) == old(self).ctl_view().tracee_of(other),
            final(self).guard_view() == old(self).guard_view(),
    {
        if !is_transparent_signal(signal) {
            self.inject_signal_queue.push_back((pid, signal));
        }
        self.tracee_ctl.set_stop(pid, StopType::SignalStop(signal));
        (StopReason::SignalStop(pid, signal), !is_quiet_signal(signal))
    }
}

/// What a single step does after the thread reached a trap.
#[derive(Debug)]
pub enum StepTrapOutcome {
    /// The thread is still at the address where the step began: step again.
    StepAgain,
    /// The step is over, with the stop it caused, if any.
    Done(Option<StopReason>),
}

/// The stop that a single step reports once it reached a trap at `pc`, away
/// from where it began: a hit debug register first, then the end of the scope
/// of watchpoints, else none.
pub open spec fn trap_stop(
    bps: Seq<Breakpoint>,
    pid: i32,
    pc: RelocatedAddress,
    hit_register: Option<DebugRegisterNumber>,
    x: Option<StopReason>,
) -> bool {
    match hit_register {
        Some(dr) => x == Some(StopReason::Watchpoint(pid, pc, WatchpointHitType::DebugRegister(dr))),
        None => match first_at(bps, pc.0) {
            Some(i) => match bps[i].brkpt_type {
                BrkptType::WatchpointCompanion(wps) => x matches Some(
                    StopReason::Watchpoint(p, a, WatchpointHitType::EndOfScope(w)),
                ) && p == pid && a == pc && w@ == wps@,
                _ => x is None,
            },
            None => x is None,
        },
    }
}

/// Decide what a trap reached by a single step of thread `pid` means: the
/// thread at `pc`, the step begun at `initial_pc`, and `hit_register` the debug
/// register that the status register reports as hit, if any.
pub fn step_trap_outcome(
    ctx: &TraceContext,
    pid: i32,
    pc: RelocatedAddress,
    initial_pc: RelocatedAddress,
    hit_register: Option<DebugRegisterNumber>,
) -> (r: StepTrapOutcome)
    ensures
        pc == initial_pc ==> r is StepAgain,
        pc != initial_pc ==> (r matches StepTrapOutcome::Done(x) && trap_stop(ctx.breakpoints@, pid, pc, hit_register, x)),
{
    if pc.0 == initial_pc.0 {
        return StepTrapOutcome::StepAgain;
    }
    if let Some(dr) = hit_register {
        return StepTrapOutcome::Done(Some(StopReason::Watchpoint(pid, pc, WatchpointHitType::DebugRegister(dr))));
    }
    match find_breakpoint_at(ctx.breakpoints, pc) {
        None => StepTrapOutcome::Done(None),
        Some(idx) => match &ctx.breakpoints[idx].brkpt_type {
            BrkptType::WatchpointCompanion(wps) => {
                let w = wps.clone();
                assert(w@ =~= wps@);
                StepTrapOutcome::Done(Some(StopReason::Watchpoint(pid, pc, WatchpointHitType::EndOfScope(w))))
            },
            _ => StepTrapOutcome::Done(None),
        },
    }
}

/// Whether a stop must be passed over by `resume`: a stop by a quiet signal
/// (the signal is injected and the debugee resumed).
pub fn resume_passes_over(stop: &StopReason) -> (r: bool)
    ensures
        r == (*stop matches StopReason::SignalStop(_, s) && spec_is_quiet_signal(s)),
        r == (*stop matches StopReason::SignalStop(_, s) && (s == 14 || s == 23 || s == 17 || s == 29 || s == 26
            || s == 27)),
{
    match stop {
        StopReason::SignalStop(_, signal) => is_quiet_signal(*signal),
        _ => false,
    }
}

/// `SIGSTOP`, the signal of an interrupt stop.
pub const SIGSTOP: i32 = 19;

/// `PTRACE_EVENT_CLONE`: a thread creates a new thread.
pub const PTRACE_EVENT_CLONE: i32 = 3;

/// `PTRACE_EVENT_EXEC`: the debugee program is about to start.
pub const PTRACE_EVENT_EXEC: i32 = 4;

/// `PTRACE_EVENT_EXIT`: a thread is about to exit.
pub const PTRACE_EVENT_EXIT: i32 = 6;

/// `PTRACE_EVENT_STOP`: a thread started, or stopped on an interrupt request.
pub const PTRACE_EVENT_STOP: i32 = 128;

/// `si_code` of a trap inside a system call.
pub const TRAP_SYSCALL: i32 = 5;

/// A thread event reported by `waitpid`, with what the signal information of
/// a stopped thread holds.
#[derive(Debug, Clone, Copy, PartialEq, Eq, Structural)]
pub enum WaitEvent {
    /// The thread exited with a code: (thread, code).
    Exited(i32, i32),
    /// A ptrace event: (thread, signal, `PTRACE_EVENT_*` code).
    PtraceEvent(i32, i32, i32),
    /// The thread stopped with a signal; `si_code` of its signal information.
    Stopped { pid: i32, signal: i32, si_code: i32 },
    /// The thread stopped with a signal but is gone before its signal
    /// information could be read.
    StoppedGone(i32),
    /// Any other status.
    Other,
}

/// A stop that the dispatch of a thread event cannot take: a single-step
/// trap, which only a single step expects.
pub open spec fn is_stray_step_trap(event: WaitEvent) -> bool {
    event matches WaitEvent::Stopped { signal, si_code, .. } && signal == SIGTRAP && si_code == TRAP_TRACE
}

/// Events whose handling needs the thread under control.
pub open spec fn event_needs_tracee(event: WaitEvent) -> Option<i32> {
    match event {
        WaitEvent::PtraceEvent(pid, _, code) => if code == PTRACE_EVENT_CLONE {
            Some(pid)
        } else {
            None
        },
        WaitEvent::Stopped { pid, signal, si_code } => if signal != SIGTRAP || si_code == TRAP_BRKPT || si_code
            == SI_KERNEL || si_code == TRAP_HWBKPT {
            Some(pid)
        } else {
            None
        },
        _ => None,
    }
}

/// The thread that must be under control for the tracer to take an event, if any.
pub fn event_tracee(event: WaitEvent) -> (r: Option<i32>)
    ensures
        r == event_needs_tracee(event),
{
    match event {
        WaitEvent::PtraceEvent(pid, _, code) => if code == PTRACE_EVENT_CLONE {
            Some(pid)
        } else {
            None
        },
        WaitEvent::Stopped { pid, signal, si_code } => if signal != SIGTRAP || si_code == TRAP_BRKPT || si_code
            == SI_KERNEL || si_code == TRAP_HWBKPT {
            Some(pid)
        } else {
            None
        },
        _ => None,
    }
}

/// Whether an event is a single-step trap, which only a single step takes.
pub fn is_step_only_trap(event: WaitEvent) -> (r: bool)
    ensures
        r == is_stray_step_trap(event),
{
    match event {
        WaitEvent::Stopped { signal, si_code, .. } => signal == SIGTRAP && si_code == TRAP_TRACE,
        _ => false,
    }
}

/// What is left to do after the tracer took a thread event.
#[derive(Debug)]
pub enum EventOutcome {
    /// Nothing more: the stop of the debugee, if it stopped.
    Handled(Option<StopReason>),
    /// The thread created a new thread: fetch the new thread's id and hand it
    /// to [`Tracer::on_cloned_thread`].
    FetchClonedThread(i32),
    /// The thread is exiting: let it go on to its exit.
    LetExit(i32),
    /// The thread hit a software breakpoint: move its program counter back by
    /// the one byte of the trap instruction and hand the address to
    /// [`Tracer::on_breakpoint_trap`].
    RewindToBreakpoint(i32),
    /// The thread hit a hardware breakpoint: stop the other threads, then
    /// report the debug register that the status register names.
    HardwareBreakpoint(i32),
    /// Stop the other threads than the initiator (first), then report the reason.
    StopAll(i32, StopReason),
}

/// What a group stop does after a thread that it interrupted reported an event.
#[derive(Debug)]
pub enum GroupStopNext {
    /// The thread is settled: it is stopped, or no longer controlled.
    Done,
    /// The thread has not stopped yet: wait for its next event.
    WaitAgain,
    /// The group stop cannot go on.
    Failed(Error),
}

/// Whether the event that a thread reported during a group stop settles it,
/// whatever its status: a signal stop, a vanished thread, or a breakpoint or
/// watchpoint hit by the thread itself.
pub open spec fn stop_settles(stop: Option<StopReason>, tid: i32) -> bool {
    match stop {
        Some(StopReason::SignalStop(_, _)) => true,
        Some(StopReason::NoSuchProcess(_)) => true,
        Some(StopReason::Breakpoint(p, _)) => p == tid,
        Some(StopReason::Watchpoint(p, _, _)) => p == tid,
        _ => false,
    }
}

/// A thread settled by a group stop: a running thread is taken as interrupted.
pub open spec fn settled(t: Option<Tracee>) -> Option<Tracee> {
    match t {
        Some(tr) => if tr.status is Running {
            Some(Tracee { status: TraceeStatus::Stopped(StopType::Interrupt), ..tr })
        } else {
            Some(tr)
        },
        None => None,
    }
}

impl Tracer {
    /// Take a thread event: update the thread bookkeeping and say what is left
    /// to do (see [`EventOutcome`]).
    pub fn apply_event(&mut self, event: WaitEvent) -> (r: EventOutcome)
        requires
            old(self).wf(),
            !is_stray_step_trap(event),
            event_needs_tracee(event) matches Some(pid) ==> old(self).ctl_view().tracee_of(pid) is Some,
        ensures
            final(self).wf(),
            final(self).guard_view() == old(self).guard_view(),
            match event {
                WaitEvent::Exited(pid, code) => {
                    &&& final(self).ctl_view().tracee_of(pid) is None
                    &&& forall|other: i32| other != pid ==> #[trigger] final(self).ctl_view().tracee_of(other)
                        == old(self).ctl_view().tracee_of(other)
                    &&& final(self).queue_view() == old(self).queue_view()
                    &&& r == EventOutcome::Handled(
                        if pid == old(self).ctl_view().proc_pid_view() {
                            Some(StopReason::DebugeeExit(code))
                        } else {
                            None
                        },
                    )
                },
                WaitEvent::PtraceEvent(pid, _, code) => {
                    &&& final(self).queue_view() == old(self).queue_view()
                    &&& forall|other: i32| other != pid ==> #[trigger] final(self).ctl_view().tracee_of(other)
                        == old(self).ctl_view().tracee_of(other)
                    &&& if code == PTRACE_EVENT_EXEC {
                        &&& r == EventOutcome::Handled(Some(StopReason::DebugeeStart))
                        &&& final(self).ctl_view().tracee_of(pid) matches Some(t)
                        &&& t.status == TraceeStatus::Stopped(StopType::Interrupt)
                    } else if code == PTRACE_EVENT_CLONE {
                        &&& r == EventOutcome::FetchClonedThread(pid)
                        &&& final(self).ctl_view().tracee_of(pid) == Some(
                            Tracee {
                                status: TraceeStatus::Stopped(StopType::Interrupt),
                                ..old(self).ctl_view().tracee_of(pid)->Some_0
                            },
                        )
                    } else if code == PTRACE_EVENT_STOP {
                        &&& r == EventOutcome::Handled(None)
                        &&& final(self).ctl_view().tracee_of(pid) matches Some(t)
                        &&& t.status == TraceeStatus::Stopped(StopType::Interrupt)
                    } else if code == PTRACE_EVENT_EXIT {
                        &&& final(self).ctl_view().tracee_of(pid) is None
                        &&& r == if old(self).ctl_view().tracee_of(pid) is Some {
                            EventOutcome::LetExit(pid)
                        } else {
                            EventOutcome::Handled(None)
                        }
                    } else {
                        &&& r == EventOutcome::Handled(None)
                        &&& final(self).ctl_view() == old(self).ctl_view()
                    }
                },
                WaitEvent::Stopped { pid, signal, si_code } => if signal != SIGTRAP {
                    &&& r == if spec_is_quiet_signal(signal) {
                        EventOutcome::Handled(Some(StopReason::SignalStop(pid, signal)))
                    } else {
                        EventOutcome::StopAll(pid, StopReason::SignalStop(pid, signal))
                    }
                    &&& final(self).queue_view() == if spec_is_transparent_signal(signal) {
                        old(self).queue_view()
                    } else {
                        old(self).queue_view().push((pid, signal))
                    }
                    &&& final(self).ctl_view().tracee_of(pid) == Some(
                        Tracee {
                            status: TraceeStatus::Stopped(StopType::SignalStop(signal)),
                            ..old(self).ctl_view().tracee_of(pid)->Some_0
                        },
                    )
                    &&& forall|other: i32| other != pid ==> #[trigger] final(self).ctl_view().tracee_of(other)
                        == old(self).ctl_view().tracee_of(other)
                } else if si_code == TRAP_BRKPT || si_code == SI_KERNEL {
                    &&& r == EventOutcome::RewindToBreakpoint(pid)
                    &&& final(self).ctl_view() == old(self).ctl_view()
                    &&& final(self).queue_view() == old(self).queue_view()
                } else if si_code == TRAP_HWBKPT {
                    &&& r == EventOutcome::HardwareBreakpoint(pid)
                    &&& final(self).ctl_view().tracee_of(pid) == Some(
                        Tracee {
                            status: TraceeStatus::Stopped(StopType::Interrupt),
                            ..old(self).ctl_view().tracee_of(pid)->Some_0
                        },
                    )
                    &&& forall|other: i32| other != pid ==> #[trigger] final(self).ctl_view().tracee_of(other)
                        == old(self).ctl_view().tracee_of(other)
                    &&& final(self).queue_view() == old(self).queue_view()
                } else {
                    &&& r == EventOutcome::Handled(None)
                    &&& final(self).ctl_view() == old(self).ctl_view()
                    &&& final(self).queue_view() == old(self).queue_view()
                },
                WaitEvent::StoppedGone(pid) => {
                    &&& r == EventOutcome::Handled(Some(StopReason::NoSuchProcess(pid)))
                    &&& final(self).ctl_view() == old(self).ctl_view()
                    &&& final(self).queue_view() == old(self).queue_view()
                },
                WaitEvent::Other => {
                    &&& r == EventOutcome::Handled(None)
                    &&& final(self).ctl_view() == old(self).ctl_view()
                    &&& final(self).queue_view() == old(self).queue_view()
                },
            },
    {
        match event {
            WaitEvent::Exited(pid, code) => EventOutcome::Handled(self.on_exited(pid, code)),
            WaitEvent::PtraceEvent(pid, _signal, code) => {
                if code == PTRACE_EVENT_EXEC {
                    EventOutcome::Handled(Some(self.on_exec_event(pid)))
                } else if code == PTRACE_EVENT_CLONE {
                    self.mark_stopped(pid, StopType::Interrupt);
                    EventOutcome::FetchClonedThread(pid)
                } else if code == PTRACE_EVENT_STOP {
                    self.on_stop_event(pid);
                    EventOutcome::Handled(None)
                } else if code == PTRACE_EVENT_EXIT {
                    match self.on_thread_exit(pid) {
                        Some(_) => EventOutcome::LetExit(pid),
                        None => EventOutcome::Handled(None),
                    }
                } else {
                    EventOutcome::Handled(None)
                }
            },
            WaitEvent::Stopped { pid, signal, si_code } => {
                if signal != SIGTRAP {
                    let (reason, stop_all) = self.on_signal(pid, signal);
                    if stop_all {
                        EventOutcome::StopAll(pid, reason)
                    } else {
                        EventOutcome::Handled(Some(reason))
                    }
                } else if si_code == TRAP_BRKPT || si_code == SI_KERNEL {
                    EventOutcome::RewindToBreakpoint(pid)
                } else if si_code == TRAP_HWBKPT {
                    self.mark_stopped(pid, StopType::Interrupt);
                    EventOutcome::HardwareBreakpoint(pid)
                } else {
                    EventOutcome::Handled(None)
                }
            },
            WaitEvent::StoppedGone(pid) => EventOutcome::Handled(Some(StopReason::NoSuchProcess(pid))),
            WaitEvent::Other => EventOutcome::Handled(None),
        }
    }

    /// A thread created by `clone` is known by its id: an unknown thread comes
    /// under control, stopped (its start event may have come first). Returns
    /// true for a thread that came under control now: its start event must
    /// then be waited for.
    pub fn on_cloned_thread(&mut self, new_tid: i32) -> (r: bool)
        requires
            old(self).wf(),
        ensures
            final(self).wf(),
            r == (old(self).ctl_view().tracee_of(new_tid) is None),
            r ==> (final(self).ctl_view().tracee_of(new_tid) matches Some(t) && t.status == TraceeStatus::Stopped(
                StopType::Interrupt,
            )),
            !r ==> final(self).ctl_view() == old(self).ctl_view(),
            forall|other: i32| other != new_tid ==> #[trigger] final(self).ctl_view().tracee_of(other) == old(self).ctl_view().tracee_of(other),
            final(self).queue_view() == old(self).queue_view(),
            final(self).guard_view() == old(self).guard_view(),
    {
        match self.tracee_ctl.tracee(new_tid) {
            Some(_) => false,
            None => {
                self.tracee_ctl.add(new_tid);
                true
            },
        }
    }
}

impl Tracer {
    /// Start a group stop initiated by a thread. The other threads must be
    /// interrupted when no group stop is in progress and a thread other than
    /// the initiator is controlled; the group stop is then in progress.
    pub fn begin_group_stop(&mut self, initiator_pid: i32) -> (r: bool)
        ensures
            r == (!old(self).guard_view() && exists|k: int|
                0 <= k < old(self).ctl_view().tracees().len() && old(self).ctl_view().tracees()[k].pid
                    != initiator_pid),
            final(self).guard_view() == (old(self).guard_view() || r),
            final(self).ctl_view() == old(self).ctl_view(),
            final(self).queue_view() == old(self).queue_view(),
    {
        if self.group_stop_guard {
            return false;
        }
        if self.tracee_ctl.has_other_than(initiator_pid) {
            self.group_stop_guard = true;
            true
        } else {
            false
        }
    }

    /// Whether a group stop must interrupt a thread: it is controlled and running.
    pub fn needs_interrupt(&self, tid: i32) -> (r: bool)
        requires
            self.wf(),
        ensures
            r == (self.ctl_view().tracee_of(tid) matches Some(t) && t.status is Running),
    {
        match self.tracee_ctl.tracee(tid) {
            Some(t) => !t.is_stopped(),
            None => false,
        }
    }

    /// A thread that a group stop dealt with is settled: one still taken as
    /// running is interrupted now.
    pub fn settle_interrupted(&mut self, tid: i32)
        requires
            old(self).wf(),
        ensures
            final(self).wf(),
            final(self).ctl_view().tracee_of(tid) == settled(old(self).ctl_view().tracee_of(tid)),
            forall|other: i32| other != tid ==> #[trigger] final(self).ctl_view().tracee_of(other) == old(self).ctl_view().tracee_of(other),
            final(self).queue_view() == old(self).queue_view(),
            final(self).guard_view() == old(self).guard_view(),
    {
        match self.tracee_ctl.tracee(tid) {
            Some(t) => {
                if !t.is_stopped() {
                    self.tracee_ctl.set_stop(tid, StopType::Interrupt);
                }
            },
            None => {},
        }
    }

    /// A thread interrupted by a group stop reported an event other than its
    /// interrupt stop, and the tracer took it with the result `stop`. The exit
    /// of the debugee fails the group stop; a signal stop, a vanished thread,
    /// a hit of the thread itself, or a thread no longer controlled or already
    /// interrupted settles the thread; otherwise its next event is awaited.
    pub fn group_stop_after_wait(&mut self, tid: i32, stop: Option<StopReason>) -> (r: GroupStopNext)
        requires
            old(self).wf(),
            old(self).guard_view(),
            !(stop matches Some(StopReason::DebugeeStart)),
        ensures
            final(self).wf(),
            final(self).guard_view(),
            final(self).queue_view() == old(self).queue_view(),
            stop matches Some(StopReason::DebugeeExit(c)) ==> r == GroupStopNext::Failed(Error::ProcessExit(c))
                && final(self).ctl_view() == old(self).ctl_view(),
            !(stop matches Some(StopReason::DebugeeExit(_))) ==> {
                let done = stop_settles(stop, tid) || old(self).ctl_view().tracee_of(tid) is None || (old(
                    self,
                ).ctl_view().tracee_of(tid) matches Some(t) && t.status == TraceeStatus::Stopped(StopType::Interrupt));
                &&& done ==> r is Done
                &&& !done ==> r is WaitAgain && final(self).ctl_view() == old(self).ctl_view()
            },
            r is Done ==> final(self).ctl_view().tracee_of(tid) == settled(old(self).ctl_view().tracee_of(tid)),
            r is Done ==> !(final(self).ctl_view().tracee_of(tid) matches Some(t) && t.status is Running),
            forall|other: i32| other != tid ==> #[trigger] final(self).ctl_view().tracee_of(other) == old(self).ctl_view().tracee_of(other),
    {
        let mut done = match &stop {
            Some(StopReason::DebugeeExit(code)) => {
                return GroupStopNext::Failed(Error::ProcessExit(*code));
            },
            Some(StopReason::SignalStop(_, _)) => true,
            Some(StopReason::NoSuchProcess(_)) => true,
            Some(StopReason::Breakpoint(p, _)) => *p == tid,
            Some(StopReason::Watchpoint(p, _, _)) => *p == tid,
            _ => false,
        };
        if !done {
            done = match self.tracee_ctl.tracee(tid) {
                None => true,
                Some(t) => t.status == TraceeStatus::Stopped(StopType::Interrupt),
            };
        }
        if done {
            self.settle_interrupted(tid);
            GroupStopNext::Done
        } else {
            GroupStopNext::WaitAgain
        }
    }

    /// End a group stop. Returns whether every controlled thread is stopped.
    pub fn finish_group_stop(&mut self) -> (r: bool)
        ensures
            !final(self).guard_view(),
            final(self).ctl_view() == old(self).ctl_view(),
            final(self).queue_view() == old(self).queue_view(),
            r == forall|k: int|
                0 <= k < old(self).ctl_view().tracees().len() ==> #[trigger] old(self).ctl_view().tracees()[k].status is Stopped,
    {
        self.group_stop_guard = false;
        let ts = self.tracee_ctl.snapshot();
        let mut i: usize = 0;
        while i < ts.len()
            invariant
                i <= ts@.len(),
                ts@ == self.ctl_view().tracees(),
                forall|k: int| 0 <= k < i ==> #[trigger] ts@[k].status is Stopped,
                !self.guard_view(),
                self.ctl_view() == old(self).ctl_view(),
                self.queue_view() == old(self).queue_view(),
            decreases ts@.len() - i,
        {
            if !ts[i].is_stopped() {
                return false;
            }
            i = i + 1;
        }
        true
    }

    /// A thread stopped at a software breakpoint at `pc` (its program counter
    /// moved back onto the breakpoint): decide what the stop means. A stop to
    /// report leaves the thread interrupted; the caller then stops the other
    /// threads.
    pub fn on_breakpoint_trap(&mut self, ctx: &TraceContext, pid: i32, pc: RelocatedAddress) -> (r: BreakpointTrapAction)
        requires
            old(self).wf(),
        ensures
            final(self).wf(),
            trap_action(ctx.breakpoints@, pid, pc, r),
            r is Stop ==> (old(self).ctl_view().tracee_of(pid) matches Some(t) ==> final(self).ctl_view().tracee_of(pid)
                == Some(Tracee { status: TraceeStatus::Stopped(StopType::Interrupt), ..t })),
            r is Stop ==> forall|other: i32| other != pid ==> #[trigger] final(self).ctl_view().tracee_of(other)
                == old(self).ctl_view().tracee_of(other),
            !(r is Stop) ==> final(self).ctl_view() == old(self).ctl_view(),
            final(self).queue_view() == old(self).queue_view(),
            final(self).guard_view() == old(self).guard_view(),
    {
        let action = breakpoint_trap_action(ctx, pid, pc);
        if let BreakpointTrapAction::Stop(_) = &action {
            self.mark_stopped(pid, StopType::Interrupt);
        }
        action
    }
}

/// How a status that a single step waited for is taken.
#[derive(Debug, PartialEq, Eq, Structural)]
pub enum StepStatus {
    /// An expected trap (breakpoints count as traps too).
    Trap,
    /// A trap inside a system call.
    SyscallTrap,
    /// The interrupt stop of the stepped thread.
    Interrupted,
    /// Anything else: the tracer takes it first.
    Other,
}

/// How a status that a single step of thread `pid` waited for is taken.
pub fn step_status_kind(pid: i32, event: WaitEvent) -> (r: StepStatus)
    ensures
        r is Trap <==> (event matches WaitEvent::Stopped { signal, si_code, .. } && signal == SIGTRAP && (si_code
            == TRAP_TRACE || si_code == TRAP_BRKPT || si_code == SI_KERNEL || si_code == TRAP_HWBKPT)),
        r is SyscallTrap <==> (event matches WaitEvent::Stopped { signal, si_code, .. } && signal == SIGTRAP
            && si_code == TRAP_SYSCALL),
        r is Interrupted <==> (event matches WaitEvent::PtraceEvent(p, s, c) && p == pid && s == SIGSTOP && c
            == PTRACE_EVENT_STOP),
{
    match event {
        WaitEvent::Stopped { signal, si_code, .. } => {
            if is_step_trap(signal == SIGTRAP, si_code) {
                StepStatus::Trap
            } else if is_syscall_trap(signal == SIGTRAP, si_code) {
                StepStatus::SyscallTrap
            } else {
                StepStatus::Other
            }
        },
        WaitEvent::PtraceEvent(p, s, c) => {
            if p == pid && s == SIGSTOP && c == PTRACE_EVENT_STOP {
                StepStatus::Interrupted
            } else {
                StepStatus::Other
            }
        },
        _ => StepStatus::Other,
    }
}

/// What a single step learnt from the status it waited for.
#[derive(Debug)]
pub enum StepEvent {
    /// An expected trap with the thread at `pc`, and the debug register that
    /// the status register reports as hit (read only once the thread left the
    /// address where the step began).
    Trap { pc: RelocatedAddress, hit_register: Option<DebugRegisterNumber> },
    /// A trap inside a system call.
    SyscallTrap,
    /// The interrupt stop of the stepped thread.
    Interrupted,
    /// Any other status, and the stop that the tracer reported for it.
    Other(Option<StopReason>),
}

/// What a single step does next.
#[derive(Debug)]
pub enum StepAction {
    /// Step the thread again.
    StepAgain,
    /// Run the thread to the end of the system call, wait for it, then step again.
    FinishSyscall,
    /// Wait for the next status of the thread.
    WaitAgain,
    /// Step again, delivering the signal.
    StepWithSignal(i32),
    /// The step is over, with the stop it caused, if any.
    Finish(Option<StopReason>),
    /// The step cannot go on.
    Fail(Error),
}

/// One decision of a single step of thread `pid` begun at `initial_pc`: what
/// follows the event it learnt. A step reports no breakpoint, no start and no
/// exit of the debugee: the exit fails it.
pub fn single_step_next(ctx: &TraceContext, pid: i32, initial_pc: RelocatedAddress, event: StepEvent) -> (r: StepAction)
    requires
        event matches StepEvent::Other(Some(s)) ==> !(s is Breakpoint) && !(s is Watchpoint) && !(s is DebugeeStart),
    ensures
        match event {
            StepEvent::Trap { pc, hit_register } => if pc == initial_pc {
                r is StepAgain
            } else {
                r matches StepAction::Finish(x) && trap_stop(ctx.breakpoints@, pid, pc, hit_register, x)
            },
            StepEvent::SyscallTrap => r is FinishSyscall,
            StepEvent::Interrupted => r == StepAction::Finish(None),
            StepEvent::Other(None) => r is WaitAgain,
            StepEvent::Other(Some(StopReason::SignalStop(p, s))) => r == if spec_is_quiet_signal(s) {
                StepAction::StepWithSignal(s)
            } else {
                StepAction::Finish(Some(StopReason::SignalStop(p, s)))
            },
            StepEvent::Other(Some(StopReason::NoSuchProcess(_))) => r == StepAction::Finish(None),
            StepEvent::Other(Some(StopReason::DebugeeExit(c))) => r == StepAction::Fail(Error::ProcessExit(c)),
            _ => true,
        },
        r matches StepAction::Finish(Some(s)) ==> !(s is Breakpoint) && !(s is DebugeeStart) && !(s is DebugeeExit),
{
    match event {
        StepEvent::Trap { pc, hit_register } => match step_trap_outcome(ctx, pid, pc, initial_pc, hit_register) {
            StepTrapOutcome::StepAgain => StepAction::StepAgain,
            StepTrapOutcome::Done(x) => StepAction::Finish(x),
        },
        StepEvent::SyscallTrap => StepAction::FinishSyscall,
        StepEvent::Interrupted => StepAction::Finish(None),
        StepEvent::Other(None) => StepAction::WaitAgain,
        StepEvent::Other(Some(StopReason::SignalStop(p, s))) => {
            if is_quiet_signal(s) {
                StepAction::StepWithSignal(s)
            } else {
                StepAction::Finish(Some(StopReason::SignalStop(p, s)))
            }
        },
        StepEvent::Other(Some(StopReason::NoSuchProcess(_))) => StepAction::Finish(None),
        StepEvent::Other(Some(StopReason::DebugeeExit(c))) => StepAction::Fail(Error::ProcessExit(c)),
        StepEvent::Other(Some(_)) => StepAction::WaitAgain,
    }
}

/// The quiet signals are exactly the timer, urgent-data, child, I/O,
/// virtual-timer and profiling signals of Linux (`SIGALRM` 14, `SIGURG` 23,
/// `SIGCHLD` 17, `SIGIO` 29, `SIGVTALRM` 26, `SIGPROF` 27): a stop by one of
/// them is passed over by `resume` and does not stop the other threads; any
/// other signal stops the debugee.
pub proof fn lemma_quiet_signals(signal: i32)
    ensures
        spec_is_quiet_signal(signal) <==> (signal == 14 || signal == 23 || signal == 17 || signal == 29 || signal == 26
            || signal == 27),
        spec_is_transparent_signal(signal) <==> signal == 2,
{
}

} // verus!
