use bugstalker::debugger::address::RelocatedAddress;
use bugstalker::debugger::debugee::tracee::{StopType, TraceeCtl, TraceeStatus};
use bugstalker::debugger::debugee::tracer::{
    event_tracee, is_step_only_trap, single_step_next, step_status_kind, with_low_byte, EventOutcome, GroupStopNext, StepAction, StepEvent,
    StepStatus, WaitEvent, INT3, PTRACE_EVENT_CLONE, PTRACE_EVENT_EXEC, PTRACE_EVENT_EXIT, PTRACE_EVENT_STOP,
    SIGSTOP, SI_KERNEL, TRAP_BRKPT, TRAP_HWBKPT, TRAP_SYSCALL, TRAP_TRACE,
};
use bugstalker::debugger::error::Error;
use bugstalker::debugger::debugee::tracer::{
    breakpoint_trap_action, is_quiet_signal, is_step_trap, is_syscall_trap, is_transparent_signal,
    resume_passes_over, step_trap_outcome, BreakpointTrapAction, Breakpoint, BrkptType, StepTrapOutcome,
    StopReason, TraceContext, Tracer, WatchpointHitType, SIGALRM, SIGCHLD, SIGINT, SIGTRAP,
};
use bugstalker::debugger::register::debug::DebugRegisterNumber;

const SIGUSR1: i32 = 10;

fn bp(addr: usize, pid: i32, brkpt_type: BrkptType) -> Breakpoint {
    Breakpoint { addr: RelocatedAddress(addr), pid, brkpt_type, enabled: true, saved_data: 0x90 }
}

#[test]
fn tracee_ctl_add_remove_and_numbers() {
    let mut ctl = TraceeCtl::new(100);
    assert_eq!(ctl.proc_pid(), 100);
    let t = ctl.add(101);
    assert_eq!(t.pid, 101);
    assert_eq!(t.number, 1);
    assert_eq!(t.status, TraceeStatus::Stopped(StopType::Interrupt));
    let t2 = ctl.add(102);
    assert_eq!(t2.number, 2);
    assert_eq!(ctl.snapshot().len(), 3);
    assert_eq!(ctl.remove(101).map(|t| t.pid), Some(101));
    assert!(ctl.tracee(101).is_none());
    assert!(ctl.remove(101).is_none());
    assert_eq!(ctl.tracee_ensure(102).number, 2);
}

#[test]
fn tracee_ctl_continue_plans() {
    let mut ctl = TraceeCtl::new_external(100, &[100, 101, 102]);
    ctl.set_running(101);
    assert_eq!(ctl.cont_stopped_plan(), vec![100, 102]);
    assert_eq!(ctl.running_pids(), vec![101]);
    assert_eq!(
        ctl.cont_stopped_ex_plan(Some((102, SIGUSR1)), &[100]),
        vec![(102, Some(SIGUSR1))]
    );
    assert!(ctl.has_other_than(100));
    ctl.set_stop(101, StopType::SignalStop(SIGUSR1));
    assert_eq!(ctl.tracee(101).map(|t| t.status), Some(TraceeStatus::Stopped(StopType::SignalStop(SIGUSR1))));
}

#[test]
fn signal_classes() {
    assert!(is_quiet_signal(SIGALRM));
    assert!(is_quiet_signal(SIGCHLD));
    assert!(!is_quiet_signal(SIGINT));
    assert!(is_transparent_signal(SIGINT));
    assert!(!is_transparent_signal(SIGUSR1));
    assert!(is_step_trap(true, 2));
    assert!(!is_step_trap(false, 2));
    assert!(!is_step_trap(true, 3));
    assert!(is_syscall_trap(true, 5));
    assert!(!is_syscall_trap(true, 2));
}

#[test]
fn tracer_signal_is_queued_unless_transparent() {
    let mut tracer = Tracer::new(100);
    let (reason, stop_all) = tracer.on_signal(100, SIGUSR1);
    assert!(matches!(reason, StopReason::SignalStop(100, SIGUSR1)));
    assert!(stop_all);
    assert_eq!(tracer.pending_injection(), Some((100, SIGUSR1)));
    let (_, stop_all) = tracer.on_signal(100, SIGINT);
    assert!(stop_all);
    assert_eq!(tracer.queued_threads(), vec![100]);
    let (_, stop_all) = tracer.on_signal(100, SIGALRM);
    assert!(!stop_all);
    assert_eq!(tracer.queued_threads(), vec![100, 100]);
    assert_eq!(tracer.next_injection(), Some((100, SIGUSR1)));
    assert_eq!(tracer.next_injection(), Some((100, SIGALRM)));
    assert_eq!(tracer.next_injection(), None);
}

#[test]
fn tracer_thread_events() {
    let mut tracer = Tracer::new(100);
    assert!(tracer.on_stop_event(101));
    assert!(!tracer.on_stop_event(101));
    assert!(tracer.group_stop_required(100));
    tracer.lock_group_stop();
    assert!(tracer.group_stop_in_progress());
    assert!(!tracer.group_stop_required(100));
    tracer.unlock_group_stop();
    assert!(tracer.on_exited(101, 0).is_none());
    assert!(!tracer.group_stop_required(100));
    assert!(matches!(tracer.on_exited(100, 3), Some(StopReason::DebugeeExit(3))));
    assert!(tracer.tracee_ctl().tracee(100).is_none());
    assert!(matches!(tracer.on_exec_event(100), StopReason::DebugeeStart));
}

#[test]
fn quiet_signal_stop_is_passed_over() {
    assert!(resume_passes_over(&StopReason::SignalStop(1, SIGALRM)));
    assert!(!resume_passes_over(&StopReason::SignalStop(1, SIGUSR1)));
    assert!(!resume_passes_over(&StopReason::DebugeeStart));
}

#[test]
fn breakpoint_trap_without_temporary_breakpoints_stops() {
    let bps = vec![bp(0x10, 1, BrkptType::UserDefined), bp(0x20, 1, BrkptType::UserDefined)];
    let ctx = TraceContext::new(&bps);
    assert!(matches!(
        breakpoint_trap_action(&ctx, 7, RelocatedAddress(0x20)),
        BreakpointTrapAction::Stop(StopReason::Breakpoint(7, RelocatedAddress(0x20)))
    ));
    assert!(matches!(breakpoint_trap_action(&ctx, 7, RelocatedAddress(0x30)), BreakpointTrapAction::Ignore));
}

#[test]
fn breakpoint_trap_with_temporary_breakpoint_of_other_thread_steps_over() {
    let bps = vec![bp(0x10, 1, BrkptType::UserDefined), bp(0x20, 2, BrkptType::Temporary)];
    let ctx = TraceContext::new(&bps);
    assert!(matches!(
        breakpoint_trap_action(&ctx, 5, RelocatedAddress(0x10)),
        BreakpointTrapAction::StepOver { index: 0, was_enabled: true }
    ));
    assert!(matches!(
        breakpoint_trap_action(&ctx, 5, RelocatedAddress(0x20)),
        BreakpointTrapAction::StepOver { index: 1, was_enabled: true }
    ));
    assert!(matches!(
        breakpoint_trap_action(&ctx, 2, RelocatedAddress(0x20)),
        BreakpointTrapAction::Stop(StopReason::Breakpoint(2, _))
    ));
}

#[test]
fn breakpoint_trap_at_watchpoint_companion() {
    let bps = vec![bp(0x40, 1, BrkptType::WatchpointCompanion(vec![3, 4])), bp(0x50, 1, BrkptType::TemporaryAsync)];
    let ctx = TraceContext::new(&bps);
    match breakpoint_trap_action(&ctx, 9, RelocatedAddress(0x40)) {
        BreakpointTrapAction::Stop(StopReason::Watchpoint(9, RelocatedAddress(0x40), WatchpointHitType::EndOfScope(w))) => {
            assert_eq!(w, vec![3, 4])
        }
        other => panic!("unexpected {other:?}"),
    }
}

#[test]
fn single_step_trap_outcomes() {
    let bps = vec![bp(0x40, 1, BrkptType::WatchpointCompanion(vec![1])), bp(0x60, 1, BrkptType::UserDefined)];
    let ctx = TraceContext::new(&bps);
    assert!(matches!(
        step_trap_outcome(&ctx, 3, RelocatedAddress(0x10), RelocatedAddress(0x10), None),
        StepTrapOutcome::StepAgain
    ));
    assert!(matches!(
        step_trap_outcome(&ctx, 3, RelocatedAddress(0x14), RelocatedAddress(0x10), Some(DebugRegisterNumber::DR3)),
        StepTrapOutcome::Done(Some(StopReason::Watchpoint(3, _, WatchpointHitType::DebugRegister(DebugRegisterNumber::DR3))))
    ));
    assert!(matches!(
        step_trap_outcome(&ctx, 3, RelocatedAddress(0x40), RelocatedAddress(0x10), None),
        StepTrapOutcome::Done(Some(StopReason::Watchpoint(3, _, WatchpointHitType::EndOfScope(_))))
    ));
    assert!(matches!(
        step_trap_outcome(&ctx, 3, RelocatedAddress(0x60), RelocatedAddress(0x10), None),
        StepTrapOutcome::Done(None)
    ));
    let _ = SIGTRAP;
}

use bugstalker::debugger::debugee::{skips_dependency, stop_follow_up, ExecutionStatus, StopFollowUp};

#[test]
fn stop_follow_ups() {
    let bps = vec![bp(0x10, 1, BrkptType::EntryPoint), bp(0x20, 1, BrkptType::LinkerMapFn), bp(0x30, 1, BrkptType::UserDefined)];
    let ctx = TraceContext::new(&bps);
    assert_eq!(stop_follow_up(&ctx, &StopReason::DebugeeExit(0)), (Some(ExecutionStatus::Exited), StopFollowUp::Nothing));
    assert_eq!(
        stop_follow_up(&ctx, &StopReason::DebugeeStart),
        (Some(ExecutionStatus::InProgress), StopFollowUp::UpdateProgramMappings)
    );
    assert_eq!(
        stop_follow_up(&ctx, &StopReason::Breakpoint(1, RelocatedAddress(0x10))),
        (None, StopFollowUp::InitLibraries)
    );
    assert_eq!(
        stop_follow_up(&ctx, &StopReason::Breakpoint(1, RelocatedAddress(0x20))),
        (None, StopFollowUp::ReloadLibraries)
    );
    assert_eq!(stop_follow_up(&ctx, &StopReason::Breakpoint(1, RelocatedAddress(0x30))), (None, StopFollowUp::Nothing));
    assert_eq!(stop_follow_up(&ctx, &StopReason::NoSuchProcess(3)), (Some(ExecutionStatus::Exited), StopFollowUp::Nothing));
    assert_eq!(stop_follow_up(&ctx, &StopReason::SignalStop(3, SIGUSR1)), (None, StopFollowUp::Nothing));
}

#[test]
fn dependencies_without_debug_information() {
    assert!(skips_dependency(""));
    assert!(skips_dependency("linux-vdso.so.1"));
    assert!(!skips_dependency("/lib/libc.so.6"));
}

fn running_tracer() -> Tracer {
    let mut tracer = Tracer::new_external(100, &[100, 101, 102]);
    tracer.mark_running(100);
    tracer.mark_running(101);
    tracer.mark_running(102);
    tracer
}

fn status_of(tracer: &Tracer, pid: i32) -> Option<TraceeStatus> {
    tracer.tracee_ctl().tracee(pid).map(|t| t.status)
}

#[test]
fn event_exit_of_main_thread_is_debugee_exit() {
    let mut tracer = running_tracer();
    match tracer.apply_event(WaitEvent::Exited(101, 0)) {
        EventOutcome::Handled(None) => {}
        other => panic!("unexpected {other:?}"),
    }
    assert!(status_of(&tracer, 101).is_none());
    match tracer.apply_event(WaitEvent::Exited(100, 3)) {
        EventOutcome::Handled(Some(StopReason::DebugeeExit(3))) => {}
        other => panic!("unexpected {other:?}"),
    }
}

#[test]
fn event_ptrace_events() {
    let mut tracer = running_tracer();
    assert!(matches!(tracer.apply_event(WaitEvent::PtraceEvent(101, 5, PTRACE_EVENT_CLONE)), EventOutcome::FetchClonedThread(101)));
    assert_eq!(status_of(&tracer, 101), Some(TraceeStatus::Stopped(StopType::Interrupt)));
    assert!(tracer.on_cloned_thread(103));
    assert!(!tracer.on_cloned_thread(103));
    assert!(matches!(tracer.apply_event(WaitEvent::PtraceEvent(102, SIGSTOP, PTRACE_EVENT_STOP)), EventOutcome::Handled(None)));
    assert_eq!(status_of(&tracer, 102), Some(TraceeStatus::Stopped(StopType::Interrupt)));
    assert!(matches!(tracer.apply_event(WaitEvent::PtraceEvent(103, 5, PTRACE_EVENT_EXIT)), EventOutcome::LetExit(103)));
    assert!(status_of(&tracer, 103).is_none());
    assert!(matches!(tracer.apply_event(WaitEvent::PtraceEvent(103, 5, PTRACE_EVENT_EXIT)), EventOutcome::Handled(None)));
    assert!(matches!(
        tracer.apply_event(WaitEvent::PtraceEvent(104, 5, PTRACE_EVENT_EXEC)),
        EventOutcome::Handled(Some(StopReason::DebugeeStart))
    ));
    assert_eq!(status_of(&tracer, 104), Some(TraceeStatus::Stopped(StopType::Interrupt)));
}

#[test]
fn event_stops_by_signal_and_traps() {
    let mut tracer = running_tracer();
    match tracer.apply_event(WaitEvent::Stopped { pid: 101, signal: SIGUSR1, si_code: 0 }) {
        EventOutcome::StopAll(101, StopReason::SignalStop(101, SIGUSR1)) => {}
        other => panic!("unexpected {other:?}"),
    }
    assert_eq!(tracer.pending_injection(), Some((101, SIGUSR1)));
    match tracer.apply_event(WaitEvent::Stopped { pid: 102, signal: SIGALRM, si_code: 0 }) {
        EventOutcome::Handled(Some(StopReason::SignalStop(102, SIGALRM))) => {}
        other => panic!("unexpected {other:?}"),
    }
    assert!(matches!(
        tracer.apply_event(WaitEvent::Stopped { pid: 100, signal: SIGTRAP, si_code: TRAP_BRKPT }),
        EventOutcome::RewindToBreakpoint(100)
    ));
    assert!(matches!(
        tracer.apply_event(WaitEvent::Stopped { pid: 100, signal: SIGTRAP, si_code: SI_KERNEL }),
        EventOutcome::RewindToBreakpoint(100)
    ));
    assert_eq!(status_of(&tracer, 100), Some(TraceeStatus::Running));
    assert!(matches!(
        tracer.apply_event(WaitEvent::Stopped { pid: 100, signal: SIGTRAP, si_code: TRAP_HWBKPT }),
        EventOutcome::HardwareBreakpoint(100)
    ));
    assert_eq!(status_of(&tracer, 100), Some(TraceeStatus::Stopped(StopType::Interrupt)));
    assert!(matches!(tracer.apply_event(WaitEvent::StoppedGone(7)), EventOutcome::Handled(Some(StopReason::NoSuchProcess(7)))));
    assert!(matches!(tracer.apply_event(WaitEvent::Other), EventOutcome::Handled(None)));
}

#[test]
fn breakpoint_trap_stop_interrupts_the_thread() {
    let mut tracer = running_tracer();
    let bps = vec![bp(0x10, 0, BrkptType::UserDefined)];
    let ctx = TraceContext::new(&bps);
    match tracer.on_breakpoint_trap(&ctx, 101, RelocatedAddress(0x10)) {
        BreakpointTrapAction::Stop(StopReason::Breakpoint(101, RelocatedAddress(0x10))) => {}
        other => panic!("unexpected {other:?}"),
    }
    assert_eq!(status_of(&tracer, 101), Some(TraceeStatus::Stopped(StopType::Interrupt)));
    assert!(matches!(tracer.on_breakpoint_trap(&ctx, 102, RelocatedAddress(0x20)), BreakpointTrapAction::Ignore));
    assert_eq!(status_of(&tracer, 102), Some(TraceeStatus::Running));
}

#[test]
fn group_stop_steps() {
    let mut tracer = running_tracer();
    assert!(tracer.begin_group_stop(100));
    assert!(tracer.group_stop_in_progress());
    assert!(!tracer.begin_group_stop(100));
    assert!(tracer.needs_interrupt(101));
    // an unrelated event: the thread is still running, wait again
    assert!(matches!(tracer.group_stop_after_wait(101, None), GroupStopNext::WaitAgain));
    // a hit of another thread does not settle this one
    assert!(matches!(
        tracer.group_stop_after_wait(101, Some(StopReason::Breakpoint(102, RelocatedAddress(1)))),
        GroupStopNext::WaitAgain
    ));
    assert!(matches!(
        tracer.group_stop_after_wait(101, Some(StopReason::Breakpoint(101, RelocatedAddress(1)))),
        GroupStopNext::Done
    ));
    assert_eq!(status_of(&tracer, 101), Some(TraceeStatus::Stopped(StopType::Interrupt)));
    assert!(!tracer.needs_interrupt(101));
    match tracer.group_stop_after_wait(102, Some(StopReason::DebugeeExit(9))) {
        GroupStopNext::Failed(Error::ProcessExit(9)) => {}
        other => panic!("unexpected {other:?}"),
    }
    assert_eq!(status_of(&tracer, 102), Some(TraceeStatus::Running));
    assert!(matches!(tracer.group_stop_after_wait(102, Some(StopReason::NoSuchProcess(102))), GroupStopNext::Done));
    assert!(!tracer.finish_group_stop());
    assert!(!tracer.group_stop_in_progress());
    tracer.settle_interrupted(100);
    assert!(tracer.begin_group_stop(100));
    assert!(tracer.finish_group_stop());
}

#[test]
fn group_stop_not_needed_for_a_single_thread() {
    let mut tracer = Tracer::new(100);
    assert!(!tracer.begin_group_stop(100));
    assert!(!tracer.group_stop_in_progress());
}

#[test]
fn single_step_status_kinds() {
    assert_eq!(step_status_kind(5, WaitEvent::Stopped { pid: 5, signal: SIGTRAP, si_code: TRAP_TRACE }), StepStatus::Trap);
    assert_eq!(step_status_kind(5, WaitEvent::Stopped { pid: 5, signal: SIGTRAP, si_code: TRAP_HWBKPT }), StepStatus::Trap);
    assert_eq!(step_status_kind(5, WaitEvent::Stopped { pid: 5, signal: SIGTRAP, si_code: TRAP_SYSCALL }), StepStatus::SyscallTrap);
    assert_eq!(step_status_kind(5, WaitEvent::Stopped { pid: 5, signal: SIGUSR1, si_code: TRAP_TRACE }), StepStatus::Other);
    assert_eq!(step_status_kind(5, WaitEvent::PtraceEvent(5, SIGSTOP, PTRACE_EVENT_STOP)), StepStatus::Interrupted);
    assert_eq!(step_status_kind(5, WaitEvent::PtraceEvent(6, SIGSTOP, PTRACE_EVENT_STOP)), StepStatus::Other);
    assert_eq!(step_status_kind(5, WaitEvent::Exited(5, 0)), StepStatus::Other);
}

#[test]
fn single_step_decisions() {
    let bps = vec![bp(0x30, 0, BrkptType::WatchpointCompanion(vec![4]))];
    let ctx = TraceContext::new(&bps);
    let start = RelocatedAddress(0x10);
    assert!(matches!(
        single_step_next(&ctx, 1, start, StepEvent::Trap { pc: start, hit_register: None }),
        StepAction::StepAgain
    ));
    assert!(matches!(
        single_step_next(&ctx, 1, start, StepEvent::Trap { pc: RelocatedAddress(0x11), hit_register: None }),
        StepAction::Finish(None)
    ));
    match single_step_next(&ctx, 1, start, StepEvent::Trap { pc: RelocatedAddress(0x11), hit_register: Some(DebugRegisterNumber::DR2) }) {
        StepAction::Finish(Some(StopReason::Watchpoint(1, RelocatedAddress(0x11), WatchpointHitType::DebugRegister(DebugRegisterNumber::DR2)))) => {}
        other => panic!("unexpected {other:?}"),
    }
    match single_step_next(&ctx, 1, start, StepEvent::Trap { pc: RelocatedAddress(0x30), hit_register: None }) {
        StepAction::Finish(Some(StopReason::Watchpoint(1, RelocatedAddress(0x30), WatchpointHitType::EndOfScope(w)))) => assert_eq!(w, vec![4]),
        other => panic!("unexpected {other:?}"),
    }
    assert!(matches!(single_step_next(&ctx, 1, start, StepEvent::SyscallTrap), StepAction::FinishSyscall));
    assert!(matches!(single_step_next(&ctx, 1, start, StepEvent::Interrupted), StepAction::Finish(None)));
    assert!(matches!(single_step_next(&ctx, 1, start, StepEvent::Other(None)), StepAction::WaitAgain));
    assert!(matches!(
        single_step_next(&ctx, 1, start, StepEvent::Other(Some(StopReason::SignalStop(1, SIGALRM)))),
        StepAction::StepWithSignal(SIGALRM)
    ));
    assert!(matches!(
        single_step_next(&ctx, 1, start, StepEvent::Other(Some(StopReason::SignalStop(1, SIGUSR1)))),
        StepAction::Finish(Some(StopReason::SignalStop(1, SIGUSR1)))
    ));
    assert!(matches!(
        single_step_next(&ctx, 1, start, StepEvent::Other(Some(StopReason::NoSuchProcess(1)))),
        StepAction::Finish(None)
    ));
    assert!(matches!(
        single_step_next(&ctx, 1, start, StepEvent::Other(Some(StopReason::DebugeeExit(2)))),
        StepAction::Fail(Error::ProcessExit(2))
    ));
}

#[test]
fn breakpoint_byte_patching() {
    assert_eq!(with_low_byte(0x1122_3344_5566_7788, INT3), 0x1122_3344_5566_77cc);
    assert_eq!(with_low_byte(0x1122_3344_5566_77cc, 0x88), 0x1122_3344_5566_7788);
}

#[test]
fn events_that_need_a_controlled_thread() {
    assert_eq!(event_tracee(WaitEvent::Stopped { pid: 3, signal: SIGUSR1, si_code: 0 }), Some(3));
    assert_eq!(event_tracee(WaitEvent::Stopped { pid: 3, signal: SIGTRAP, si_code: TRAP_BRKPT }), Some(3));
    assert_eq!(event_tracee(WaitEvent::Stopped { pid: 3, signal: SIGTRAP, si_code: TRAP_SYSCALL }), None);
    assert_eq!(event_tracee(WaitEvent::PtraceEvent(4, 5, PTRACE_EVENT_CLONE)), Some(4));
    assert_eq!(event_tracee(WaitEvent::PtraceEvent(4, 5, PTRACE_EVENT_EXIT)), None);
    assert_eq!(event_tracee(WaitEvent::Exited(4, 0)), None);
    assert!(is_step_only_trap(WaitEvent::Stopped { pid: 3, signal: SIGTRAP, si_code: TRAP_TRACE }));
    assert!(!is_step_only_trap(WaitEvent::Stopped { pid: 3, signal: SIGTRAP, si_code: TRAP_BRKPT }));
}
