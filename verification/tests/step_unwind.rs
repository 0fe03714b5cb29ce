use bugstalker::debugger::address::RelocatedAddress;
use bugstalker::debugger::debugee::dwarf::unit::{BsUnit, LineRow, PlaceDescriptorOwned, Range};
use bugstalker::debugger::debugee::dwarf::unwind::{
    apply_register_rules, registers_for_next_frame, return_address, ResolvedRule,
};
use bugstalker::debugger::register::{DwarfRegisterMap, RegisterMap};
use bugstalker::debugger::step::{step_in_done, step_on_after_return, step_over_targets, StepFrame, StepResult};

fn row(address: u64, file: u64, line: u64, stmt: bool) -> LineRow {
    LineRow::new(address, file, line, 1, stmt, false, false, false)
}

fn unit() -> BsUnit {
    BsUnit::new(
        None,
        vec!["/a.rs".to_string(), "/b.rs".to_string()],
        vec![
            row(0x100, 0, 1, true), // prolog
            row(0x104, 0, 2, true), // current place
            row(0x108, 0, 3, true),
            row(0x10c, 1, 9, true), // other file
            row(0x110, 0, 4, false),
            row(0x114, 0, 5, true), // inlined
            row(0x118, 0, 6, true),
            row(0x120, 0, 7, true), // out of the range
        ],
        vec![Range { begin: 0x100, end: 0x120 }],
    )
}

#[test]
fn step_over_breakpoint_addresses() {
    let u = unit();
    let frame = StepFrame {
        fn_file: Some(0),
        prolog: Range { begin: 0x100, end: 0x104 },
        inline_ranges: vec![Range { begin: 0x114, end: 0x118 }],
        current_address: 0x104,
        current_line: 2,
    };
    let targets = step_over_targets(&u, &[Range { begin: 0x100, end: 0x120 }], &frame).unwrap();
    assert_eq!(targets, vec![0x108, 0x118]);
    let targets = step_over_targets(&u, &[Range { begin: 0x108, end: 0x10c }, Range { begin: 0x118, end: 0x124 }], &frame).unwrap();
    assert_eq!(targets, vec![0x108, 0x118, 0x120]);
    let empty = BsUnit::new(None, vec![], vec![], vec![]);
    assert!(step_over_targets(&empty, &[Range { begin: 0, end: 1 }], &frame).is_none());
    assert_eq!(step_over_targets(&empty, &[], &frame), Some(vec![]));
}

fn place(file: &str, line: u64, is_stmt: bool) -> PlaceDescriptorOwned {
    PlaceDescriptorOwned {
        file: file.to_string(),
        address: 0,
        line_number: line,
        pos_in_unit: 0,
        is_stmt,
        column_number: 0,
        epilog_begin: false,
        prolog_end: false,
    }
}

#[test]
fn step_in_stops_at_another_line_or_frame() {
    let start = "/a.rs".to_string();
    let cfa = RelocatedAddress(0x7000);
    assert!(!step_in_done(&start, 5, cfa, &place("/a.rs", 5, true), cfa));
    assert!(step_in_done(&start, 5, cfa, &place("/a.rs", 6, true), cfa));
    assert!(step_in_done(&start, 5, cfa, &place("/b.rs", 5, true), cfa));
    assert!(step_in_done(&start, 5, cfa, &place("/a.rs", 5, true), RelocatedAddress(0x6f00)));
    assert!(!step_in_done(&start, 5, cfa, &place("/a.rs", 6, false), cfa));
}

#[test]
fn step_after_return() {
    let pc = RelocatedAddress(0x500);
    assert!(step_on_after_return(pc, Some(pc), 0x4f0, 0x500));
    assert!(!step_on_after_return(pc, Some(pc), 0x500, 0x500));
    assert!(!step_on_after_return(pc, None, 0x4f0, 0x500));
    assert!(matches!(StepResult::signal_interrupt_quiet(2), StepResult::SignalInterrupt { signal: 2, quiet: true }));
}

fn frame_registers() -> RegisterMap {
    RegisterMap {
        rax: 0,
        rbx: 0,
        rcx: 0,
        rdx: 0,
        rdi: 0,
        rsi: 0,
        rbp: 0x1000,
        rsp: 0x2000,
        r8: 0,
        r9: 0,
        r10: 0,
        r11: 0,
        r12: 0,
        r13: 0,
        r14: 0,
        r15: 0,
        rip: 0x401000,
        eflags: 0,
        cs: 0,
        orig_rax: 0,
        fs_base: 0,
        gs_base: 0,
        fs: 0,
        gs: 0,
        ss: 0,
        ds: 0,
        es: 0,
    }
}

#[test]
fn register_rules_read_the_frame_registers() {
    let map = DwarfRegisterMap::from_register_map(&frame_registers());
    let rules = vec![
        (6, ResolvedRule::Offset { saved: Some(0x1500) }),
        (16, ResolvedRule::Register(6)),
        (3, ResolvedRule::ValOffset(-16)),
        (5, ResolvedRule::Undefined),
        (4, ResolvedRule::Constant(9)),
        (2, ResolvedRule::Expression { saved: None }),
        (20, ResolvedRule::SameValue),
    ];
    let next = apply_register_rules(&map, 0x3000, &rules);
    assert_eq!(next.value(6).ok(), Some(0x1500));
    // the rule for 16 reads register 6 of the frame, not the restored one
    assert_eq!(next.value(16).ok(), Some(0x1000));
    assert_eq!(next.value(3).ok(), Some(0x2ff0));
    assert_eq!(next.value(5).ok(), Some(0));
    assert_eq!(next.value(4).ok(), Some(9));
    assert_eq!(next.value(2).ok(), Some(0));
    assert_eq!(next.value(7).ok(), Some(0x2000));
    assert!(next.value(20).is_err());
    let next = registers_for_next_frame(next, 0x3000);
    assert_eq!(next.value(7).ok(), Some(0x3000));
    assert_eq!(return_address(&next, 16), Some(RelocatedAddress(0x1000)));
    assert_eq!(return_address(&next, 20), None);
    assert_eq!(return_address(&next, 200), None);
}

use bugstalker::debugger::debugee::dwarf::unwind::{focus_frame, next_frame_address, FrameSpan};

#[test]
fn unwinding_stops_at_a_repeated_address() {
    let frame = |ip: usize| FrameSpan { func_name: None, fn_start_ip: None, ip: RelocatedAddress(ip), place: None };
    let bt = vec![frame(0x1000), frame(0x2000)];
    assert_eq!(next_frame_address(&bt, Some(RelocatedAddress(0x3000))), Some(RelocatedAddress(0x3000)));
    assert_eq!(next_frame_address(&bt, Some(RelocatedAddress(0x2000))), None);
    assert_eq!(next_frame_address(&bt, None), None);
}

#[test]
fn focus_frame_is_the_first_at_the_address() {
    let frame = |ip: usize| FrameSpan { func_name: None, fn_start_ip: None, ip: RelocatedAddress(ip), place: None };
    let bt = vec![frame(0x1000), frame(0x2000), frame(0x2000)];
    assert_eq!(focus_frame(&bt, RelocatedAddress(0x2000)), Some(1));
    assert_eq!(focus_frame(&bt, RelocatedAddress(0x1000)), Some(0));
    assert_eq!(focus_frame(&bt, RelocatedAddress(0x3000)), None);
}
