use bugstalker::debugger::error::Error;
use bugstalker::debugger::register::debug::{
    BreakCondition, BreakSize, DebugControlRegister, DebugRegisterNumber, DebugStatusRegister,
};
use bugstalker::debugger::register::{DwarfRegisterMap, Register, RegisterMap};

fn zero_map() -> RegisterMap {
    RegisterMap {
        rax: 0,
        rbx: 0,
        rcx: 0,
        rdx: 0,
        rdi: 0,
        rsi: 0,
        rbp: 0,
        rsp: 0,
        r8: 0,
        r9: 0,
        r10: 0,
        r11: 0,
        r12: 0,
        r13: 0,
        r14: 0,
        r15: 0,
        rip: 0,
        eflags: 0,
        cs: 0,
        orig_rax: 0,
        fs_base: 0,
        gs_base: 0,
        fs: 0,
        gs: 0,
        ss: 0,
        ds: 0,
        es: 0,
    }
}

#[test]
fn register_map_read_after_write() {
    let mut map = zero_map();
    map.update(Register::Rip, 0x401000);
    map.update(Register::Rsp, 0x7fff0000);
    assert_eq!(map.value(Register::Rip), 0x401000);
    assert_eq!(map.value(Register::Rsp), 0x7fff0000);
    assert_eq!(map.value(Register::Rax), 0);
}

#[test]
fn dwarf_register_numbers() {
    assert_eq!(Register::from_dwarf(0), Register::Rax);
    assert_eq!(Register::from_dwarf(7), Register::Rsp);
    assert_eq!(Register::from_dwarf(15), Register::R15);
    assert_eq!(Register::from_dwarf(49), Register::Eflags);
    assert_eq!(Register::from_dwarf(59), Register::GsBase);
}

#[test]
fn dwarf_register_map_reads_and_updates() {
    let mut map = zero_map();
    map.update(Register::Rbx, 77);
    let mut dmap = DwarfRegisterMap::from_register_map(&map);
    assert_eq!(dmap.value(3).ok(), Some(77));
    dmap.update(6, 0x1234);
    assert_eq!(dmap.value(6).ok(), Some(0x1234));
    assert!(matches!(dmap.value(153), Err(Error::RegisterNotFound(153))));
}

#[test]
fn status_register_detects_lowest_trap_and_flushes_it() {
    let mut dr6 = DebugStatusRegister(0b0110);
    assert_eq!(dr6.detect_and_flush(), Some(DebugRegisterNumber::DR1));
    assert_eq!(dr6.0, 0b0100);
    assert_eq!(dr6.detect_and_flush(), Some(DebugRegisterNumber::DR2));
    assert_eq!(dr6.0, 0);
    assert_eq!(dr6.detect_and_flush(), None);
    assert_eq!(dr6.0, 0);
}

#[test]
fn control_register_enable_then_read() {
    let mut dr7 = DebugControlRegister(0);
    dr7.set_dr(DebugRegisterNumber::DR2, true, true);
    assert!(dr7.dr_enabled(DebugRegisterNumber::DR2, true));
    assert!(!dr7.dr_enabled(DebugRegisterNumber::DR2, false));
    assert!(!dr7.dr_enabled(DebugRegisterNumber::DR0, true));
    // bit 5 enables DR2 globally, bit 9 is the global exact breakpoint bit
    assert_eq!(dr7.0, (1 << 5) | (1 << 9));
    dr7.set_dr(DebugRegisterNumber::DR2, true, false);
    assert!(!dr7.dr_enabled(DebugRegisterNumber::DR2, true));
    assert_eq!(dr7.0, 0);
}

#[test]
fn control_register_configure_breakpoint() {
    let mut dr7 = DebugControlRegister(0);
    dr7.configure_bp(DebugRegisterNumber::DR1, BreakCondition::DataReadsWrites, BreakSize::Bytes8);
    // condition at bits 20-21, size at bits 22-23
    assert_eq!(dr7.0, (3 << 20) | (2 << 22));
    dr7.configure_bp(DebugRegisterNumber::DR1, BreakCondition::DataWrites, BreakSize::Bytes1);
    assert_eq!(dr7.0, 1 << 20);
}

#[test]
fn break_size_from_bytes() {
    assert!(matches!(BreakSize::try_from(1), Ok(BreakSize::Bytes1)));
    assert!(matches!(BreakSize::try_from(2), Ok(BreakSize::Bytes2)));
    assert!(matches!(BreakSize::try_from(4), Ok(BreakSize::Bytes4)));
    assert!(matches!(BreakSize::try_from(8), Ok(BreakSize::Bytes8)));
    assert!(matches!(BreakSize::try_from(3), Err(Error::WatchpointWrongSize)));
    assert_eq!(BreakCondition::DataWrites.name(), "w");
    assert_eq!(BreakCondition::DataReadsWrites.name(), "rw");
}

use bugstalker::debugger::debugee::dwarf::eval::{
    generic_memory_value, EvalRequirement, EvalStep, ExternalRequirementsResolver,
};

#[test]
fn evaluation_requirements_use_entry_registers_once() {
    let mut map = zero_map();
    map.rsp = 0x7ffe_0000;
    let entry = DwarfRegisterMap::from_register_map(&map);
    let mut resolver = ExternalRequirementsResolver::new().with_entry_registers(42, entry);
    // rsp is DWARF register 7
    assert_eq!(resolver.next_step(42, EvalRequirement::Register(7)).unwrap(), EvalStep::RegisterValue(0x7ffe_0000));
    // the saved registers are used up: the next read is from the frame in focus
    assert_eq!(resolver.next_step(42, EvalRequirement::Register(7)).unwrap(), EvalStep::FrameRegister(7));
    // another thread has no saved registers
    assert_eq!(resolver.next_step(7, EvalRequirement::Register(0)).unwrap(), EvalStep::FrameRegister(0));
    let mut resolver = ExternalRequirementsResolver::new().with_entry_registers(1, DwarfRegisterMap::from_register_map(&map));
    assert!(matches!(resolver.next_step(1, EvalRequirement::Register(200)), Err(Error::RegisterNotFound(200))));
}

#[test]
fn evaluation_requirements_at_location_and_unsupported() {
    let mut resolver = ExternalRequirementsResolver::new().with_at_location(vec![1, 2, 3]);
    assert_eq!(resolver.next_step(1, EvalRequirement::AtLocation).unwrap(), EvalStep::AtLocation(vec![1, 2, 3]));
    assert!(matches!(resolver.next_step(1, EvalRequirement::AtLocation), Err(Error::EvalOptionRequired(w)) if w == "at_location"));
    assert!(matches!(resolver.next_step(1, EvalRequirement::ParameterRef), Err(Error::EvalUnsupportedRequire(w)) if w == "parameter_ref"));
    assert_eq!(
        resolver.next_step(1, EvalRequirement::Memory { address: 0x10, size: 4 }).unwrap(),
        EvalStep::Memory { address: 0x10, size: 4 }
    );
    assert_eq!(resolver.next_step(1, EvalRequirement::FrameBase).unwrap(), EvalStep::FrameBase);
}

#[test]
fn generic_memory_value_needs_a_word() {
    assert_eq!(generic_memory_value(vec![1, 0, 0, 0, 0, 0, 0, 0x10]).unwrap(), 0x1000_0000_0000_0001);
    assert!(matches!(generic_memory_value(vec![1, 2]), Err(Error::TypeBinaryRepr(w, d)) if w == "u64" && d == vec![1, 2]));
}

#[test]
fn registers_by_name() {
    assert_eq!(Register::OrigRax.name(), "orig_rax");
    assert_eq!(Register::R8.name(), "r8");
    assert_eq!(Register::from_name("fs_base").unwrap(), Register::FsBase);
    assert_eq!(Register::from_name("rip").unwrap(), Register::Rip);
    assert!(matches!(Register::from_name("RIP"), Err(Error::RegisterNameNotFound(n)) if n == "RIP"));
    assert!(matches!(Register::from_name("xmm0"), Err(Error::RegisterNameNotFound(_))));
    let mut map = zero_map();
    map.rsp = 0x7ff0;
    assert_eq!(map.value_by_name("rsp").unwrap(), 0x7ff0);
    map.update_by_name("r12", 42).unwrap();
    assert_eq!(map.r12, 42);
    assert!(map.update_by_name("r16", 1).is_err());
    assert!(map.value_by_name("").is_err());
}

#[test]
fn control_register_set_dr_touches_only_its_bits() {
    // condition and size bits of DR1 set, no register enabled
    let mut dr7 = DebugControlRegister((3 << 20) | (2 << 22));
    dr7.set_dr(DebugRegisterNumber::DR0, false, true);
    dr7.set_dr(DebugRegisterNumber::DR3, false, true);
    assert_eq!(dr7.0, (3 << 20) | (2 << 22) | 1 | (1 << 6) | (1 << 8));
    // the local detection bit stays while DR3 is enabled
    dr7.set_dr(DebugRegisterNumber::DR0, false, false);
    assert_eq!(dr7.0, (3 << 20) | (2 << 22) | (1 << 6) | (1 << 8));
    dr7.set_dr(DebugRegisterNumber::DR3, false, false);
    assert_eq!(dr7.0, (3 << 20) | (2 << 22));
}
