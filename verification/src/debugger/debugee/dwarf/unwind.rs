//! Stack frames of a backtrace.

use crate::debugger::address::RelocatedAddress;
use crate::debugger::debugee::dwarf::unit::PlaceDescriptorOwned;
use crate::debugger::register::{dwarf_value, DwarfRegisterMap};
use vstd::prelude::*;

verus! {

/// Unique frame identifier. It is just an address of the first instruction in function.
pub type FrameID = RelocatedAddress;

/// Represents detailed information about single stack frame in the unwind path.
#[derive(Debug)]
pub struct FrameSpan {
    pub func_name: Option<String>,
    pub fn_start_ip: Option<RelocatedAddress>,
    pub ip: RelocatedAddress,
    pub place: Option<PlaceDescriptorOwned>,
}

impl FrameSpan {
    /// Frame identifier: the address of the first instruction of the frame function.
    pub fn id(&self) -> (r: Option<FrameID>)
        ensures
            r == self.fn_start_ip,
    {
        self.fn_start_ip
    }
}

/// A backtrace: frames from the innermost one.
pub type Backtrace = Vec<FrameSpan>;

/// Where unwinding goes on from a backtrace, given the return address found
/// for its last frame: to that address, unless there is none or it is the
/// address of the last frame itself (unwinding would not move on).
pub open spec fn spec_next_frame(bt: Seq<FrameSpan>, return_addr: Option<RelocatedAddress>) -> Option<RelocatedAddress> {
    match return_addr {
        Some(a) => if a == bt[bt.len() - 1].ip {
            None
        } else {
            Some(a)
        },
        None => None,
    }
}

/// No two neighbouring frames of a backtrace are at the same address.
pub open spec fn frames_move_on(bt: Seq<FrameSpan>) -> bool {
    forall|i: int| 0 <= i < bt.len() - 1 ==> #[trigger] bt[i].ip != bt[i + 1].ip
}

/// Where unwinding goes on from a backtrace, given the return address found
/// for its last frame (see [`spec_next_frame`]).
pub fn next_frame_address(bt: &Backtrace, return_addr: Option<RelocatedAddress>) -> (r: Option<RelocatedAddress>)
    requires
        bt.len() > 0,
    ensures
        r == spec_next_frame(bt@, return_addr),
{
    match return_addr {
        None => None,
        Some(a) => {
            let last = &bt[bt.len() - 1];
            if a.0 == last.ip.0 {
                None
            } else {
                Some(a)
            }
        },
    }
}

/// Unwinding never stands still: a frame added at the address where
/// unwinding goes on (see [`spec_next_frame`]) keeps neighbouring frames at
/// different addresses.
pub proof fn lemma_unwind_moves_on(bt: Seq<FrameSpan>, return_addr: Option<RelocatedAddress>, frame: FrameSpan)
    requires
        bt.len() > 0,
        frames_move_on(bt),
        spec_next_frame(bt, return_addr) == Some(frame.ip),
    ensures
        frames_move_on(bt.push(frame)),
{
    assert forall|i: int| 0 <= i < bt.push(frame).len() - 1 implies #[trigger] bt.push(frame)[i].ip != bt.push(
        frame,
    )[i + 1].ip by {
        if i < bt.len() - 1 {
            assert(bt.push(frame)[i] == bt[i] && bt.push(frame)[i + 1] == bt[i + 1]);
        } else {
            assert(bt.push(frame)[i] == bt[bt.len() - 1]);
            assert(bt.push(frame)[i + 1] == frame);
        }
    }
}

/// Position of the first frame of a backtrace whose address is `pc`.
pub open spec fn first_frame_at(bt: Seq<FrameSpan>, pc: RelocatedAddress) -> Option<int>
    decreases bt.len(),
{
    if bt.len() == 0 {
        None
    } else if bt[0].ip == pc {
        Some(0)
    } else {
        match first_frame_at(bt.drop_first(), pc) {
            Some(i) => Some(i + 1),
            None => None,
        }
    }
}

/// Number of the frame of a thread's backtrace that is in focus: the first
/// frame at the address in focus.
pub fn focus_frame(bt: &Backtrace, pc: RelocatedAddress) -> (r: Option<usize>)
    ensures
        r matches Some(i) ==> first_frame_at(bt@, pc) == Some(i as int),
        r is None ==> first_frame_at(bt@, pc) is None,
{
    let mut i: usize = 0;
    proof {
        assert(bt@.subrange(0, bt@.len() as int) =~= bt@);
    }
    while i < bt.len()
        invariant
            i <= bt.len(),
            first_frame_at(bt@, pc) == match first_frame_at(bt@.subrange(i as int, bt@.len() as int), pc) {
                Some(j) => Some(j + i),
                None => None,
            },
        decreases bt.len() - i,
    {
        proof {
            let s = bt@.subrange(i as int, bt@.len() as int);
            assert(s.drop_first() =~= bt@.subrange(i + 1, bt@.len() as int));
            assert(s[0] == bt@[i as int]);
        }
        if bt[i].ip.0 == pc.0 {
            return Some(i);
        }
        i = i + 1;
    }
    None
}

/// DWARF number of the stack pointer register.
pub const SP_DWARF_REGISTER: u16 = 7;

/// A rule of the call frame information that restores a register of the
/// calling frame, with what was read for it: the word saved in memory, or the
/// value of an expression.
#[derive(Debug, Clone, Copy)]
pub enum ResolvedRule {
    /// The register cannot be restored.
    Undefined,
    /// The register keeps its value.
    SameValue,
    /// The register is saved at the frame address plus an offset; `saved` is
    /// the word read there, if it could be read.
    Offset { saved: Option<u64> },
    /// The register value is the frame address plus the offset.
    ValOffset(i64),
    /// The register value is the value of another register.
    Register(u16),
    /// The register is saved at an address that an expression computes;
    /// `saved` is the word read there, if it could be computed and read.
    Expression { saved: Option<u64> },
    /// The register value is the value of an expression, if it could be computed.
    ValExpression { value: Option<u64> },
    /// A rule of the architecture, not used here.
    Architectural,
    /// The register value is a constant.
    Constant(u64),
}

/// Value of a register of the calling frame under a rule, from the registers
/// of the frame (`None` if the rule gives no value).
pub open spec fn rule_value(snapshot: Seq<Option<u64>>, cfa: u64, register: u16, rule: ResolvedRule) -> Option<u64> {
    match rule {
        ResolvedRule::Undefined => None,
        ResolvedRule::SameValue => dwarf_value(snapshot, register),
        ResolvedRule::Offset { saved } => saved,
        ResolvedRule::ValOffset(offset) => Some(cfa.wrapping_add_signed(offset)),
        ResolvedRule::Register(other) => dwarf_value(snapshot, other),
        ResolvedRule::Expression { saved } => saved,
        ResolvedRule::ValExpression { value } => value,
        ResolvedRule::Architectural => None,
        ResolvedRule::Constant(v) => Some(v),
    }
}

/// Registers of the calling frame: the registers of the frame with each rule
/// that gives a value applied in turn; every rule reads the registers as they
/// were before any rule was applied.
pub open spec fn apply_rules_spec(snapshot: Seq<Option<u64>>, cfa: u64, rules: Seq<(u16, ResolvedRule)>) -> Seq<Option<u64>>
    decreases rules.len(),
{
    if rules.len() == 0 {
        snapshot
    } else {
        let t = apply_rules_spec(snapshot, cfa, rules.drop_last());
        match rule_value(snapshot, cfa, rules.last().0, rules.last().1) {
            Some(v) => t.update(rules.last().0 as int, Some(v)),
            None => t,
        }
    }
}

proof fn lemma_apply_rules_len(snapshot: Seq<Option<u64>>, cfa: u64, rules: Seq<(u16, ResolvedRule)>)
    requires
        forall|i: int| 0 <= i < rules.len() ==> ((#[trigger] rules[i]).0 as int) < snapshot.len(),
    ensures
        apply_rules_spec(snapshot, cfa, rules).len() == snapshot.len(),
    decreases rules.len(),
{
    if rules.len() > 0 {
        let d = rules.drop_last();
        assert forall|i: int| 0 <= i < d.len() implies ((#[trigger] d[i]).0 as int) < snapshot.len() by {
            assert(d[i] == rules[i]);
        }
        assert(rules[rules.len() - 1] == rules.last());
        lemma_apply_rules_len(snapshot, cfa, d);
    }
}

/// Value of a register of the calling frame under a rule.
pub fn rule_value_of(registers: &DwarfRegisterMap, cfa: u64, register: u16, rule: ResolvedRule) -> (r: Option<u64>)
    ensures
        r == rule_value(registers@, cfa, register, rule),
{
    match rule {
        ResolvedRule::Undefined => None,
        ResolvedRule::SameValue => registers.value(register).ok(),
        ResolvedRule::Offset { saved } => saved,
        ResolvedRule::ValOffset(offset) => Some(cfa.wrapping_add_signed(offset)),
        ResolvedRule::Register(other) => registers.value(other).ok(),
        ResolvedRule::Expression { saved } => saved,
        ResolvedRule::ValExpression { value } => value,
        ResolvedRule::Architectural => None,
        ResolvedRule::Constant(v) => Some(v),
    }
}

/// Restore the registers of the calling frame from the registers of a frame,
/// its canonical frame address and the rules of its call frame information
/// (see [`apply_rules_spec`]). Every register that a rule restores has a slot.
pub fn apply_register_rules(registers: &DwarfRegisterMap, cfa: u64, rules: &[(u16, ResolvedRule)]) -> (r: DwarfRegisterMap)
    requires
        forall|i: int| 0 <= i < rules@.len() ==> ((#[trigger] rules@[i]).0 as int) < registers@.len(),
    ensures
        r@ == apply_rules_spec(registers@, cfa, rules@),
{
    let mut next = registers.clone();
    assert(next@ =~= registers@);
    let mut i: usize = 0;
    while i < rules.len()
        invariant
            i <= rules@.len(),
            forall|i: int| 0 <= i < rules@.len() ==> ((#[trigger] rules@[i]).0 as int) < registers@.len(),
            next@ == apply_rules_spec(registers@, cfa, rules@.take(i as int)),
        decreases rules@.len() - i,
    {
        let (reg, rule) = rules[i];
        proof {
            assert(rules@.take(i + 1).drop_last() =~= rules@.take(i as int));
            let t = rules@.take(i as int);
            assert forall|k: int| 0 <= k < t.len() implies ((#[trigger] t[k]).0 as int) < registers@.len() by {
                assert(t[k] == rules@[k]);
            }
            lemma_apply_rules_len(registers@, cfa, t);
            assert(rules@[i as int].0 == reg);
        }
        match rule_value_of(registers, cfa, reg, rule) {
            Some(v) => next.update(reg, v),
            None => {},
        }
        i = i + 1;
    }
    proof {
        assert(rules@.take(i as int) =~= rules@);
    }
    next
}

/// Registers to unwind the calling frame with: the registers restored for it,
/// with the stack pointer set to the canonical frame address of the frame.
pub fn registers_for_next_frame(registers: DwarfRegisterMap, cfa: u64) -> (r: DwarfRegisterMap)
    requires
        (SP_DWARF_REGISTER as int) < registers@.len(),
    ensures
        r@ == registers@.update(SP_DWARF_REGISTER as int, Some(cfa)),
{
    let mut next = registers;
    next.update(SP_DWARF_REGISTER, cfa);
    next
}

/// Return address of a frame: the value of the register that holds it, if known.
pub fn return_address(registers: &DwarfRegisterMap, ra_register: u16) -> (r: Option<RelocatedAddress>)
    ensures
        r == match dwarf_value(registers@, ra_register) {
            Some(v) => Some(RelocatedAddress(v as usize)),
            None => None,
        },
{
    match registers.value(ra_register) {
        Ok(v) => Some(RelocatedAddress(v as usize)),
        Err(_) => None,
    }
}

} // verus!
