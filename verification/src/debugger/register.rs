//! x86-64 general purpose registers and their DWARF numbering.

use crate::debugger::error::Error;
use crate::text::str_eq;
use smallvec::SmallVec;
use vstd::prelude::*;

pub mod debug;

verus! {

/// x86_64 registers.
#[derive(Copy, Clone, PartialEq, Eq, Hash, Debug, Structural)]
pub enum Register {
    Rax,
    Rbx,
    Rcx,
    Rdx,
    Rdi,
    Rsi,
    Rbp,
    Rsp,
    R8,
    R9,
    R10,
    R11,
    R12,
    R13,
    R14,
    R15,
    Rip,
    Eflags,
    Cs,
    OrigRax,
    FsBase,
    GsBase,
    Fs,
    Gs,
    Ss,
    Ds,
    Es,
}

/// Name of a register, in snake case, as it is shown and typed.
pub open spec fn register_name(r: Register) -> Seq<char> {
    match r {
        Register::Rax => "rax"@,
        Register::Rbx => "rbx"@,
        Register::Rcx => "rcx"@,
        Register::Rdx => "rdx"@,
        Register::Rdi => "rdi"@,
        Register::Rsi => "rsi"@,
        Register::Rbp => "rbp"@,
        Register::Rsp => "rsp"@,
        Register::R8 => "r8"@,
        Register::R9 => "r9"@,
        Register::R10 => "r10"@,
        Register::R11 => "r11"@,
        Register::R12 => "r12"@,
        Register::R13 => "r13"@,
        Register::R14 => "r14"@,
        Register::R15 => "r15"@,
        Register::Rip => "rip"@,
        Register::Eflags => "eflags"@,
        Register::Cs => "cs"@,
        Register::OrigRax => "orig_rax"@,
        Register::FsBase => "fs_base"@,
        Register::GsBase => "gs_base"@,
        Register::Fs => "fs"@,
        Register::Gs => "gs"@,
        Register::Ss => "ss"@,
        Register::Ds => "ds"@,
        Register::Es => "es"@,
    }
}

impl Register {
    /// Name of the register, in snake case, as it is shown and typed.
    pub fn name(&self) -> (r: &'static str)
        ensures
            r@ == register_name(*self),
    {
        match self {
            Register::Rax => "rax",
            Register::Rbx => "rbx",
            Register::Rcx => "rcx",
            Register::Rdx => "rdx",
            Register::Rdi => "rdi",
            Register::Rsi => "rsi",
            Register::Rbp => "rbp",
            Register::Rsp => "rsp",
            Register::R8 => "r8",
            Register::R9 => "r9",
            Register::R10 => "r10",
            Register::R11 => "r11",
            Register::R12 => "r12",
            Register::R13 => "r13",
            Register::R14 => "r14",
            Register::R15 => "r15",
            Register::Rip => "rip",
            Register::Eflags => "eflags",
            Register::Cs => "cs",
            Register::OrigRax => "orig_rax",
            Register::FsBase => "fs_base",
            Register::GsBase => "gs_base",
            Register::Fs => "fs",
            Register::Gs => "gs",
            Register::Ss => "ss",
            Register::Ds => "ds",
            Register::Es => "es",
        }
    }

    /// Register of the given name (names as [`Register::name`] gives them);
    /// an unknown name is a [`Error::RegisterNameNotFound`] with that name.
    pub fn from_name(name: &str) -> (r: Result<Register, Error>)
        ensures
            r matches Ok(reg) ==> register_name(reg) == name@,
            r is Err ==> forall|reg: Register| register_name(reg) != name@,
            r matches Err(e) ==> (e matches Error::RegisterNameNotFound(n) && n@ == name@),
    {
        if str_eq(name, "rax") {
            Ok(Register::Rax)
        } else if str_eq(name, "rbx") {
            Ok(Register::Rbx)
        } else if str_eq(name, "rcx") {
            Ok(Register::Rcx)
        } else if str_eq(name, "rdx") {
            Ok(Register::Rdx)
        } else if str_eq(name, "rdi") {
            Ok(Register::Rdi)
        } else if str_eq(name, "rsi") {
            Ok(Register::Rsi)
        } else if str_eq(name, "rbp") {
            Ok(Register::Rbp)
        } else if str_eq(name, "rsp") {
            Ok(Register::Rsp)
        } else if str_eq(name, "r8") {
            Ok(Register::R8)
        } else if str_eq(name, "r9") {
            Ok(Register::R9)
        } else if str_eq(name, "r10") {
            Ok(Register::R10)
        } else if str_eq(name, "r11") {
            Ok(Register::R11)
        } else if str_eq(name, "r12") {
            Ok(Register::R12)
        } else if str_eq(name, "r13") {
            Ok(Register::R13)
        } else if str_eq(name, "r14") {
            Ok(Register::R14)
        } else if str_eq(name, "r15") {
            Ok(Register::R15)
        } else if str_eq(name, "rip") {
            Ok(Register::Rip)
        } else if str_eq(name, "eflags") {
            Ok(Register::Eflags)
        } else if str_eq(name, "cs") {
            Ok(Register::Cs)
        } else if str_eq(name, "orig_rax") {
            Ok(Register::OrigRax)
        } else if str_eq(name, "fs_base") {
            Ok(Register::FsBase)
        } else if str_eq(name, "gs_base") {
            Ok(Register::GsBase)
        } else if str_eq(name, "fs") {
            Ok(Register::Fs)
        } else if str_eq(name, "gs") {
            Ok(Register::Gs)
        } else if str_eq(name, "ss") {
            Ok(Register::Ss)
        } else if str_eq(name, "ds") {
            Ok(Register::Ds)
        } else if str_eq(name, "es") {
            Ok(Register::Es)
        } else {
            Err(Error::RegisterNameNotFound(String::from_str(name)))
        }
    }
}

/// DWARF register numbers that name a machine register (System V x86-64 ABI).
pub open spec fn is_known_dwarf_register(num: u16) -> bool {
    num <= 15 || (49 <= num <= 55) || num == 58 || num == 59
}

/// The machine register named by a known DWARF register number.
pub open spec fn spec_register_from_dwarf(num: u16) -> Register {
    if num == 0 {
        Register::Rax
    } else if num == 1 {
        Register::Rdx
    } else if num == 2 {
        Register::Rcx
    } else if num == 3 {
        Register::Rbx
    } else if num == 4 {
        Register::Rsi
    } else if num == 5 {
        Register::Rdi
    } else if num == 6 {
        Register::Rbp
    } else if num == 7 {
        Register::Rsp
    } else if num == 8 {
        Register::R8
    } else if num == 9 {
        Register::R9
    } else if num == 10 {
        Register::R10
    } else if num == 11 {
        Register::R11
    } else if num == 12 {
        Register::R12
    } else if num == 13 {
        Register::R13
    } else if num == 14 {
        Register::R14
    } else if num == 15 {
        Register::R15
    } else if num == 49 {
        Register::Eflags
    } else if num == 50 {
        Register::Es
    } else if num == 51 {
        Register::Cs
    } else if num == 52 {
        Register::Ss
    } else if num == 53 {
        Register::Ds
    } else if num == 54 {
        Register::Fs
    } else if num == 55 {
        Register::Gs
    } else if num == 58 {
        Register::FsBase
    } else {
        Register::GsBase
    }
}

impl Register {
    /// Convert a DWARF register number into a machine register.
    pub fn from_dwarf(num: u16) -> (r: Register)
        requires
            is_known_dwarf_register(num),
        ensures
            r == spec_register_from_dwarf(num),
    {
        match num {
            0 => Register::Rax,
            1 => Register::Rdx,
            2 => Register::Rcx,
            3 => Register::Rbx,
            4 => Register::Rsi,
            5 => Register::Rdi,
            6 => Register::Rbp,
            7 => Register::Rsp,
            8 => Register::R8,
            9 => Register::R9,
            10 => Register::R10,
            11 => Register::R11,
            12 => Register::R12,
            13 => Register::R13,
            14 => Register::R14,
            15 => Register::R15,
            49 => Register::Eflags,
            50 => Register::Es,
            51 => Register::Cs,
            52 => Register::Ss,
            53 => Register::Ds,
            54 => Register::Fs,
            55 => Register::Gs,
            58 => Register::FsBase,
            _ => Register::GsBase,
        }
    }
}

/// x86_64 register values.
#[derive(Debug, Clone, Copy)]
pub struct RegisterMap {
    pub rax: u64,
    pub rbx: u64,
    pub rcx: u64,
    pub rdx: u64,
    pub rdi: u64,
    pub rsi: u64,
    pub rbp: u64,
    pub rsp: u64,
    pub r8: u64,
    pub r9: u64,
    pub r10: u64,
    pub r11: u64,
    pub r12: u64,
    pub r13: u64,
    pub r14: u64,
    pub r15: u64,
    pub rip: u64,
    pub eflags: u64,
    pub cs: u64,
    pub orig_rax: u64,
    pub fs_base: u64,
    pub gs_base: u64,
    pub fs: u64,
    pub gs: u64,
    pub ss: u64,
    pub ds: u64,
    pub es: u64,
}

impl RegisterMap {
    /// The value that the map holds for a register.
    pub open spec fn get(self, register: Register) -> u64 {
        match register {
            Register::Rax => self.rax,
            Register::Rbx => self.rbx,
            Register::Rcx => self.rcx,
            Register::Rdx => self.rdx,
            Register::Rdi => self.rdi,
            Register::Rsi => self.rsi,
            Register::Rbp => self.rbp,
            Register::Rsp => self.rsp,
            Register::R8 => self.r8,
            Register::R9 => self.r9,
            Register::R10 => self.r10,
            Register::R11 => self.r11,
            Register::R12 => self.r12,
            Register::R13 => self.r13,
            Register::R14 => self.r14,
            Register::R15 => self.r15,
            Register::Rip => self.rip,
            Register::Eflags => self.eflags,
            Register::Cs => self.cs,
            Register::OrigRax => self.orig_rax,
            Register::FsBase => self.fs_base,
            Register::GsBase => self.gs_base,
            Register::Fs => self.fs,
            Register::Gs => self.gs,
            Register::Ss => self.ss,
            Register::Ds => self.ds,
            Register::Es => self.es,
        }
    }

    /// Return register value.
    ///
    /// # Arguments
    ///
    /// * `register`: target register.
    pub fn value(&self, register: Register) -> (v: u64)
        ensures
            v == self.get(register),
    {
        match register {
            Register::Rax => self.rax,
            Register::Rbx => self.rbx,
            Register::Rcx => self.rcx,
            Register::Rdx => self.rdx,
            Register::Rdi => self.rdi,
            Register::Rsi => self.rsi,
            Register::Rbp => self.rbp,
            Register::Rsp => self.rsp,
            Register::R8 => self.r8,
            Register::R9 => self.r9,
            Register::R10 => self.r10,
            Register::R11 => self.r11,
            Register::R12 => self.r12,
            Register::R13 => self.r13,
            Register::R14 => self.r14,
            Register::R15 => self.r15,
            Register::Rip => self.rip,
            Register::Eflags => self.eflags,
            Register::Cs => self.cs,
            Register::OrigRax => self.orig_rax,
            Register::FsBase => self.fs_base,
            Register::GsBase => self.gs_base,
            Register::Fs => self.fs,
            Register::Gs => self.gs,
            Register::Ss => self.ss,
            Register::Ds => self.ds,
            Register::Es => self.es,
        }
    }

    /// Value of the register of the given name; an unknown name is a
    /// [`Error::RegisterNameNotFound`].
    pub fn value_by_name(&self, name: &str) -> (r: Result<u64, Error>)
        ensures
            r matches Ok(v) ==> exists|reg: Register| register_name(reg) == name@ && v == self.get(reg),
            r is Err ==> forall|reg: Register| register_name(reg) != name@,
            r matches Err(e) ==> (e matches Error::RegisterNameNotFound(n) && n@ == name@),
    {
        match Register::from_name(name) {
            Ok(reg) => Ok(self.value(reg)),
            Err(e) => Err(e),
        }
    }

    /// Set the register of the given name; an unknown name is a
    /// [`Error::RegisterNameNotFound`] and leaves the map as it is.
    pub fn update_by_name(&mut self, name: &str, value: u64) -> (r: Result<(), Error>)
        ensures
            r is Ok ==> exists|reg: Register|
                register_name(reg) == name@ && final(self).get(reg) == value && forall|other: Register|
                    other != reg ==> #[trigger] final(self).get(other) == old(self).get(other),
            r is Err ==> *final(self) == *old(self) && forall|reg: Register| register_name(reg) != name@,
            r matches Err(e) ==> (e matches Error::RegisterNameNotFound(n) && n@ == name@),
    {
        match Register::from_name(name) {
            Ok(reg) => {
                self.update(reg, value);
                Ok(())
            },
            Err(e) => Err(e),
        }
    }

    /// Set new register value.
    ///
    /// # Arguments
    ///
    /// * `register`: target register.
    /// * `value`: new value.
    pub fn update(&mut self, register: Register, value: u64)
        ensures
            final(self).get(register) == value,
            forall|other: Register| other != register ==> final(self).get(other) == old(self).get(other),
    {
        match register {
            Register::Rax => self.rax = value,
            Register::Rbx => self.rbx = value,
            Register::Rcx => self.rcx = value,
            Register::Rdx => self.rdx = value,
            Register::Rdi => self.rdi = value,
            Register::Rsi => self.rsi = value,
            Register::Rbp => self.rbp = value,
            Register::Rsp => self.rsp = value,
            Register::R8 => self.r8 = value,
            Register::R9 => self.r9 = value,
            Register::R10 => self.r10 = value,
            Register::R11 => self.r11 = value,
            Register::R12 => self.r12 = value,
            Register::R13 => self.r13 = value,
            Register::R14 => self.r14 = value,
            Register::R15 => self.r15 = value,
            Register::Rip => self.rip = value,
            Register::Eflags => self.eflags = value,
            Register::Cs => self.cs = value,
            Register::OrigRax => self.orig_rax = value,
            Register::FsBase => self.fs_base = value,
            Register::GsBase => self.gs_base = value,
            Register::Fs => self.fs = value,
            Register::Gs => self.gs = value,
            Register::Ss => self.ss = value,
            Register::Ds => self.ds = value,
            Register::Es => self.es = value,
        };
    }
}

/// Length of the DWARF register table built from a machine register map.
pub const DWARF_REGISTER_TABLE_LEN: usize = 154;

/// The slot of the DWARF register table built from `map`: the machine
/// register that the DWARF number names (16 is the return address register,
/// which holds the instruction pointer), nothing for other numbers.
pub open spec fn dwarf_slot(map: RegisterMap, num: int) -> Option<u64> {
    if 0 <= num <= 15 || (49 <= num <= 55) || num == 58 || num == 59 {
        Some(map.get(spec_register_from_dwarf(num as u16)))
    } else if num == 16 {
        Some(map.rip)
    } else {
        None
    }
}

/// Register values held in a `SmallVec` with room for 128 of them inline.
#[verifier::external_body]
pub struct RegisterSlots {
    inner: SmallVec<[Option<u64>; 128]>,
}

/// The slots held by a small vector of register values.
pub uninterp spec fn register_slots(v: RegisterSlots) -> Seq<Option<u64>>;

/// `SmallVec::from_elem`: `n` copies of `elem`.
#[verifier::external_body]
fn slots_from_elem(elem: Option<u64>, n: usize) -> (r: RegisterSlots)
    ensures
        register_slots(r) == Seq::new(n as nat, |_i: int| elem),
{
    RegisterSlots { inner: SmallVec::from_elem(elem, n) }
}

/// `SmallVec::insert`: `elem` at position `index`, the later slots shifted
/// right. The source panics when `index` is past the length.
#[verifier::external_body]
fn slots_insert(v: &mut RegisterSlots, index: usize, elem: Option<u64>)
    requires
        index <= register_slots(*old(v)).len(),
    ensures
        register_slots(*final(v)) == register_slots(*old(v)).insert(index as int, elem),
{
    v.inner.insert(index, elem)
}

/// `get` of the slice that a `SmallVec` dereferences to.
#[verifier::external_body]
fn slots_get(v: &RegisterSlots, index: usize) -> (r: Option<Option<u64>>)
    ensures
        r == if (index as int) < register_slots(*v).len() {
            Some(register_slots(*v)[index as int])
        } else {
            None
        },
{
    v.inner.get(index).copied()
}

/// Assignment through `SmallVec`'s `IndexMut`; the source panics when
/// `index` is out of bounds.
#[verifier::external_body]
fn slots_set(v: &mut RegisterSlots, index: usize, value: Option<u64>)
    requires
        (index as int) < register_slots(*old(v)).len(),
    ensures
        register_slots(*final(v)) == register_slots(*old(v)).update(index as int, value),
{
    v.inner[index] = value;
}

/// `SmallVec::clone`: a vector built from the slice of the slots.
#[verifier::external_body]
fn slots_clone(v: &RegisterSlots) -> (r: RegisterSlots)
    ensures
        register_slots(r) == register_slots(*v),
{
    RegisterSlots { inner: v.inner.clone() }
}

/// x86_64 register values, using DWARF register number as index.
pub struct DwarfRegisterMap(RegisterSlots);

impl Clone for DwarfRegisterMap {
    fn clone(&self) -> (r: Self)
        ensures
            r@ == self@,
    {
        DwarfRegisterMap(slots_clone(&self.0))
    }
}

impl View for DwarfRegisterMap {
    type V = Seq<Option<u64>>;

    closed spec fn view(&self) -> Seq<Option<u64>> {
        register_slots(self.0)
    }
}

/// Value of a DWARF register in a table, if the slot exists and holds one.
pub open spec fn dwarf_value(table: Seq<Option<u64>>, num: u16) -> Option<u64> {
    if (num as int) < table.len() {
        table[num as int]
    } else {
        None
    }
}

/// Slots known up to a point, followed by `n` empty ones.
spec fn known_then_empty(known: Seq<Option<u64>>, n: nat) -> Seq<Option<u64>> {
    known + Seq::new(n, |_i: int| None::<u64>)
}

/// Inserting among the empty slots that follow the known ones: `k` empty
/// slots join the known ones, then the inserted value.
proof fn lemma_insert_after_known(known: Seq<Option<u64>>, n: nat, k: nat, x: Option<u64>)
    requires
        k <= n,
    ensures
        known_then_empty(known, n).insert((known.len() + k) as int, x) == known_then_empty(
            known_then_empty(known, k).push(x),
            (n - k) as nat,
        ),
{
    assert(known_then_empty(known, n).insert((known.len() + k) as int, x) =~= known_then_empty(
        known_then_empty(known, k).push(x),
        (n - k) as nat,
    ));
}

impl DwarfRegisterMap {
    /// Map the machine registers to DWARF register numbers: `n` empty slots,
    /// into which the register values are inserted at their DWARF numbers.
    /// See https://docs.rs/gimli/0.13.0/gimli/struct.UnwindTableRow.html#method.register
    pub fn from_register_map(map: &RegisterMap) -> (r: DwarfRegisterMap)
        ensures
            r@.len() == DWARF_REGISTER_TABLE_LEN,
            forall|i: int| 0 <= i < DWARF_REGISTER_TABLE_LEN ==> #[trigger] r@[i] == dwarf_slot(*map, i),
    {
        let mut v = slots_from_elem(None, 128);
        let ghost e = Seq::<Option<u64>>::empty();
        assert(register_slots(v) =~= known_then_empty(e, 128));
        let ghost mut known = e;
        let ghost mut n: nat = 128;
        // registers 0 to 16 are inserted right after the known slots
        let vals: [u64; 17] = [
            map.rax,
            map.rdx,
            map.rcx,
            map.rbx,
            map.rsi,
            map.rdi,
            map.rbp,
            map.rsp,
            map.r8,
            map.r9,
            map.r10,
            map.r11,
            map.r12,
            map.r13,
            map.r14,
            map.r15,
            map.rip,
        ];
        let mut i: usize = 0;
        while i < 17
            invariant
                i <= 17,
                known.len() == i,
                n == 128,
                register_slots(v) == known_then_empty(known, n),
                forall|k: int| 0 <= k < i ==> #[trigger] known[k] == Some(vals@[k]),
            decreases 17 - i,
        {
            proof {
                lemma_insert_after_known(known, n, 0, Some(vals@[i as int]));
                assert(known_then_empty(known, 0) =~= known);
            }
            slots_insert(&mut v, i, Some(vals[i]));
            proof {
                known = known.push(Some(vals@[i as int]));
            }
            i = i + 1;
        }
        let high: [(usize, u64); 9] = [
            (49, map.eflags),
            (50, map.es),
            (51, map.cs),
            (52, map.ss),
            (53, map.ds),
            (54, map.fs),
            (55, map.gs),
            (58, map.fs_base),
            (59, map.gs_base),
        ];
        let mut j: usize = 0;
        while j < 9
            invariant
                j <= 9,
                known.len() == (if j == 0 {
                    17int
                } else {
                    high@[j - 1].0 + 1
                }),
                n == 128 - (known.len() - 17 - j),
                known.len() - 17 - j <= 128,
                register_slots(v) == known_then_empty(known, n),
                forall|k: int| 0 <= k < 17 ==> #[trigger] known[k] == Some(vals@[k]),
                forall|k: int| 0 <= k < j ==> #[trigger] known[high@[k].0 as int] == Some(high@[k].1),
                forall|k: int| 17 <= k < known.len() && (forall|m: int| 0 <= m < j ==> high@[m].0 != k) ==> #[trigger] known[k] is None,
                high@ == seq![(49usize, map.eflags), (50usize, map.es), (51usize, map.cs), (52usize, map.ss), (53usize, map.ds), (54usize, map.fs), (55usize, map.gs), (58usize, map.fs_base), (59usize, map.gs_base)],
            decreases 9 - j,
        {
            let (idx, val) = high[j];
            proof {
                let k = (idx - known.len()) as nat;
                lemma_insert_after_known(known, n, k, Some(val));
                let old_known = known;
                known = known_then_empty(known, k).push(Some(val));
                n = (n - k) as nat;
                assert forall|m: int| 0 <= m < j implies #[trigger] known[high@[m].0 as int] == Some(high@[m].1) by {
                    assert(known[high@[m].0 as int] == old_known[high@[m].0 as int]);
                }
            }
            slots_insert(&mut v, idx, Some(val));
            j = j + 1;
        }
        proof {
            let full = known_then_empty(known, n);
            assert forall|i: int| 0 <= i < DWARF_REGISTER_TABLE_LEN implies #[trigger] full[i] == dwarf_slot(*map, i) by {
                if i < known.len() {
                    if i >= 17 && i != 49 && i != 50 && i != 51 && i != 52 && i != 53 && i != 54 && i != 55 && i != 58 && i != 59 {
                        assert(forall|m: int| 0 <= m < 9 ==> high@[m].0 != i);
                    } else if i >= 17 {
                        if i == 49 { assert(high@[0].0 == 49); }
                        if i == 50 { assert(high@[1].0 == 50); }
                        if i == 51 { assert(high@[2].0 == 51); }
                        if i == 52 { assert(high@[3].0 == 52); }
                        if i == 53 { assert(high@[4].0 == 53); }
                        if i == 54 { assert(high@[5].0 == 54); }
                        if i == 55 { assert(high@[6].0 == 55); }
                        if i == 58 { assert(high@[7].0 == 58); }
                        if i == 59 { assert(high@[8].0 == 59); }
                    }
                }
            }
        }
        DwarfRegisterMap(v)
    }

    /// Return register value.
    ///
    /// # Arguments
    ///
    /// * `register`: target DWARF register number.
    pub fn value(&self, register: u16) -> (r: Result<u64, Error>)
        ensures
            match dwarf_value(self@, register) {
                Some(v) => r == Ok::<u64, Error>(v),
                None => r == Err::<u64, Error>(Error::RegisterNotFound(register)),
            },
    {
        match slots_get(&self.0, register as usize) {
            Some(Some(v)) => Ok(v),
            _ => Err(Error::RegisterNotFound(register)),
        }
    }

    /// Set new register value. The register must have a slot.
    ///
    /// # Arguments
    ///
    /// * `register`: target DWARF register number.
    /// * `value`: new value.
    pub fn update(&mut self, register: u16, value: u64)
        requires
            (register as int) < old(self)@.len(),
        ensures
            final(self)@ == old(self)@.update(register as int, Some(value)),
    {
        slots_set(&mut self.0, register as usize, Some(value));
    }
}

/// A DWARF register read gives back the value last written into it.
pub proof fn lemma_dwarf_register_read_after_write(table: Seq<Option<u64>>, register: u16, value: u64, other: u16)
    requires
        (register as int) < table.len(),
    ensures
        dwarf_value(table.update(register as int, Some(value)), register) == Some(value),
        other != register ==> dwarf_value(table.update(register as int, Some(value)), other) == dwarf_value(table, other),
{
}

} // verus!
