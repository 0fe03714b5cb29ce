//! x86-64 hardware debug registers: the status register (DR6) and the
//! control register (DR7).

use crate::debugger::error::Error;
use vstd::prelude::*;

verus! {

/// Value of bit `idx` of `x`.
pub open spec fn bit_at(x: usize, idx: usize) -> bool {
    (x >> idx) & 1usize == 1usize
}

/// `x` with bit `idx` set to `v`.
pub open spec fn with_bit(x: usize, idx: usize, v: bool) -> usize {
    if v {
        x | (1usize << idx)
    } else {
        x & !(1usize << idx)
    }
}

/// `x` with the two bits starting at `lo` replaced by `v` (which must fit in two bits).
pub open spec fn with_two_bits(x: usize, lo: usize, v: usize) -> usize {
    (x & !(3usize << lo)) | (v << lo)
}

/// The two bits of `x` starting at `lo`.
pub open spec fn two_bits_at(x: usize, lo: usize) -> usize {
    (x >> lo) & 3usize
}

/// Read bit `idx`.
fn get_bit(x: usize, idx: usize) -> (r: bool)
    requires
        idx < 32,
    ensures
        r == bit_at(x, idx),
{
    (x >> idx) & 1 == 1
}

/// Set bit `idx` to `v`.
fn set_bit(x: usize, idx: usize, v: bool) -> (r: usize)
    requires
        idx < 32,
    ensures
        r == with_bit(x, idx, v),
{
    if v {
        x | (1usize << idx)
    } else {
        x & !(1usize << idx)
    }
}

/// Replace the two bits starting at `lo` with `v`.
fn set_two_bits(x: usize, lo: usize, v: usize) -> (r: usize)
    requires
        lo < 31,
        v < 4,
    ensures
        r == with_two_bits(x, lo, v),
{
    (x & !(3usize << lo)) | (v << lo)
}

/// Debug register representation.
#[derive(Clone, Copy, Debug, PartialEq, Eq, Structural)]
pub enum DebugRegisterNumber {
    DR0,
    DR1,
    DR2,
    DR3,
}

/// Index of an address debug register.
pub open spec fn dr_index(dr: DebugRegisterNumber) -> usize {
    match dr {
        DebugRegisterNumber::DR0 => 0,
        DebugRegisterNumber::DR1 => 1,
        DebugRegisterNumber::DR2 => 2,
        DebugRegisterNumber::DR3 => 3,
    }
}

impl DebugRegisterNumber {
    /// Index of this address debug register (0 to 3).
    pub fn index(self) -> (r: usize)
        ensures
            r == dr_index(self),
    {
        match self {
            DebugRegisterNumber::DR0 => 0,
            DebugRegisterNumber::DR1 => 1,
            DebugRegisterNumber::DR2 => 2,
            DebugRegisterNumber::DR3 => 3,
        }
    }

    /// Address debug register with the given index, `None` if there is no such register.
    pub fn from_repr(n: usize) -> (r: Option<DebugRegisterNumber>)
        ensures
            n < 4 <==> r.is_some(),
            r matches Some(dr) ==> dr_index(dr) == n,
    {
        match n {
            0 => Some(DebugRegisterNumber::DR0),
            1 => Some(DebugRegisterNumber::DR1),
            2 => Some(DebugRegisterNumber::DR2),
            3 => Some(DebugRegisterNumber::DR3),
            _ => None,
        }
    }
}

pub type DebugAddressRegister = usize;

/// Debug status register (DR6).
#[derive(Clone, Copy, PartialEq, Debug, Structural)]
pub struct DebugStatusRegister(pub usize);

/// Number of the lowest detected breakpoint condition, if any of the four is set.
pub open spec fn lowest_trap(x: usize) -> Option<DebugRegisterNumber> {
    if bit_at(x, 0) {
        Some(DebugRegisterNumber::DR0)
    } else if bit_at(x, 1) {
        Some(DebugRegisterNumber::DR1)
    } else if bit_at(x, 2) {
        Some(DebugRegisterNumber::DR2)
    } else if bit_at(x, 3) {
        Some(DebugRegisterNumber::DR3)
    } else {
        None
    }
}

impl DebugStatusRegister {
    /// Report whether breakpoint condition `n` was detected and reset the corresponding flag.
    fn trap(&mut self, n: usize) -> (r: bool)
        requires
            n < 4,
        ensures
            r == bit_at(old(self).0, n),
            final(self).0 == with_bit(old(self).0, n, false),
    {
        let mask: usize = 1usize << n;
        let x = self.0;
        let is_set = (x & mask) == mask;
        assert(((x & (1usize << n)) == (1usize << n)) == ((x >> n) & 1usize == 1usize)) by (bit_vector)
            requires
                n < 4,
        ;
        self.0 = x & !mask;
        is_set
    }

    /// Return true if breakpoint 0 condition was detected.
    /// Reset the corresponding flag.
    pub fn trap0(&mut self) -> (r: bool)
        ensures
            r == bit_at(old(self).0, 0),
            final(self).0 == with_bit(old(self).0, 0, false),
    {
        self.trap(0)
    }

    /// Return true if breakpoint 1 condition was detected.
    /// Reset the corresponding flag.
    pub fn trap1(&mut self) -> (r: bool)
        ensures
            r == bit_at(old(self).0, 1),
            final(self).0 == with_bit(old(self).0, 1, false),
    {
        self.trap(1)
    }

    /// Return true if breakpoint 2 condition was detected.
    /// Reset the corresponding flag.
    pub fn trap2(&mut self) -> (r: bool)
        ensures
            r == bit_at(old(self).0, 2),
            final(self).0 == with_bit(old(self).0, 2, false),
    {
        self.trap(2)
    }

    /// Return true if breakpoint 3 condition was detected.
    /// Reset the corresponding flag.
    pub fn trap3(&mut self) -> (r: bool)
        ensures
            r == bit_at(old(self).0, 3),
            final(self).0 == with_bit(old(self).0, 3, false),
    {
        self.trap(3)
    }

    /// Return debug register number and flush it if breakpoint was hit.
    pub fn detect_and_flush(&mut self) -> (r: Option<DebugRegisterNumber>)
        ensures
            r == lowest_trap(old(self).0),
            match r {
                Some(dr) => final(self).0 == with_bit(old(self).0, dr_index(dr), false),
                None => final(self).0 == old(self).0,
            },
    {
        let ghost x = self.0;
        if self.trap0() {
            return Some(DebugRegisterNumber::DR0);
        }
        assert(!bit_at(x, 0) ==> with_bit(x, 0, false) == x) by (bit_vector);
        if self.trap1() {
            return Some(DebugRegisterNumber::DR1);
        }
        assert(!bit_at(x, 1) ==> with_bit(x, 1, false) == x) by (bit_vector);
        if self.trap2() {
            return Some(DebugRegisterNumber::DR2);
        }
        assert(!bit_at(x, 2) ==> with_bit(x, 2, false) == x) by (bit_vector);
        if self.trap3() {
            return Some(DebugRegisterNumber::DR3);
        }
        assert(!bit_at(x, 3) ==> with_bit(x, 3, false) == x) by (bit_vector);
        None
    }
}

/// Detection of the exact instruction that caused a data breakpoint, for the current task.
pub const LOCAL_EXACT_BREAKPOINT_ENABLE_BIT: usize = 8;

/// Detection of the exact instruction that caused a data breakpoint, for all tasks.
pub const GLOBAL_EXACT_BREAKPOINT_ENABLE_BIT: usize = 9;

/// Index of the enable bit of an address debug register.
pub open spec fn enable_index(dr: usize, global: bool) -> usize {
    if global {
        (dr * 2 + 1) as usize
    } else {
        (dr * 2) as usize
    }
}

/// Index of the exact breakpoint detection bit.
pub open spec fn detection_index(global: bool) -> usize {
    if global {
        GLOBAL_EXACT_BREAKPOINT_ENABLE_BIT
    } else {
        LOCAL_EXACT_BREAKPOINT_ENABLE_BIT
    }
}

/// True when none of the four address debug registers is enabled on the given side.
pub open spec fn all_disabled(x: usize, global: bool) -> bool {
    &&& !bit_at(x, enable_index(0, global))
    &&& !bit_at(x, enable_index(1, global))
    &&& !bit_at(x, enable_index(2, global))
    &&& !bit_at(x, enable_index(3, global))
}

/// Control register value after enabling or disabling an address debug register.
/// Enabling also enables exact breakpoint detection; disabling the last enabled
/// register of a side disables it.
pub open spec fn spec_set_dr(x: usize, dr: usize, global: bool, enable: bool) -> usize {
    let y = with_bit(x, enable_index(dr, global), enable);
    if enable {
        with_bit(y, detection_index(global), true)
    } else if all_disabled(y, global) {
        with_bit(y, detection_index(global), false)
    } else {
        y
    }
}

/// Index of the condition bits of an address debug register.
pub open spec fn condition_index(dr: usize) -> usize {
    (16 + dr * 4) as usize
}

/// Index of the size bits of an address debug register.
pub open spec fn size_index(dr: usize) -> usize {
    (18 + dr * 4) as usize
}

/// Control register value after configuring condition and size of an address debug register.
pub open spec fn spec_configure_bp(x: usize, dr: usize, cond: usize, size: usize) -> usize {
    with_two_bits(with_two_bits(x, condition_index(dr), cond), size_index(dr), size)
}

/// Specifies the breakpoint condition for a corresponding breakpoint.
///
/// Instruction and i/o read-write conditions are unused and aren't presented here.
#[derive(Debug, Copy, Clone, PartialEq, Eq, Structural)]
pub enum BreakCondition {
    /// 01 — Break on data writes only.
    DataWrites,
    /// 11 — Break on data reads or writes but not instruction fetches.
    DataReadsWrites,
}

/// Encoding of a breakpoint condition in the control register.
pub open spec fn condition_bits(cond: BreakCondition) -> usize {
    match cond {
        BreakCondition::DataWrites => 1,
        BreakCondition::DataReadsWrites => 3,
    }
}

impl BreakCondition {
    /// Encoding of this condition in the control register.
    pub fn bits(self) -> (r: usize)
        ensures
            r == condition_bits(self),
    {
        match self {
            BreakCondition::DataWrites => 1,
            BreakCondition::DataReadsWrites => 3,
        }
    }

    /// Short name of the condition: `w` or `rw`.
    pub fn name(self) -> (r: String)
        ensures
            self == BreakCondition::DataWrites ==> r@ == seq!['w'],
            self == BreakCondition::DataReadsWrites ==> r@ == seq!['r', 'w'],
    {
        match self {
            BreakCondition::DataWrites => {
                let r = String::from_str("w");
                proof {
                    reveal_strlit("w");
                }
                r
            },
            BreakCondition::DataReadsWrites => {
                let r = String::from_str("rw");
                proof {
                    reveal_strlit("rw");
                }
                r
            },
        }
    }
}

/// Specify the size of the memory location at the address specified in the
/// corresponding breakpoint address register (DR0 through DR3).
#[derive(Debug, Copy, Clone, PartialEq, Eq, Structural)]
pub enum BreakSize {
    /// 1-byte length.
    Bytes1,
    /// 2-byte length.
    Bytes2,
    /// 8 byte length (or undefined, on older processors).
    Bytes8,
    /// 4-byte length.
    Bytes4,
}

/// Encoding of a breakpoint size in the control register.
pub open spec fn size_bits(size: BreakSize) -> usize {
    match size {
        BreakSize::Bytes1 => 0,
        BreakSize::Bytes2 => 1,
        BreakSize::Bytes8 => 2,
        BreakSize::Bytes4 => 3,
    }
}

/// Number of bytes watched by a breakpoint of the given size.
pub open spec fn size_in_bytes(size: BreakSize) -> u8 {
    match size {
        BreakSize::Bytes1 => 1,
        BreakSize::Bytes2 => 2,
        BreakSize::Bytes8 => 8,
        BreakSize::Bytes4 => 4,
    }
}

impl BreakSize {
    /// Encoding of this size in the control register.
    pub fn bits(self) -> (r: usize)
        ensures
            r == size_bits(self),
    {
        match self {
            BreakSize::Bytes1 => 0,
            BreakSize::Bytes2 => 1,
            BreakSize::Bytes8 => 2,
            BreakSize::Bytes4 => 3,
        }
    }

    /// Breakpoint size for a number of bytes: 1, 2, 4 or 8.
    pub fn try_from(value: u8) -> (r: Result<BreakSize, Error>)
        ensures
            (value == 1 || value == 2 || value == 4 || value == 8) <==> r.is_ok(),
            r matches Ok(size) ==> size_in_bytes(size) == value,
            r matches Err(e) ==> e == Error::WatchpointWrongSize,
    {
        match value {
            1 => Ok(BreakSize::Bytes1),
            2 => Ok(BreakSize::Bytes2),
            4 => Ok(BreakSize::Bytes4),
            8 => Ok(BreakSize::Bytes8),
            _ => Err(Error::WatchpointWrongSize),
        }
    }
}

/// Debug control register (DR7).
#[derive(Clone, Copy, PartialEq, Debug, Structural)]
pub struct DebugControlRegister(pub usize);

impl DebugControlRegister {
    /// Return true if breakpoint enabled.
    ///
    /// # Arguments
    ///
    /// * `dr`: address debug register number
    /// * `global`: whether the breakpoint is global or local
    pub fn dr_enabled(&self, dr: DebugRegisterNumber, global: bool) -> (r: bool)
        ensures
            r == bit_at(self.0, enable_index(dr_index(dr), global)),
    {
        let dr = dr.index();
        let idx = if global {
            dr * 2 + 1
        } else {
            dr * 2
        };
        get_bit(self.0, idx)
    }

    /// Configures a breakpoint condition and size for the associated breakpoint.
    ///
    /// # Arguments
    ///
    /// * `dr`: address debug register number
    /// * `cond`: breakpoint condition
    /// * `size`: breakpoint size
    pub fn configure_bp(&mut self, dr: DebugRegisterNumber, cond: BreakCondition, size: BreakSize)
        ensures
            final(self).0 == spec_configure_bp(
                old(self).0,
                dr_index(dr),
                condition_bits(cond),
                size_bits(size),
            ),
            len_field_bytes(two_bits_at(final(self).0, size_index(dr_index(dr)))) == size_in_bytes(size) as nat,
    {
        proof {
            lemma_configure_bp_watches_size(old(self).0, dr_index(dr), cond, size);
        }
        let dr = dr.index();
        // set condition
        let idx = 16 + (dr * 4);
        self.0 = set_two_bits(self.0, idx, cond.bits());
        // set size
        let idx = 18 + (dr * 4);
        self.0 = set_two_bits(self.0, idx, size.bits());
    }

    /// Enable/disable a breakpoint either as global or local.
    ///
    /// # Arguments
    /// * `dr` - address debug register to enable/disable
    /// * `global` - whether the breakpoint is global or local
    /// * `enable` - whether to enable or disable the breakpoint
    pub fn set_dr(&mut self, dr: DebugRegisterNumber, global: bool, enable: bool)
        ensures
            final(self).0 == spec_set_dr(old(self).0, dr_index(dr), global, enable),
    {
        let dr = dr.index();
        let idx = if global {
            dr * 2 + 1
        } else {
            dr * 2
        };
        self.0 = set_bit(self.0, idx, enable);

        let detection_bit = if global {
            GLOBAL_EXACT_BREAKPOINT_ENABLE_BIT
        } else {
            LOCAL_EXACT_BREAKPOINT_ENABLE_BIT
        };

        if enable {
            self.0 = set_bit(self.0, detection_bit, true);
        } else {
            let mut all_disabled = true;
            let mut n: usize = 0;
            while n < 4
                invariant
                    n <= 4,
                    all_disabled <==> forall|k: usize| k < n ==> !bit_at(self.0, enable_index(k, global)),
                decreases 4 - n,
            {
                let dr_n = DebugRegisterNumber::from_repr(n);
                match dr_n {
                    Some(d) => {
                        if self.dr_enabled(d, global) {
                            all_disabled = false;
                        }
                    },
                    None => {},
                }
                n = n + 1;
            }
            proof {
                if all_disabled {
                    assert(!bit_at(self.0, enable_index(0, global)));
                    assert(!bit_at(self.0, enable_index(1, global)));
                    assert(!bit_at(self.0, enable_index(2, global)));
                    assert(!bit_at(self.0, enable_index(3, global)));
                } else {
                    let k = choose|k: usize| k < 4 && bit_at(self.0, enable_index(k, global));
                    assert(k == 0 || k == 1 || k == 2 || k == 3);
                }
            }
            if all_disabled {
                self.0 = set_bit(self.0, detection_bit, false);
            }
        }
    }
}

/// State of the hardware debug registers of a thread.
#[derive(PartialEq, Debug)]
pub struct HardwareDebugState {
    /// Four (dr0, dr1, dr2, dr3 for x86_64) address debug registers.
    pub address_regs: [DebugAddressRegister; 4],
    /// Debug status register.
    pub dr6: DebugStatusRegister,
    /// Debug control register.
    pub dr7: DebugControlRegister,
}

/// After a register is enabled or disabled, reading its enable bit gives back
/// what was written, and the enable bits of every other register on either
/// side are unchanged.
pub proof fn lemma_set_dr_read_after_write(x: usize, dr: usize, global: bool, enable: bool, other: usize, other_global: bool)
    requires
        dr < 4,
        other < 4,
    ensures
        bit_at(spec_set_dr(x, dr, global, enable), enable_index(dr, global)) == enable,
        (other != dr || other_global != global) ==> bit_at(spec_set_dr(x, dr, global, enable), enable_index(other, other_global))
            == bit_at(x, enable_index(other, other_global)),
{
    let i = enable_index(dr, global);
    let j = enable_index(other, other_global);
    let d = detection_index(global);
    assert(i < 8 && j < 8 && 8 <= d < 10);
    assert(i < 8 && 8 <= d < 10 ==> bit_at(with_bit(x, i, enable), i) == enable) by (bit_vector);
    assert(i < 8 && 8 <= d < 10 ==> bit_at(with_bit(with_bit(x, i, enable), d, true), i) == enable) by (bit_vector);
    assert(i < 8 && 8 <= d < 10 ==> bit_at(with_bit(with_bit(x, i, enable), d, false), i) == enable) by (bit_vector);
    if other != dr || other_global != global {
        assert(i != j);
        assert(i < 8 && j < 8 && i != j && 8 <= d < 10 ==> bit_at(with_bit(x, i, enable), j) == bit_at(x, j)) by (bit_vector);
        assert(i < 8 && j < 8 && i != j && 8 <= d < 10 ==> bit_at(with_bit(with_bit(x, i, enable), d, true), j) == bit_at(x, j)) by (bit_vector);
        assert(i < 8 && j < 8 && i != j && 8 <= d < 10 ==> bit_at(with_bit(with_bit(x, i, enable), d, false), j) == bit_at(x, j)) by (bit_vector);
    }
}

/// Disabling the last enabled register of a side turns exact breakpoint
/// detection of that side off; enabling any register turns it on.
pub proof fn lemma_set_dr_detection(x: usize, dr: usize, global: bool, enable: bool)
    requires
        dr < 4,
    ensures
        enable ==> bit_at(spec_set_dr(x, dr, global, enable), detection_index(global)),
        !enable && all_disabled(with_bit(x, enable_index(dr, global), false), global) ==> !bit_at(
            spec_set_dr(x, dr, global, enable),
            detection_index(global),
        ),
{
    let i = enable_index(dr, global);
    let d = detection_index(global);
    let y = with_bit(x, i, enable);
    assert(8 <= d < 10 ==> bit_at(with_bit(y, d, true), d)) by (bit_vector);
    assert(8 <= d < 10 ==> !bit_at(with_bit(y, d, false), d)) by (bit_vector);
}

/// Configuring the condition and size of a breakpoint leaves every enable bit
/// and both detection bits unchanged, and the condition and size read back
/// are the ones written.
pub proof fn lemma_configure_bp(x: usize, dr: usize, cond: usize, size: usize, idx: usize)
    requires
        dr < 4,
        cond < 4,
        size < 4,
        idx < 10,
    ensures
        bit_at(spec_configure_bp(x, dr, cond, size), idx) == bit_at(x, idx),
        two_bits_at(spec_configure_bp(x, dr, cond, size), condition_index(dr)) == cond,
        two_bits_at(spec_configure_bp(x, dr, cond, size), size_index(dr)) == size,
{
    let c = condition_index(dr);
    let s = size_index(dr);
    assert(16 <= c <= 28 && s == c + 2);
    assert(16 <= c <= 28 && s == c + 2 && idx < 10 && cond < 4 && size < 4 ==> bit_at(
        with_two_bits(with_two_bits(x, c, cond), s, size),
        idx,
    ) == bit_at(x, idx)) by (bit_vector);
    assert(16 <= c <= 28 && s == c + 2 && cond < 4 && size < 4 ==> two_bits_at(
        with_two_bits(with_two_bits(x, c, cond), s, size),
        c,
    ) == cond) by (bit_vector);
    assert(16 <= c <= 28 && s == c + 2 && cond < 4 && size < 4 ==> two_bits_at(
        with_two_bits(with_two_bits(x, c, cond), s, size),
        s,
    ) == size) by (bit_vector);
}

/// Flushing a detected condition clears its flag and keeps the flags of the
/// other conditions.
pub proof fn lemma_detect_and_flush(x: usize, dr: usize, other: usize)
    requires
        dr < 4,
        other < 4,
    ensures
        !bit_at(with_bit(x, dr, false), dr),
        other != dr ==> bit_at(with_bit(x, dr, false), other) == bit_at(x, other),
{
    assert(dr < 4 ==> !bit_at(with_bit(x, dr, false), dr)) by (bit_vector);
    assert(dr < 4 && other < 4 && other != dr ==> bit_at(with_bit(x, dr, false), other) == bit_at(x, other)) by (bit_vector);
}

/// Writing one bit of a word: that bit reads back as written, every other
/// bit is unchanged.
proof fn lemma_with_bit(x: usize, i: usize, v: bool, j: usize)
    by (bit_vector)
    requires
        i < 10,
        j < usize::BITS,
    ensures
        bit_at(with_bit(x, i, v), i) == v,
        j != i ==> bit_at(with_bit(x, i, v), j) == bit_at(x, j),
{
}

/// [`lemma_with_bit`] for every other bit.
proof fn lemma_with_bit_others(x: usize, i: usize, v: bool)
    requires
        i < 10,
    ensures
        bit_at(with_bit(x, i, v), i) == v,
        forall|j: usize| j < usize::BITS && j != i ==> #[trigger] bit_at(with_bit(x, i, v), j) == bit_at(x, j),
{
    lemma_with_bit(x, i, v, 0);
    assert forall|j: usize| j < usize::BITS && j != i implies #[trigger] bit_at(with_bit(x, i, v), j) == bit_at(x, j) by {
        lemma_with_bit(x, i, v, j);
    }
}

/// The exact breakpoint detection bit of each side is set exactly when some
/// address debug register of that side is enabled.
pub open spec fn detection_consistent(x: usize) -> bool {
    &&& bit_at(x, detection_index(false)) == !all_disabled(x, false)
    &&& bit_at(x, detection_index(true)) == !all_disabled(x, true)
}

/// Enabling or disabling an address debug register keeps the detection bits
/// consistent with the enable bits, makes the register's enable bit read
/// back as written, and changes no bit but that enable bit and the
/// detection bit of its side.
pub proof fn lemma_set_dr_exact(x: usize, dr: usize, global: bool, enable: bool, b: usize)
    requires
        dr < 4,
        detection_consistent(x),
        b < usize::BITS,
        b != enable_index(dr, global),
        b != detection_index(global),
    ensures
        detection_consistent(spec_set_dr(x, dr, global, enable)),
        bit_at(spec_set_dr(x, dr, global, enable), enable_index(dr, global)) == enable,
        bit_at(spec_set_dr(x, dr, global, enable), b) == bit_at(x, b),
{
    assert(usize::BITS >= 32);
    let i = enable_index(dr, global);
    let d = detection_index(global);
    let y = with_bit(x, i, enable);
    lemma_with_bit_others(x, i, enable);
    lemma_with_bit_others(y, d, true);
    lemma_with_bit_others(y, d, false);
    assert(enable_index(0, false) == 0 && enable_index(1, false) == 2 && enable_index(2, false) == 4
        && enable_index(3, false) == 6);
    assert(enable_index(0, true) == 1 && enable_index(1, true) == 3 && enable_index(2, true) == 5
        && enable_index(3, true) == 7);
    // the other side is untouched
    let r = spec_set_dr(x, dr, global, enable);
    assert(all_disabled(r, !global) == all_disabled(x, !global));
    assert(bit_at(r, detection_index(!global)) == bit_at(x, detection_index(!global)));
    if !enable {
        assert(!all_disabled(y, global) ==> !all_disabled(x, global));
    }
}

/// Number of bytes that a length field of the control register makes the
/// processor watch, by the x86-64 encoding: `00` one byte, `01` two, `11`
/// four, `10` eight.
pub open spec fn len_field_bytes(bits: usize) -> nat {
    if bits == 0 {
        1
    } else if bits == 1 {
        2
    } else if bits == 3 {
        4
    } else {
        8
    }
}

/// Configuring a breakpoint of a size makes the processor watch that many
/// bytes: the length field written decodes to the number of bytes the size
/// names, and the condition field holds `01` for data writes and `11` for
/// data reads or writes.
pub proof fn lemma_configure_bp_watches_size(x: usize, dr: usize, cond: BreakCondition, size: BreakSize)
    requires
        dr < 4,
    ensures
        two_bits_at(spec_configure_bp(x, dr, condition_bits(cond), size_bits(size)), size_index(dr)) < 4,
        len_field_bytes(two_bits_at(spec_configure_bp(x, dr, condition_bits(cond), size_bits(size)), size_index(dr)))
            == match size {
            BreakSize::Bytes1 => 1nat,
            BreakSize::Bytes2 => 2nat,
            BreakSize::Bytes4 => 4nat,
            BreakSize::Bytes8 => 8nat,
        },
        size_in_bytes(size) as nat == match size {
            BreakSize::Bytes1 => 1nat,
            BreakSize::Bytes2 => 2nat,
            BreakSize::Bytes4 => 4nat,
            BreakSize::Bytes8 => 8nat,
        },
        two_bits_at(spec_configure_bp(x, dr, condition_bits(cond), size_bits(size)), condition_index(dr)) == match cond {
            BreakCondition::DataWrites => 1usize,
            BreakCondition::DataReadsWrites => 3usize,
        },
{
    lemma_configure_bp(x, dr, condition_bits(cond), size_bits(size), 0);
}

} // verus!
