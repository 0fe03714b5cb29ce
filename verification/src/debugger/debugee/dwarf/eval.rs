//! The bytes of a value that a DWARF expression locates in pieces: registers,
//! memory, computed values and literal bytes. What must be read from the
//! debugee (register values, memory) is read by the caller and handed in.

use crate::debugger::dwarf::eval::{u64_to_bytes, word_byte};
use crate::debugger::error::Error;
use crate::debugger::register::{dwarf_value, DwarfRegisterMap};
use crate::debugger::variable::{le_value, read_le};
use bytes::{BufMut, Bytes, BytesMut};
use std::collections::HashMap;
use vstd::prelude::*;

verus! {

broadcast use vstd::std_specs::hash::group_hash_axioms;

#[verifier::external_type_specification]
#[verifier::external_body]
pub struct ExBytesMut(BytesMut);

#[verifier::external_type_specification]
#[verifier::external_body]
pub struct ExBytes(Bytes);

/// The bytes held by a byte buffer.
pub uninterp spec fn bytes_mut_contents(b: BytesMut) -> Seq<u8>;

/// The bytes held by a frozen byte buffer.
pub uninterp spec fn bytes_contents(b: Bytes) -> Seq<u8>;

/// `BytesMut::with_capacity`: an empty buffer.
#[verifier::external_body]
fn buffer_with_capacity(capacity: usize) -> (r: BytesMut)
    ensures
        bytes_mut_contents(r) == Seq::<u8>::empty(),
{
    BytesMut::with_capacity(capacity)
}

/// `BufMut::put_slice` of `BytesMut`: the bytes are appended.
#[verifier::external_body]
fn buffer_put_slice(b: &mut BytesMut, src: &[u8])
    ensures
        bytes_mut_contents(*final(b)) == bytes_mut_contents(*old(b)) + src@,
{
    b.put_slice(src)
}

/// `BytesMut::freeze`: the same bytes, immutable.
#[verifier::external_body]
fn buffer_freeze(b: BytesMut) -> (r: Bytes)
    ensures
        bytes_contents(r) == bytes_mut_contents(b),
{
    b.freeze()
}

/// What the evaluation of a location expression needs before it can go on.
#[derive(Debug, Clone, Copy, PartialEq, Eq, Structural)]
pub enum EvalRequirement {
    /// The value of a DWARF register.
    Register(u16),
    /// The frame base of the function in focus.
    FrameBase,
    /// The value at the location of the entity (an object that contains it).
    AtLocation,
    /// The type of the base type entry at this unit offset.
    BaseType(u64),
    /// `size` bytes of memory at `address`.
    Memory { address: u64, size: u8 },
    /// An address of the object file, to be relocated into the debugee.
    RelocatedAddress(u64),
    /// The address of a thread local storage entry at this offset.
    Tls(u64),
    /// An address from the address table of the unit.
    IndexedAddress { index: u64, relocate: bool },
    /// The canonical frame address of the frame in focus.
    CallFrameCfa,
    /// The value that an expression had at the entry of the function.
    EntryValue,
    /// The value of a parameter by reference.
    ParameterRef,
}

/// How a requirement of an evaluation is met.
#[derive(Debug, Clone, PartialEq, Eq)]
pub enum EvalStep {
    /// Resume with this register value.
    RegisterValue(u64),
    /// Resume with the value that this register has in the frame in focus.
    FrameRegister(u16),
    /// Resume with the frame base.
    FrameBase,
    /// Resume with these bytes of the entity's location.
    AtLocation(Vec<u8>),
    /// Resume with the type of this base type entry.
    BaseType(u64),
    /// Resume with `size` bytes of memory read at `address`.
    Memory { address: u64, size: u8 },
    /// Resume with this address plus the mapping offset of the object file.
    RelocatedAddress(u64),
    /// Resume with the thread local storage address at this offset.
    Tls(u64),
    /// Resume with an address from the address table, relocated if asked.
    IndexedAddress { index: u64, relocate: bool },
    /// Resume with the canonical frame address.
    CallFrameCfa,
    /// Evaluate the expression at the entry of the function, and resume with its value.
    EntryValue,
}

/// Resolve requirements that the `ExpressionEvaluator` may need.
/// Defined by callee, the composition of this requirements depends on the context of the calculation.
pub struct ExternalRequirementsResolver {
    pub at_location: Option<Vec<u8>>,
    pub entry_registers: HashMap<i32, DwarfRegisterMap>,
}

impl ExternalRequirementsResolver {
    /// Resolver that holds nothing.
    pub fn new() -> (r: Self)
        ensures
            r.at_location is None,
            r.entry_registers@ == Map::<i32, DwarfRegisterMap>::empty(),
    {
        ExternalRequirementsResolver { at_location: None, entry_registers: HashMap::new() }
    }

    /// The same resolver with the bytes of the entity's location.
    pub fn with_at_location(self, bytes: Vec<u8>) -> (r: Self)
        ensures
            r.at_location == Some(bytes),
            r.entry_registers@ == self.entry_registers@,
    {
        ExternalRequirementsResolver { at_location: Some(bytes), entry_registers: self.entry_registers }
    }

    /// The same resolver with the registers of thread `pid` at the entry of
    /// the function.
    pub fn with_entry_registers(self, pid: i32, registers: DwarfRegisterMap) -> (r: Self)
        ensures
            r.at_location == self.at_location,
            r.entry_registers@ == self.entry_registers@.insert(pid, registers),
    {
        let mut regs = self.entry_registers;
        regs.insert(pid, registers);
        ExternalRequirementsResolver { at_location: self.at_location, entry_registers: regs }
    }

    /// How to meet a requirement of an evaluation for thread `pid`. A
    /// register comes from the registers saved at the function entry for the
    /// thread, which are then used up, or else from the frame in focus; the
    /// location bytes are used up by the requirement that takes them, and it
    /// is an error when there are none; a parameter by reference is not
    /// supported. The other requirements are met as they are asked.
    pub fn next_step(&mut self, pid: i32, req: EvalRequirement) -> (r: Result<EvalStep, Error>)
        ensures
            match req {
                EvalRequirement::Register(reg) => if old(self).entry_registers@.contains_key(pid) {
                    &&& final(self).entry_registers@ == old(self).entry_registers@.remove(pid)
                    &&& final(self).at_location == old(self).at_location
                    &&& r == match dwarf_value(old(self).entry_registers@[pid]@, reg) {
                        Some(v) => Ok::<EvalStep, Error>(EvalStep::RegisterValue(v)),
                        None => Err(Error::RegisterNotFound(reg)),
                    }
                } else {
                    &&& final(self).entry_registers@ == old(self).entry_registers@
                    &&& final(self).at_location == old(self).at_location
                    &&& r == Ok::<EvalStep, Error>(EvalStep::FrameRegister(reg))
                },
                EvalRequirement::AtLocation => match old(self).at_location {
                    Some(bytes) => {
                        &&& final(self).at_location is None
                        &&& final(self).entry_registers@ == old(self).entry_registers@
                        &&& r == Ok::<EvalStep, Error>(EvalStep::AtLocation(bytes))
                    },
                    None => {
                        &&& *final(self) == *old(self)
                        &&& (r matches Err(Error::EvalOptionRequired(what)) && what@ == "at_location"@)
                    },
                },
                EvalRequirement::ParameterRef => {
                    &&& *final(self) == *old(self)
                    &&& (r matches Err(Error::EvalUnsupportedRequire(what)) && what@ == "parameter_ref"@)
                },
                _ => {
                    &&& *final(self) == *old(self)
                    &&& r == Ok::<EvalStep, Error>(
                        match req {
                            EvalRequirement::FrameBase => EvalStep::FrameBase,
                            EvalRequirement::BaseType(o) => EvalStep::BaseType(o),
                            EvalRequirement::Memory { address, size } => EvalStep::Memory { address, size },
                            EvalRequirement::RelocatedAddress(a) => EvalStep::RelocatedAddress(a),
                            EvalRequirement::Tls(o) => EvalStep::Tls(o),
                            EvalRequirement::IndexedAddress { index, relocate } => EvalStep::IndexedAddress {
                                index,
                                relocate,
                            },
                            EvalRequirement::CallFrameCfa => EvalStep::CallFrameCfa,
                            _ => EvalStep::EntryValue,
                        },
                    )
                },
            },
    {
        match req {
            EvalRequirement::Register(reg) => match self.entry_registers.remove(&pid) {
                Some(regs) => match regs.value(reg) {
                    Ok(v) => Ok(EvalStep::RegisterValue(v)),
                    Err(e) => Err(e),
                },
                None => Ok(EvalStep::FrameRegister(reg)),
            },
            EvalRequirement::FrameBase => Ok(EvalStep::FrameBase),
            EvalRequirement::AtLocation => match self.at_location.take() {
                Some(bytes) => Ok(EvalStep::AtLocation(bytes)),
                None => Err(Error::EvalOptionRequired(String::from_str("at_location"))),
            },
            EvalRequirement::BaseType(o) => Ok(EvalStep::BaseType(o)),
            EvalRequirement::Memory { address, size } => Ok(EvalStep::Memory { address, size }),
            EvalRequirement::RelocatedAddress(a) => Ok(EvalStep::RelocatedAddress(a)),
            EvalRequirement::Tls(o) => Ok(EvalStep::Tls(o)),
            EvalRequirement::IndexedAddress { index, relocate } => Ok(EvalStep::IndexedAddress { index, relocate }),
            EvalRequirement::CallFrameCfa => Ok(EvalStep::CallFrameCfa),
            EvalRequirement::EntryValue => Ok(EvalStep::EntryValue),
            EvalRequirement::ParameterRef => Err(Error::EvalUnsupportedRequire(String::from_str("parameter_ref"))),
        }
    }
}

/// A generic (address sized) value read from memory: the bytes, least
/// significant first, when there are exactly eight of them; otherwise a
/// [`Error::TypeBinaryRepr`] with the bytes.
pub fn generic_memory_value(memory: Vec<u8>) -> (r: Result<u64, Error>)
    ensures
        memory.len() == 8 ==> r == Ok::<u64, Error>(le_value(memory@) as u64),
        memory.len() != 8 ==> (r matches Err(Error::TypeBinaryRepr(what, data)) && what@ == "u64"@ && data@ == memory@),
{
    if memory.len() == 8 {
        let v = read_le(memory.as_slice(), 8);
        proof {
            assert(memory@.subrange(0, 8) =~= memory@);
        }
        Ok(v)
    } else {
        Err(Error::TypeBinaryRepr(String::from_str("u64"), memory))
    }
}

/// Determine how to interpret an address in a piece location: as the address
/// of the value in debugee memory, or as the value itself.
/// This information is context dependent (depending on what exactly is being calculated).
#[derive(Debug, Clone, Copy, PartialEq, Eq, Structural)]
pub enum AddressKind {
    MemoryAddress,
    Value,
}

/// Where a piece of a value is, with what was read for it.
pub enum PieceLocation {
    /// In a register; `value` is the value of the register in the frame.
    Register { value: u64 },
    /// At an address; `memory` holds the bytes read there, used when the
    /// address is the address of the value in memory.
    Address { address: u64, memory: Vec<u8> },
    /// A computed value, as its bytes in memory order.
    Value { bytes: Vec<u8> },
    /// Literal bytes (also the bytes an implicit pointer points to).
    Bytes { value: Vec<u8> },
    /// The piece is not available.
    Empty,
}

/// A piece of a value.
pub struct Piece {
    /// Size of the piece in bits, if the piece is not the whole value.
    pub size_in_bits: Option<u64>,
    /// Offset of the piece in its location, in bits.
    pub bit_offset: Option<u64>,
    pub location: PieceLocation,
}

/// The eight bytes of a word in memory order.
pub open spec fn word_bytes(val: u64) -> Seq<u8> {
    Seq::new(8, |k: int| word_byte(val, k))
}

/// Number of bytes to read for a piece: its size, or the size of the whole value.
pub open spec fn read_size_spec(size_in_bits: Option<u64>, byte_size: usize) -> int {
    match size_in_bits {
        Some(bits) => (bits as usize / 8) as int,
        None => byte_size as int,
    }
}

/// Bytes that a register piece gives: the register value shifted down by the
/// offset, at most eight bytes of it.
pub open spec fn register_bytes_spec(value: u64, offset: u64, size: int) -> Seq<u8> {
    word_bytes(value >> offset).take(if size < 8 { size } else { 8 })
}

/// A piece can be read: a register piece is not offset by a whole word or more.
pub open spec fn piece_readable(p: Piece) -> bool {
    p.location is Register ==> match p.bit_offset {
        Some(o) => o < 64,
        None => true,
    }
}

/// The bytes that a piece gives.
pub open spec fn piece_bytes(p: Piece, byte_size: usize, kind: AddressKind) -> Seq<u8> {
    let offset: u64 = match p.bit_offset {
        Some(o) => o,
        None => 0,
    };
    match p.location {
        PieceLocation::Register { value } => register_bytes_spec(
            value,
            offset,
            read_size_spec(p.size_in_bits, byte_size),
        ),
        PieceLocation::Address { address, memory } => match kind {
            AddressKind::MemoryAddress => memory@,
            AddressKind::Value => word_bytes(address),
        },
        PieceLocation::Value { bytes } => bytes@,
        PieceLocation::Bytes { value } => value@,
        PieceLocation::Empty => Seq::empty(),
    }
}

/// The bytes of the pieces, one after another.
pub open spec fn pieces_bytes(ps: Seq<Piece>, byte_size: usize, kind: AddressKind) -> Seq<u8>
    decreases ps.len(),
{
    if ps.len() == 0 {
        Seq::empty()
    } else {
        pieces_bytes(ps.drop_last(), byte_size, kind) + piece_bytes(ps.last(), byte_size, kind)
    }
}

/// Number of bytes to read for a piece.
pub fn piece_read_size(size_in_bits: Option<u64>, byte_size: usize) -> (r: usize)
    ensures
        r == read_size_spec(size_in_bits, byte_size),
{
    match size_in_bits {
        Some(bits) => bits as usize / 8,
        None => byte_size,
    }
}

/// Bytes of a register value for a piece of `size` bytes at bit `offset`.
pub fn register_bytes(value: u64, offset: u64, size: usize) -> (r: Vec<u8>)
    requires
        offset < 64,
    ensures
        r@ == register_bytes_spec(value, offset, size as int),
{
    let bytes = u64_to_bytes(value >> offset);
    let n: usize = if size < 8 {
        size
    } else {
        8
    };
    let mut r: Vec<u8> = Vec::new();
    let mut i: usize = 0;
    while i < n
        invariant
            n <= 8,
            i <= n,
            forall|k: int| 0 <= k < 8 ==> #[trigger] bytes@[k] == word_byte(value >> offset, k),
            r@ == word_bytes(value >> offset).take(i as int),
        decreases n - i,
    {
        r.push(bytes[i]);
        i = i + 1;
        assert(r@ =~= word_bytes(value >> offset).take(i as int));
    }
    r
}

/// The value that the pieces locate, as raw bytes, with the address of the
/// value in memory when the first piece is at an address.
///
/// # Arguments
///
/// * `byte_size`: length of expected value in bytes
/// * `address_kind`: determine how to interpret an address in a piece location
pub fn into_raw_bytes(pieces: &Vec<Piece>, byte_size: usize, address_kind: AddressKind) -> (r: (Option<usize>, Bytes))
    requires
        forall|i: int| 0 <= i < pieces@.len() ==> piece_readable(#[trigger] pieces@[i]),
    ensures
        bytes_contents(r.1) == pieces_bytes(pieces@, byte_size, address_kind),
        r.0 == match (if pieces@.len() > 0 { Some(pieces@[0].location) } else { None }) {
            Some(PieceLocation::Address { address, .. }) => Some(address as usize),
            _ => None,
        },
{
    let mut data = buffer_with_capacity(byte_size);
    let mut data_addr: Option<usize> = None;
    let mut i: usize = 0;
    while i < pieces.len()
        invariant
            i <= pieces@.len(),
            forall|i: int| 0 <= i < pieces@.len() ==> piece_readable(#[trigger] pieces@[i]),
            bytes_mut_contents(data) == pieces_bytes(pieces@.take(i as int), byte_size, address_kind),
            data_addr == match (if i > 0 { Some(pieces@[0].location) } else { None }) {
                Some(PieceLocation::Address { address, .. }) => Some(address as usize),
                _ => None,
            },
        decreases pieces@.len() - i,
    {
        let piece = &pieces[i];
        let offset: u64 = match piece.bit_offset {
            Some(o) => o,
            None => 0,
        };
        proof {
            assert(pieces@.take(i + 1).drop_last() =~= pieces@.take(i as int));
            assert(piece_readable(pieces@[i as int]));
        }
        match &piece.location {
            PieceLocation::Register { value } => {
                let read_size = piece_read_size(piece.size_in_bits, byte_size);
                let bytes = register_bytes(*value, offset, read_size);
                buffer_put_slice(&mut data, bytes.as_slice());
            },
            PieceLocation::Address { address, memory } => {
                if i == 0 {
                    data_addr = Some(*address as usize);
                }
                match address_kind {
                    AddressKind::MemoryAddress => buffer_put_slice(&mut data, memory.as_slice()),
                    AddressKind::Value => {
                        let b = u64_to_bytes(*address);
                        proof {
                            assert(b@ =~= word_bytes(*address));
                        }
                        buffer_put_slice(&mut data, &b);
                    },
                }
            },
            PieceLocation::Value { bytes } => buffer_put_slice(&mut data, bytes.as_slice()),
            PieceLocation::Bytes { value } => buffer_put_slice(&mut data, value.as_slice()),
            PieceLocation::Empty => {
                assert(pieces_bytes(pieces@.take(i + 1), byte_size, address_kind) =~= pieces_bytes(
                    pieces@.take(i as int),
                    byte_size,
                    address_kind,
                ));
            },
        }
        i = i + 1;
    }
    proof {
        assert(pieces@.take(i as int) =~= pieces@);
    }
    (data_addr, buffer_freeze(data))
}

} // verus!
