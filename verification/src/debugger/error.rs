//! Debugger error kinds.
//!
//! Errors raised by the operating system or by parsing libraries are carried as
//! plain values: an `errno` number for system calls and a rendered message for
//! the rest.

use vstd::prelude::*;

verus! {

/// Debugger error.
#[derive(Debug)]
pub enum Error {
    // --------------------------------- generic errors --------------------------------------------
    AlreadyRun,
    IO(String),
    Utf8(String),
    FromUtf8(String),
    RegEx(String),
    // --------------------------------- debugger entity not found----------------------------------
    NoDebugInformation(String),
    /// Unknown DWARF register number.
    RegisterNotFound(u16),
    RegisterNameNotFound(String),
    PlaceNotFound(usize),
    NoSuitablePlace,
    UnitNotFound(usize),
    FunctionNotFound(usize),
    TypeNotFound,
    FrameNotFound(u32),
    TraceeNotFound(u32),
    DieNotFound(u64),
    SectionNotFound(String),
    // --------------------------------- remote memory errors --------------------------------------
    TypeBinaryRepr(String, Vec<u8>),
    UnknownAddress,
    MappingOffsetNotFound(String),
    MappingNotFound(String),
    // --------------------------------- syscall errors --------------------------------------------
    /// `waitpid` failed with the given errno.
    Waitpid(i32),
    /// `ptrace` failed with the given errno.
    Ptrace(i32),
    /// A named system call failed with the given errno.
    Syscall(String, i32),
    MultipleErrors(Vec<Error>),
    // --------------------------------- parsing errors --------------------------------------------
    DwarfParsing(String),
    DebugIDFormat,
    ObjParsing(String),
    VariableParsing(String),
    InvalidSpecification(usize),
    // --------------------------------- unwind errors ---------------------------------------------
    UnwindNoContext,
    UnwindTooDeepFrame,
    // --------------------------------- dwarf errors ----------------------------------------------
    EvalOptionRequired(String),
    EvalUnsupportedRequire(String),
    NoFBA,
    FBANotAnExpression,
    NoFunctionRanges(Option<String>),
    NoDieType,
    ImplicitPointer,
    // --------------------------------- libthread_db errors ---------------------------------------
    NoThreadDB,
    ThreadDB(String),
    // --------------------------------- linker errors ---------------------------------------------
    Rendezvous(String),
    // --------------------------------- debugee process errors ------------------------------------
    ProcessExit(i32),
    ProcessNotStarted,
    // --------------------------------- rust toolchain errors -------------------------------------
    DefaultToolchainNotFound,
    UnrecognizedRustupOut,
    // --------------------------------- disasm ----------------------------------------------------
    DisAsmInit(String),
    DisAsm(String),
    // --------------------------------- third party errors ----------------------------------------
    Hook(String),
    // --------------------------------- attach debugee errors -------------------------------------
    AttachedProcessNotFound(i32),
    Attach(i32),
    // --------------------------------- watchpoints -----------------------------------------------
    /// A watchpoint of an unsupported size was requested.
    WatchpointWrongSize,
}

/// An error is fatal when debugging cannot go on after it: broken debug
/// information or object file, a failed system call outside of ptrace/waitpid,
/// missing libthread_db, a disassembler that cannot be set up, or a failed attach.
pub open spec fn spec_is_fatal(e: Error) -> bool {
    match e {
        Error::DwarfParsing(_) => true,
        Error::ObjParsing(_) => true,
        Error::Syscall(_, _) => true,
        Error::NoThreadDB => true,
        Error::DisAsmInit(_) => true,
        Error::AttachedProcessNotFound(_) => true,
        Error::Attach(_) => true,
        _ => false,
    }
}

impl Error {
    /// Return a hint to an interface - continue debugging after error or stop whole process.
    pub fn is_fatal(&self) -> (r: bool)
        ensures
            r == spec_is_fatal(*self),
    {
        match self {
            Error::AlreadyRun => false,
            Error::IO(_) => false,
            Error::Utf8(_) => false,
            Error::FromUtf8(_) => false,
            Error::RegEx(_) => false,
            Error::NoDebugInformation(_) => false,
            Error::RegisterNotFound(_) => false,
            Error::RegisterNameNotFound(_) => false,
            Error::PlaceNotFound(_) => false,
            Error::NoSuitablePlace => false,
            Error::UnitNotFound(_) => false,
            Error::FunctionNotFound(_) => false,
            Error::TypeNotFound => false,
            Error::FrameNotFound(_) => false,
            Error::TraceeNotFound(_) => false,
            Error::DieNotFound(_) => false,
            Error::TypeBinaryRepr(_, _) => false,
            Error::UnknownAddress => false,
            Error::MappingOffsetNotFound(_) => false,
            Error::MappingNotFound(_) => false,
            Error::Waitpid(_) => false,
            Error::Ptrace(_) => false,
            Error::MultipleErrors(_) => false,
            Error::DebugIDFormat => false,
            Error::VariableParsing(_) => false,
            Error::UnwindNoContext => false,
            Error::UnwindTooDeepFrame => false,
            Error::EvalOptionRequired(_) => false,
            Error::EvalUnsupportedRequire(_) => false,
            Error::NoFBA => false,
            Error::FBANotAnExpression => false,
            Error::NoFunctionRanges(_) => false,
            Error::NoDieType => false,
            Error::ImplicitPointer => false,
            Error::ThreadDB(_) => false,
            Error::Rendezvous(_) => false,
            Error::ProcessExit(_) => false,
            Error::ProcessNotStarted => false,
            Error::DefaultToolchainNotFound => false,
            Error::UnrecognizedRustupOut => false,
            Error::Hook(_) => false,
            Error::SectionNotFound(_) => false,
            Error::DisAsm(_) => false,
            Error::InvalidSpecification(_) => false,
            Error::WatchpointWrongSize => false,
            // currently fatal errors
            Error::DwarfParsing(_) => true,
            Error::ObjParsing(_) => true,
            Error::Syscall(_, _) => true,
            Error::NoThreadDB => true,
            Error::DisAsmInit(_) => true,
            Error::AttachedProcessNotFound(_) => true,
            Error::Attach(_) => true,
        }
    }
}

} // verus!
