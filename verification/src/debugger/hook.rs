//! Reverse interaction between the debugger and the user interface.

use crate::debugger::address::RelocatedAddress;
use crate::debugger::debugee::dwarf::unit::{FunctionInfo, PlaceDescriptor};
use crate::debugger::error::Error;
use vstd::prelude::*;

verus! {

/// Trait for the reverse interaction between the debugger and the user interface.
pub trait EventHook {
    /// Called when user defined breakpoint is reached.
    ///
    /// # Arguments
    ///
    /// * `pc`: address of instruction where breakpoint is reached
    /// * `num`: breakpoint number
    /// * `place`: stop place information
    /// * `function`: function debug information entry
    fn on_breakpoint(
        &self,
        pc: RelocatedAddress,
        num: u32,
        place: Option<PlaceDescriptor>,
        function: Option<&FunctionInfo>,
    ) -> Result<(), Error>;

    /// Called when one of step commands is done.
    ///
    /// # Arguments
    ///
    /// * `pc`: address of instruction where breakpoint is reached
    /// * `place`: stop place information
    /// * `function`: function debug information entry
    fn on_step(&self, pc: RelocatedAddress, place: Option<PlaceDescriptor>, function: Option<&FunctionInfo>) -> Result<
        (),
        Error,
    >;

    /// Called when debugee receive an OS signal (its number). Debugee is in
    /// signal-stop at this moment.
    fn on_signal(&self, signal: i32);

    /// Called right after debugee exit, with its exit code.
    fn on_exit(&self, code: i32);

    /// Called single time for each debugee process (on start or after
    /// reinstall), with its pid and the path of its program, when known.
    fn on_process_install(&self, pid: i32, program: Option<&str>);
}

/// A hook that does nothing.
pub struct NopHook {}

impl EventHook for NopHook {
    fn on_breakpoint(
        &self,
        pc: RelocatedAddress,
        num: u32,
        place: Option<PlaceDescriptor>,
        function: Option<&FunctionInfo>,
    ) -> (r: Result<(), Error>)
        ensures
            r is Ok,
    {
        Ok(())
    }

    fn on_step(&self, pc: RelocatedAddress, place: Option<PlaceDescriptor>, function: Option<&FunctionInfo>) -> (r:
        Result<(), Error>)
        ensures
            r is Ok,
    {
        Ok(())
    }

    fn on_signal(&self, signal: i32) {
    }

    fn on_exit(&self, code: i32) {
    }

    fn on_process_install(&self, pid: i32, program: Option<&str>) {
    }
}

} // verus!
