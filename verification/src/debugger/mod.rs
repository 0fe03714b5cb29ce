pub mod address;
pub mod debugee;
pub mod dwarf;
pub mod error;
pub mod process;
pub mod register;
pub mod rust;
pub mod step;
pub mod utils;
pub mod uw;
pub mod variable;
pub mod hook;
