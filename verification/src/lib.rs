//! Verified core of a Linux x86-64 debugger for Rust programs.

pub mod debugger;
pub mod text;
