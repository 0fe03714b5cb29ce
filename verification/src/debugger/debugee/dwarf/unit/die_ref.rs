//! Kinds of debug information entries that a reference to an entry may be
//! known to point to.

use vstd::prelude::*;

verus! {

/// What a reference to an entry is known to point to.
pub trait Hint {}

/// An entry that has a type.
pub trait Typed: Hint {}

/// Nothing is known of the entry.
pub struct NoHint;

impl Hint for NoHint {}

/// A function.
pub struct Function;

impl Hint for Function {}

/// An argument of a function.
pub struct Argument;

impl Hint for Argument {}

impl Typed for Argument {}

/// A variable.
pub struct Variable;

impl Hint for Variable {}

impl Typed for Variable {}

} // verus!
