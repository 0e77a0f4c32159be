//! Common pieces of the command line tools: running a parsed command line.

use vstd::prelude::*;

use core::marker::PhantomData;

verus! {

/// Trait for types that may be ran by consuming an instance.
pub trait Run {
    /// Error used by cli.
    type Err;

    /// Run this cli.
    fn run(self) -> Result<(), Self::Err>;
}

/// Implemented by the types that may be started; no other type can be.
pub trait Sealed {}

/// A command line of type `T` that may be started.
pub struct Startable<T> {
    /// Allow for T to exist.
    _p: PhantomData<T>,
}

impl<T> Startable<T> {
    /// Create a new instance.
    pub fn new() -> (r: Self) {
        Startable { _p: PhantomData }
    }
}

impl<T> Sealed for Startable<T> {}

} // verus!
