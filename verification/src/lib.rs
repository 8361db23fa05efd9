//! Platform-support primitives for a small ARM-style handheld: a family of
//! alignment-aware block memory transfer routines ([`mem_fns`]) and a cell
//! type for globals that are read and written with a single access
//! ([`GbaCell`]).
//!
//! The transfer routines operate on memory modeled as one byte-addressed
//! buffer; every routine carries a contract that pins down exactly which
//! bytes it writes and which values they receive.

use vstd::prelude::*;

pub mod mem_fns;

verus! {

/// Marker bound for the value types a [`GbaCell`] can hold: plain `Copy`
/// data, which on the target hardware is loaded or stored whole with a
/// single access.
pub trait GbaCellSafe: Copy {}

impl<T: Copy> GbaCellSafe for T {}

/// A cell type suitable to hold a global: its value is only ever read and
/// written whole.
pub struct GbaCell<T>(T);

impl<T: GbaCellSafe> GbaCell<T> {
    /// The value currently held by the cell.
    pub closed spec fn value(self) -> T {
        self.0
    }

    /// Constructs a new cell with the value given.
    pub fn new(t: T) -> (cell: Self)
        ensures
            cell.value() == t,
    {
        GbaCell(t)
    }

    /// Read the value in the cell.
    pub fn read(&self) -> (t: T)
        ensures
            t == self.value(),
    {
        self.0
    }

    /// Writes a new value to the cell.
    pub fn write(&mut self, t: T)
        ensures
            final(self).value() == t,
    {
        self.0 = t;
    }
}

} // verus!
