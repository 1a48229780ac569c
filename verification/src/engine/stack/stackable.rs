//! Values that fit one stack entry.

use crate::engine::arith::{signed, word_of};
use crate::engine::stack::StackEntry;
use vstd::prelude::*;

verus! {

/// A type whose values can be kept in a stack entry and read back from one.
pub trait Stackable: Copy {
    /// The entry that holds `self`.
    spec fn entry_of(self) -> u64;

    /// The value that `entry` holds.
    spec fn of_entry(entry: u64) -> Self;

    /// Turns the value into a stack entry.
    fn into_entry(self) -> (entry: StackEntry)
        ensures
            entry == self.entry_of(),
    ;

    /// Reads a value out of a stack entry.
    fn from_entry(entry: StackEntry) -> (value: Self)
        ensures
            value == Self::of_entry(entry),
    ;

    /// A value that went into an entry comes out of it unchanged.
    proof fn lemma_round_trip(self)
        ensures
            Self::of_entry(self.entry_of()) == self,
    ;
}

impl Stackable for StackEntry {
    open spec fn entry_of(self) -> u64 {
        self
    }

    open spec fn of_entry(entry: u64) -> Self {
        entry
    }

    fn into_entry(self) -> (entry: StackEntry) {
        self
    }

    fn from_entry(entry: StackEntry) -> (value: Self) {
        entry
    }

    proof fn lemma_round_trip(self) {
    }
}

impl Stackable for i64 {
    /// The two's complement bit pattern.
    open spec fn entry_of(self) -> u64 {
        word_of(self as int)
    }

    /// The integer that the entry stands for in two's complement.
    open spec fn of_entry(entry: u64) -> Self {
        signed(entry) as i64
    }

    fn into_entry(self) -> (entry: StackEntry) {
        if self >= 0 {
            self as u64
        } else {
            // the distance to -1, taken from the pattern of all ones
            u64::MAX - ((-1 - self) as u64)
        }
    }

    fn from_entry(entry: StackEntry) -> (value: Self) {
        if entry < 0x8000_0000_0000_0000 {
            entry as i64
        } else {
            -1 - ((u64::MAX - entry) as i64)
        }
    }

    proof fn lemma_round_trip(self) {
    }
}

impl Stackable for u32 {
    /// The value, widened with zeros.
    open spec fn entry_of(self) -> u64 {
        self as u64
    }

    /// The low 32 bits of the entry.
    open spec fn of_entry(entry: u64) -> Self {
        (entry % 0x1_0000_0000) as u32
    }

    fn into_entry(self) -> (entry: StackEntry) {
        self as u64
    }

    fn from_entry(entry: StackEntry) -> (value: Self) {
        (entry % 0x1_0000_0000) as u32
    }

    proof fn lemma_round_trip(self) {
    }
}

} // verus!
