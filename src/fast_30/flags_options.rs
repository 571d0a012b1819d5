//! The switches that turn the evaluator's side activities on.
use vstd::prelude::*;

verus! {

/// Bit of the switch that saves the diagonals to a file.
pub const SAVE_DIAGONALS: u8 = 0b0000_0001;

/// Bit of the switch that logs each doubling of the period.
pub const LOG_DOUBLING: u8 = 0b0000_0010;

/// Bit of the switch that logs the iteration at a regular cadence.
pub const LOG_STEPS: u8 = 0b0000_0100;

/// A set of switches, one bit each.
#[derive(Clone, Copy, Debug, PartialEq, Eq, Structural)]
pub struct Fast30Option {
    bits: u8,
}

impl Fast30Option {
    /// The set whose bits are `bits`, unknown bits included.
    pub fn from_bits_retain(bits: u8) -> (r: Fast30Option)
        ensures
            r.spec_bits() == bits,
    {
        Fast30Option { bits }
    }

    /// The bits of the set.
    pub closed spec fn spec_bits(&self) -> u8 {
        self.bits
    }

    /// The bits of the set.
    pub fn bits(&self) -> (r: u8)
        ensures
            r == self.spec_bits(),
    {
        self.bits
    }

    /// Whether every bit of `flag` is set.
    pub fn contains(&self, flag: u8) -> (r: bool)
        ensures
            r == (self.spec_bits() & flag == flag),
    {
        self.bits & flag == flag
    }
}

} // verus!
