//! Single-flag tests and updates on raw register and entry values.
use vstd::prelude::*;

verus! {

/// Whether every bit of `bit` is set in `value`.
pub fn is_bit_set(value: u64, bit: u64) -> (r: bool)
    ensures
        r == (value & bit == bit),
{
    value & bit == bit
}

/// `value` with every bit of `bit` set.
pub fn set_bit(value: u64, bit: u64) -> (r: u64)
    ensures
        r == value | bit,
{
    value | bit
}

} // verus!
