use vstd::prelude::*;

verus! {

/// The value a cell holds after one increment: addition modulo 256.
pub open spec fn inc(v: u8) -> u8 {
    ((v as int + 1) % 256) as u8
}

/// The value a cell holds after one decrement: subtraction modulo 256.
pub open spec fn dec(v: u8) -> u8 {
    ((v as int + 255) % 256) as u8
}

/// Adds one to the cell, wrapping 255 round to 0.
pub fn increment_with_overflow(value: &mut u8)
    ensures
        *final(value) == inc(*old(value)),
{
    if *value == u8::MAX {
        *value = 0;
    } else {
        *value = *value + 1;
    }
}

/// Subtracts one from the cell, wrapping 0 round to 255.
pub fn decrement_with_overflow(value: &mut u8)
    ensures
        *final(value) == dec(*old(value)),
{
    if *value == 0 {
        *value = u8::MAX;
    } else {
        *value = *value - 1;
    }
}

} // verus!
