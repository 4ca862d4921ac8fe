//! The total order of IEEE-754 doubles, read from their bit patterns.
use vstd::prelude::*;

verus! {

/// The integer whose order is the total order of doubles (`f64::total_cmp`):
/// the bits read as a signed integer, with the magnitude bits flipped when
/// the sign bit is set.
pub open spec fn total_key(bits: u64) -> i64 {
    let signed = bits as i64;
    signed ^ ((((signed >> 63u64) as u64) >> 1u64) as i64)
}

/// `total_key` of the double with bit pattern `bits`.
pub fn total_order_key(bits: u64) -> (r: i64)
    ensures
        r == total_key(bits),
{
    let signed = bits as i64;
    signed ^ ((((signed >> 63u64) as u64) >> 1u64) as i64)
}

} // verus!
