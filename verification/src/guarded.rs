//! Sums and products of 32-bit numbers for callers who know that the result
//! fits.

use vstd::prelude::*;

verus! {

/// The sum of two numbers whose sum fits in 32 bits.
pub fn checked_addition(a: u32, b: u32) -> (sum: u32)
    requires
        a + b <= u32::MAX,
    ensures
        sum == a + b,
{
    a + b
}

/// The product of two numbers whose product fits in 32 bits, the second of
/// them not zero.
pub fn checked_multiplication(a: u32, b: u32) -> (product: u32)
    requires
        b != 0,
        a * b <= u32::MAX,
    ensures
        product == a * b,
{
    a * b
}

} // verus!
