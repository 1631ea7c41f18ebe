//! Sums and products of 32-bit numbers that report an overflow instead of
//! running into it.

use vstd::prelude::*;

verus! {

/// Why a sum or a product has no 32-bit result.
#[derive(Debug)]
pub enum Error {
    /// The sum does not fit in 32 bits.
    AdditionOverflow,
    /// The product does not fit in 32 bits.
    MultiplcationOverflow,
}

/// The sum of two numbers, or the report that it does not fit in 32 bits.
pub fn checked_addition(a: u32, b: u32) -> (result: Result<u32, Error>)
    ensures
        a + b <= u32::MAX ==> result == Ok::<u32, Error>((a + b) as u32),
        a + b > u32::MAX ==> result == Err::<u32, Error>(Error::AdditionOverflow),
{
    if u32::MAX - b < a {
        return Err(Error::AdditionOverflow);
    }
    Ok(a + b)
}

/// The product of a number and a number that is not zero, or the report that
/// it does not fit in 32 bits.
pub fn checked_multiplication(a: u32, b: u32) -> (result: Result<u32, Error>)
    requires
        b != 0,
    ensures
        a * b <= u32::MAX ==> result == Ok::<u32, Error>((a * b) as u32),
        a * b > u32::MAX ==> result == Err::<u32, Error>(Error::MultiplcationOverflow),
{
    let most: u32 = u32::MAX / b;
    proof {
        vstd::arithmetic::div_mod::lemma_fundamental_div_mod(u32::MAX as int, b as int);
        vstd::arithmetic::div_mod::lemma_mod_bound(u32::MAX as int, b as int);
        if most < a {
            assert(a * b > u32::MAX) by (nonlinear_arith)
                requires
                    most + 1 <= a,
                    b > 0,
                    u32::MAX == b * most + (u32::MAX as int % b as int),
                    0 <= (u32::MAX as int % b as int) < b,
            ;
        } else {
            assert(a * b <= u32::MAX) by (nonlinear_arith)
                requires
                    0 <= a <= most,
                    b > 0,
                    u32::MAX == b * most + (u32::MAX as int % b as int),
                    0 <= (u32::MAX as int % b as int) < b,
            ;
        }
    }
    if most < a {
        return Err(Error::MultiplcationOverflow);
    }
    Ok(a * b)
}

} // verus!
