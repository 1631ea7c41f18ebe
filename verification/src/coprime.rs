//! Coprime numbers: two numbers that no number from two up divides both.

use vstd::arithmetic::div_mod::{
    lemma_fundamental_div_mod, lemma_mod_multiples_vanish, lemma_mod_self_0, lemma_small_mod,
};
use vstd::prelude::*;

verus! {

/// Whether `d` divides both `a` and `b`.
pub open spec fn divides_both(d: nat, a: nat, b: nat) -> bool {
    a % d == 0 && b % d == 0
}

/// Two numbers are coprime if nothing from two up divides both.
pub open spec fn coprime(a: nat, b: nat) -> bool {
    forall|d: nat| d >= 2 ==> !#[trigger] divides_both(d, a, b)
}

/// What divides two numbers divides the smaller and their difference, and
/// the other way round.
pub proof fn lemma_difference_keeps_divisors(d: nat, small: nat, large: nat)
    requires
        d > 0,
        small <= large,
    ensures
        divides_both(d, small, large) == divides_both(d, small, (large - small) as nat),
{
    if small % d == 0 {
        let q = small / d;
        lemma_fundamental_div_mod(small as int, d as int);
        lemma_mod_multiples_vanish(q as int, large - small, d as int);
        assert(d * q + (large - small) == large);
    }
}

/// Decides whether neither number is zero and the two are coprime, by
/// taking the smaller from the larger until both are equal.
pub fn coprimes(a: u32, b: u32) -> (yes: bool)
    ensures
        yes == (a > 0 && b > 0 && coprime(a as nat, b as nat)),
{
    if a == 0 || b == 0 {
        return false;
    }
    let mut x = a;
    let mut y = b;
    while x != y
        invariant
            x > 0,
            y > 0,
            forall|d: nat|
                d > 0 ==> #[trigger] divides_both(d, a as nat, b as nat) == divides_both(
                    d,
                    x as nat,
                    y as nat,
                ),
        decreases x + y,
    {
        if x < y {
            proof {
                assert forall|d: nat| d > 0 implies #[trigger] divides_both(
                    d,
                    a as nat,
                    b as nat,
                ) == divides_both(d, x as nat, (y - x) as nat) by {
                    lemma_difference_keeps_divisors(d, x as nat, y as nat);
                }
            }
            y -= x;
        } else {
            proof {
                assert forall|d: nat| d > 0 implies #[trigger] divides_both(
                    d,
                    a as nat,
                    b as nat,
                ) == divides_both(d, (x - y) as nat, y as nat) by {
                    lemma_difference_keeps_divisors(d, y as nat, x as nat);
                }
            }
            x -= y;
        }
    }
    proof {
        if x == 1 {
            assert forall|d: nat| d >= 2 implies !#[trigger] divides_both(
                d,
                a as nat,
                b as nat,
            ) by {
                lemma_small_mod(1, d);
                assert(!divides_both(d, x as nat, y as nat));
            }
        } else {
            lemma_mod_self_0(x as int);
            assert(divides_both(x as nat, x as nat, y as nat));
            assert(divides_both(x as nat, a as nat, b as nat));
        }
    }
    x == 1
}

} // verus!
