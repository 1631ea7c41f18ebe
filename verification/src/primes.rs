//! Prime numbers: the definition, a test by trial division, and the search
//! for the next prime.

use vstd::arithmetic::div_mod::{lemma_fundamental_div_mod, lemma_mod_multiples_basic};
use vstd::arithmetic::mul::lemma_mul_is_commutative;
use vstd::prelude::*;

verus! {

/// A prime is a number of at least two that no number between two and itself
/// divides.
pub open spec fn is_prime_number(n: nat) -> bool {
    n >= 2 && forall|d: nat| 2 <= d < n ==> #[trigger] (n % d) != 0
}

/// A number that an even number divides is even itself.
pub proof fn lemma_even_divisor(n: nat, d: nat)
    requires
        d >= 2,
        d % 2 == 0,
        n % d == 0,
    ensures
        n % 2 == 0,
{
    let q = n / d;
    let h = d / 2;
    lemma_fundamental_div_mod(n as int, d as int);
    lemma_fundamental_div_mod(d as int, 2);
    assert(n == (h * q) * 2) by (nonlinear_arith)
        requires
            n == d * q,
            d == 2 * h,
    ;
    lemma_mod_multiples_basic((h * q) as int, 2);
}

/// A number of at least two that nothing from two up to some bound divides
/// is prime as soon as the square of the bound exceeds it.
pub proof fn lemma_prime_by_small_divisors(n: nat, bound: nat)
    requires
        n >= 2,
        forall|d: nat| 2 <= d < bound ==> #[trigger] (n % d) != 0,
        bound * bound > n,
    ensures
        is_prime_number(n),
{
    assert forall|d: nat| 2 <= d < n implies #[trigger] (n % d) != 0 by {
        if n % d == 0 {
            let q = n / d;
            lemma_fundamental_div_mod(n as int, d as int);
            assert(n == d * q);
            assert(q >= 2) by (nonlinear_arith)
                requires
                    n == d * q,
                    2 <= d < n,
                    q >= 0,
            ;
            lemma_mul_is_commutative(d as int, q as int);
            lemma_mod_multiples_basic(d as int, q as int);
            assert(n % q == 0);
            if d >= bound {
                assert(q < bound) by (nonlinear_arith)
                    requires
                        n == d * q,
                        d >= bound,
                        bound * bound > n,
                        q >= 0,
                ;
                assert(n % q != 0);
            }
        }
    }
}

/// Decides whether `a` is prime: two is, no other even number is, and an odd
/// number is unless an odd number up to its square root divides it.
pub fn trial_division(a: u32) -> (prime: bool)
    ensures
        prime == is_prime_number(a as nat),
{
    if a == 2 {
        assert(is_prime_number(2)) by {
            assert forall|d: nat| 2 <= d < 2 implies #[trigger] (2nat % d) != 0 by {}
        }
        return true;
    }
    if a < 2 || a % 2 == 0 {
        assert(!is_prime_number(a as nat)) by {
            if a >= 2 {
                assert((a as nat) % 2nat == 0);
            }
        }
        return false;
    }
    let n: u64 = a as u64;
    let mut d: u64 = 3;
    while d * d <= n
        invariant
            n == a,
            n >= 3,
            n % 2 == 1,
            3 <= d <= 65537,
            d * d <= 4295098369,
            d % 2 == 1,
            forall|k: nat| 2 <= k < d ==> #[trigger] ((n as nat) % k) != 0,
        decreases 65537 - d,
    {
        if n % d == 0 {
            assert(!is_prime_number(n as nat)) by {
                assert((n as nat) % (d as nat) == 0);
                assert(d < n) by (nonlinear_arith)
                    requires
                        d * d <= n,
                        d >= 3,
                ;
            }
            return false;
        }
        proof {
            assert(d <= 65535) by (nonlinear_arith)
                requires
                    d * d <= n,
                    n <= 0xffff_ffff,
                    d >= 0,
            ;
            assert forall|k: nat| 2 <= k < d + 2 implies #[trigger] ((n as nat) % k) != 0 by {
                if k == d + 1 {
                    if (n as nat) % k == 0 {
                        lemma_even_divisor(n as nat, k);
                    }
                }
            }
        }
        d = d + 2;
        assert(d * d <= 4295098369) by (nonlinear_arith)
            requires
                0 <= d <= 65537,
        ;
    }
    proof {
        lemma_prime_by_small_divisors(n as nat, d as nat);
    }
    true
}

/// Decides whether `a` is prime.
pub fn is_prime(a: u16) -> (prime: bool)
    ensures
        prime == is_prime_number(a as nat),
{
    trial_division(a as u32)
}

/// The smallest prime above `x`, as far as sixteen bits hold one.
pub fn next_prime(x: u16) -> (next: Option<u16>)
    ensures
        match next {
            Some(p) => p > x && is_prime_number(p as nat) && forall|k: nat|
                x < k < p ==> !is_prime_number(k),
            None => forall|k: nat| x < k <= u16::MAX ==> !is_prime_number(k),
        },
{
    let mut next: u32 = x as u32 + 1;
    while next <= 65535 && !is_prime(next as u16)
        invariant
            x < next <= 65536,
            forall|k: nat| x < k < next ==> !is_prime_number(k),
        decreases 65536 - next,
    {
        next += 1;
    }
    if next > 65535 {
        return None;
    }
    Some(next as u16)
}

/// Decides whether `a` is prime.
pub fn prime(a: u32) -> (prime: bool)
    ensures
        prime == is_prime_number(a as nat),
{
    trial_division(a)
}

} // verus!
