//! A cache of primality: numbers that were asked about, each with the answer.

use crate::primes::{is_prime_number, trial_division};
use std::collections::HashMap;
use vstd::prelude::*;

verus! {

/// Numbers that were stored, each with whether it is prime.
pub struct Cache {
    pairs: HashMap<u32, bool>,
}

impl View for Cache {
    type V = Map<u32, bool>;

    closed spec fn view(&self) -> Map<u32, bool> {
        self.pairs@
    }
}

/// Decides whether `a` is prime.
pub fn is_prime(a: u32) -> (prime: bool)
    ensures
        prime == is_prime_number(a as nat),
{
    trial_division(a)
}

impl Cache {
    /// The cache's invariant: what is stored for a number is whether the
    /// number is prime.
    pub open spec fn wf(&self) -> bool {
        forall|n: u32| #[trigger] self@.contains_key(n) ==> self@[n] == is_prime_number(n as nat)
    }

    /// An empty cache.
    pub fn new() -> (cache: Self)
        ensures
            cache.wf(),
            cache@ == Map::<u32, bool>::empty(),
    {
        Self { pairs: HashMap::new() }
    }

    /// Whether `number` was stored.
    pub fn is_stored(&self, number: u32) -> (stored: bool)
        ensures
            stored == self@.contains_key(number),
    {
        broadcast use vstd::std_specs::hash::group_hash_axioms;

        self.pairs.contains_key(&number)
    }

    /// What the cache knows of `number`: whether it is prime where it was
    /// stored, and `false` where it was not.
    pub fn get_primality(&self, number: u32) -> (prime: bool)
        ensures
            prime == (self@.contains_key(number) && self@[number]),
            self.wf() ==> prime == (self@.contains_key(number) && is_prime_number(number as nat)),
    {
        broadcast use vstd::std_specs::hash::group_hash_axioms;

        match self.pairs.get(&number) {
            Some(b) => *b,
            None => false,
        }
    }

    /// Stores `number` with whether it is prime.
    pub fn store(&mut self, number: u32)
        requires
            old(self).wf(),
        ensures
            final(self).wf(),
            final(self)@ == old(self)@.insert(number, is_prime_number(number as nat)),
    {
        broadcast use vstd::std_specs::hash::group_hash_axioms;

        self.pairs.insert(number, is_prime(number));
    }
}

} // verus!
