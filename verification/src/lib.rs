//! Lazy, pull-based generators of the ascending sequence of prime numbers.
//!
//! Three independent producers implement the same contract by incremental
//! trial division against the primes found so far:
//! [`PrimeSeive`](counter_sieve::PrimeSeive) keeps one lazily advanced
//! multiple counter per discovered prime, [`IntSeive`](mod_sieve::IntSeive)
//! keeps the discovered primes and tests candidates with a remainder check,
//! and [`FastSeive`](fast_sieve::FastSeive) does the same with divisors
//! preprocessed for fast division, over 32-bit integers.
//!
//! All three are specified against one abstract model,
//! [`SieveModel`](model::SieveModel): each pull emits the least prime above
//! the current index and appends it to the witness list.

use vstd::prelude::*;

pub mod arith;
pub mod model;
pub mod counter_sieve;
pub mod mod_sieve;
pub mod fast_sieve;

pub use counter_sieve::PrimeSeive;
pub use fast_sieve::FastSeive;
pub use fast_sieve::OutOfRange;
pub use mod_sieve::IntSeive;

verus! {

/// `n` is prime: at least 2, and no integer strictly between 1 and `n`
/// divides it.
pub open spec fn is_prime(n: int) -> bool {
    n >= 2 && forall|d: int| 2 <= d < n ==> #[trigger] (n % d) != 0
}

} // verus!
