//! The fast-division producer: the same trial division as the remainder
//! producer, over 32-bit integers, with each discovered prime stored next to
//! a precomputed form that tests divisibility by multiplication and shifts
//! instead of hardware division.

use vstd::prelude::*;
use crate::is_prime;
use crate::model::{init_model, lemma_candidate_is_prime, lemma_pull_step_inv, model_inv, pull_step, SieveModel};

verus! {

#[verifier::external_type_specification]
#[verifier::external_body]
pub struct ExPrecomputedDivU32(fastdiv::PrecomputedDivU32);

/// A discovered prime together with its precomputed fast-division form.
/// The two fields are tied together by construction: `make_entry` is the
/// only way to build one.
struct FastEntry {
    value: u32,
    token: fastdiv::PrecomputedDivU32,
}

/// Relies on `fastdiv::FastDiv::precompute_div` for `u32`: a one-time
/// transform of the divisor into a form that later divisibility tests use.
/// The entry records the divisor it was built from.
#[verifier::external_body]
fn make_entry(p: u32) -> (e: FastEntry)
    requires
        p >= 2,
    ensures
        e.value == p,
{
    FastEntry { value: p, token: fastdiv::FastDiv::precompute_div(p) }
}

/// Relies on `fastdiv::FastDiv::is_multiple_of` for `u32`: with a form
/// precomputed from `e.value`, it returns whether `c` is a multiple of
/// `e.value`.
#[verifier::external_body]
fn entry_divides(c: u32, e: &FastEntry) -> (r: bool)
    requires
        e.value >= 2,
    ensures
        r == (c as int % e.value as int == 0),
{
    fastdiv::FastDiv::is_multiple_of(c, e.token)
}

/// The failure of a pull whose candidate would exceed the 32-bit width the
/// fast-division form is built for.
#[derive(Debug, PartialEq, Eq, Structural)]
pub struct OutOfRange;

/// A producer of the primes in ascending order over 32-bit integers, by
/// trial division with precomputed fast-division divisors.
pub struct FastSeive {
    index: u32,
    primes: Vec<FastEntry>,
}

impl View for FastSeive {
    type V = SieveModel;

    closed spec fn view(&self) -> SieveModel {
        SieveModel {
            index: self.index as int,
            primes: self.primes@.map(|_i: int, e: FastEntry| e.value as int),
        }
    }
}

impl FastSeive {
    /// The producer invariant, on the abstract state.
    pub open spec fn wf(&self) -> bool {
        model_inv(self@)
    }

    /// A fresh producer: index 1, no primes found yet.
    pub fn new() -> (s: FastSeive)
        ensures
            s@ == init_model(),
            s.wf(),
    {
        let s = FastSeive { index: 1, primes: Vec::new() };
        proof {
            assert(s@.primes =~= Seq::<int>::empty());
        }
        s
    }

    /// Pull the next prime: the least prime above the current index.
    /// Fails with `OutOfRange` exactly when no prime between the current
    /// index and `u32::MAX` exists, that is, when the next prime would not
    /// fit the 32-bit width; the failure leaves the producer unchanged.
    #[verifier::loop_isolation(false)]
    pub fn next(&mut self) -> (r: Result<u32, OutOfRange>)
        requires
            old(self).wf(),
        ensures
            final(self).wf(),
            pull_step(
                old(self)@,
                final(self)@,
                match r {
                    Ok(p) => Some(p as int),
                    Err(_) => None,
                },
                u32::MAX as int,
            ),
    {
        let ghost pre = *self;
        let mut c = self.index;
        loop
            invariant
                *self == pre,
                self.index <= c,
                forall|q: int| self.index < q <= c ==> !(#[trigger] is_prime(q)),
            decreases u32::MAX - c,
        {
            if c == u32::MAX {
                return Err(OutOfRange);
            }
            c = c + 1;
            let mut i: usize = 0;
            let mut composite = false;
            while i < self.primes.len()
                invariant
                    i <= self.primes.len(),
                    composite ==> !is_prime(c as int),
                    !composite ==> forall|j: int|
                        0 <= j < i ==> c as int % (#[trigger] self@.primes[j]) != 0,
                decreases self.primes.len() - i,
            {
                proof {
                    assert(self.primes@[i as int].value as int == self@.primes[i as int]);
                    assert(2 <= self@.primes[i as int] <= self.index);
                }
                if entry_divides(c, &self.primes[i]) {
                    composite = true;
                    assert(!is_prime(c as int)) by {
                        let p = self.primes@[i as int].value as int;
                        assert(c as int % p == 0);
                        assert(2 <= p && p < c as int);
                    }
                    i = self.primes.len();
                } else {
                    i = i + 1;
                }
            }
            if !composite {
                proof {
                    lemma_candidate_is_prime(self@, c as int);
                }
                let entry = make_entry(c);
                self.primes.push(entry);
                self.index = c;
                proof {
                    assert(self@.primes =~= pre@.primes.push(c as int));
                    lemma_pull_step_inv(pre@, self@, Some(c as int), u32::MAX as int);
                }
                return Ok(c);
            }
        }
    }
}

} // verus!
