//! The remainder-check producer: keeps the primes found so far and tests
//! each candidate by dividing by every one of them.

use vstd::prelude::*;
use crate::is_prime;
use crate::model::{init_model, lemma_candidate_is_prime, lemma_pull_step_inv, model_inv, pull_step, SieveModel};

verus! {

/// A producer of the primes in ascending order, by trial division of each
/// candidate against the primes already found.
pub struct IntSeive {
    index: usize,
    primes: Vec<usize>,
}

impl View for IntSeive {
    type V = SieveModel;

    closed spec fn view(&self) -> SieveModel {
        SieveModel { index: self.index as int, primes: self.primes@.map(|_i: int, p: usize| p as int) }
    }
}

impl IntSeive {
    /// The producer invariant, on the abstract state.
    pub open spec fn wf(&self) -> bool {
        model_inv(self@)
    }

    /// A fresh producer: index 1, no primes found yet.
    pub fn new() -> (s: IntSeive)
        ensures
            s@ == init_model(),
            s.wf(),
    {
        let s = IntSeive { index: 1, primes: Vec::new() };
        proof {
            assert(s@.primes =~= Seq::<int>::empty());
        }
        s
    }

    /// Pull the next prime: the least prime above the current index.
    /// Returns `None` only if no prime at all lies between the current index
    /// and `usize::MAX`, and then leaves the producer unchanged.
    #[verifier::loop_isolation(false)]
    pub fn next(&mut self) -> (r: Option<usize>)
        requires
            old(self).wf(),
        ensures
            final(self).wf(),
            pull_step(
                old(self)@,
                final(self)@,
                match r {
                    Some(p) => Some(p as int),
                    None => None,
                },
                usize::MAX as int,
            ),
    {
        let ghost pre = *self;
        let mut c = self.index;
        loop
            invariant
                *self == pre,
                self.wf(),
                self.index <= c,
                forall|q: int| self.index < q <= c ==> !(#[trigger] is_prime(q)),
            decreases usize::MAX - c,
        {
            if c == usize::MAX {
                return None;
            }
            c = c + 1;
            let mut i: usize = 0;
            let mut composite = false;
            while i < self.primes.len()
                invariant
                    i <= self.primes.len(),
                    composite ==> !is_prime(c as int),
                    !composite ==> forall|j: int|
                        0 <= j < i ==> c as int % (#[trigger] self@.primes[j]) != 0,
                decreases self.primes.len() - i,
            {
                let p = self.primes[i];
                assert(p as int == self@.primes[i as int]);
                assert(2 <= p <= self.index);
                if c % p == 0 {
                    composite = true;
                    assert(!is_prime(c as int)) by {
                        assert(c as int % (p as int) == 0);
                        assert(2 <= p as int && (p as int) < c as int);
                    }
                    i = self.primes.len();
                } else {
                    i = i + 1;
                }
            }
            if !composite {
                proof {
                    lemma_candidate_is_prime(self@, c as int);
                }
                self.primes.push(c);
                self.index = c;
                proof {
                    assert(self@.primes =~= pre@.primes.push(c as int));
                    lemma_pull_step_inv(pre@, self@, Some(c as int), usize::MAX as int);
                }
                return Some(c);
            }
        }
    }
}

} // verus!
