//! The counter-based producer: keeps, for each prime found so far, a lazily
//! advanced counter holding an unexamined multiple of that prime, and
//! rejects a candidate when some counter catches it exactly.

use vstd::prelude::*;
use crate::is_prime;
use vstd::arithmetic::div_mod::{lemma_mod_add_multiples_vanish, lemma_mod_self_0};
use crate::arith::{lemma_multiple_in_window, lemma_no_multiple_between};
use crate::model::{
    init_model, lemma_candidate_is_prime, lemma_pull_step_inv, model_inv, pull_step, SieveModel,
};

verus! {

/// One per-prime counter: multiples of `n`, the next unexamined one being
/// `count`. Advanced by steps of `n`, only as far as the candidate under
/// test requires.
struct NSeive {
    n: usize,
    count: usize,
}

impl NSeive {
    /// A fresh counter for `n`, positioned at `n` itself.
    fn new(n: usize) -> (s: NSeive)
        ensures
            s.n == n,
            s.count == n,
    {
        NSeive { n, count: n }
    }
}

/// A producer of the primes in ascending order, keeping one multiple
/// counter per prime found.
pub struct PrimeSeive {
    index: usize,
    seives: Vec<NSeive>,
}

impl View for PrimeSeive {
    type V = SieveModel;

    closed spec fn view(&self) -> SieveModel {
        SieveModel {
            index: self.index as int,
            primes: self.seives@.map(|_i: int, s: NSeive| s.n as int),
        }
    }
}

impl PrimeSeive {
    /// A counter holds a positive multiple of its prime, no further along
    /// than one full step past the last examined candidate `c`.
    spec fn counter_ok(s: NSeive, c: int) -> bool {
        &&& s.count as int % s.n as int == 0
        &&& s.n <= s.count
        &&& s.count as int <= c + s.n as int
    }

    /// While candidate `c` itself is being tested, a counter is never more
    /// than one step beyond it: it lies in the window `[c, c + n - 1]` once
    /// caught up, or still behind `c`.
    spec fn counter_window(s: NSeive, c: int) -> bool {
        &&& s.count as int % s.n as int == 0
        &&& s.n <= s.count
        &&& s.count as int <= c + s.n as int - 1
    }

    /// The producer invariant: the abstract invariant, plus the per-counter
    /// positions relative to the current index.
    pub closed spec fn wf(&self) -> bool {
        &&& model_inv(self@)
        &&& forall|k: int|
            0 <= k < self.seives@.len() ==> Self::counter_ok(#[trigger] self.seives@[k], self.index as int)
    }

    /// A fresh producer: index 1, no counters yet.
    pub fn new() -> (s: PrimeSeive)
        ensures
            s@ == init_model(),
            s.wf(),
    {
        let s = PrimeSeive { index: 1, seives: Vec::new() };
        proof {
            assert(s@.primes =~= Seq::<int>::empty());
        }
        s
    }

    /// Pull the next prime: the least prime above the current index.
    /// Returns `None` only if no prime at all lies between the current index
    /// and `usize::MAX`, and then leaves the producer's abstract state
    /// unchanged.
    #[verifier::loop_isolation(false)]
    pub fn next(&mut self) -> (r: Option<usize>)
        requires
            old(self).wf(),
        ensures
            final(self).wf(),
            pull_step(
                old(self)@,
                final(self)@,
                match r {
                    Some(p) => Some(p as int),
                    None => None,
                },
                usize::MAX as int,
            ),
    {
        let ghost pre = *self;
        let mut c = self.index;
        loop
            invariant
                self.index == pre.index,
                self@ == pre@,
                self.index <= c,
                forall|q: int| self.index < q <= c ==> !(#[trigger] is_prime(q)),
                forall|k: int|
                    0 <= k < self.seives@.len() ==> Self::counter_ok(
                        #[trigger] self.seives@[k],
                        c as int,
                    ),
            decreases usize::MAX - c,
        {
            if c == usize::MAX {
                // No prime fits below the integer width. Rewind every
                // counter to its own prime so the invariant holds again
                // relative to the unchanged index, and report failure.
                proof {
                    assert forall|k: int| 0 <= k < self.seives@.len() implies (
                    #[trigger] self.seives@[k]).n >= 2 by {
                        assert(self@.primes[k] == self.seives@[k].n as int);
                        assert(is_prime(self@.primes[k]));
                    }
                }
                let mut i: usize = 0;
                while i < self.seives.len()
                    invariant
                        i <= self.seives@.len(),
                        self@ == pre@,
                        self.index == pre.index,
                        forall|k: int|
                            0 <= k < i ==> Self::counter_ok(
                                #[trigger] self.seives@[k],
                                self.index as int,
                            ),
                        forall|k: int|
                            i <= k < self.seives@.len() ==> (#[trigger] self.seives@[k]).n >= 2,
                    decreases self.seives@.len() - i,
                {
                    let n = self.seives[i].n;
                    self.seives[i].count = n;
                    proof {
                        lemma_mod_self_0(n as int);
                        assert(self@.primes =~= pre@.primes);
                    }
                    i = i + 1;
                }
                return None;
            }
            c = c + 1;
            let mut i: usize = 0;
            let mut composite = false;
            while i < self.seives.len()
                invariant
                    i <= self.seives@.len(),
                    self.index < c,
                    self@ == pre@,
                    self.index == pre.index,
                    forall|k: int|
                        0 <= k < self.seives@.len() ==> Self::counter_window(
                            #[trigger] self.seives@[k],
                            c as int,
                        ),
                    composite ==> !is_prime(c as int),
                    !composite ==> forall|j: int|
                        0 <= j < i ==> c as int % (#[trigger] self@.primes[j]) != 0,
                decreases self.seives@.len() - i,
            {
                let n = self.seives[i].n;
                let mut cnt = self.seives[i].count;
                proof {
                    assert(n as int == self@.primes[i as int]);
                    assert(is_prime(n as int) && n <= self.index);
                }
                let mut skip = false;
                // Catch this counter up: advance it in steps of `n` while it
                // is behind the candidate. If the next step would not fit in
                // the integer width, the counter cannot reach the candidate
                // and `n` does not divide it.
                while cnt < c && !skip
                    invariant
                        cnt as int % n as int == 0,
                        n <= cnt,
                        cnt as int <= c as int + n as int - 1,
                        skip ==> c as int % n as int != 0 && cnt < c,
                    decreases (if skip { 0int } else { 1int }), c as int + n as int - cnt as int,
                {
                    if cnt > usize::MAX - n {
                        skip = true;
                        proof {
                            lemma_no_multiple_between(cnt as int, c as int, n as int);
                        }
                    } else {
                        cnt = cnt + n;
                        proof {
                            lemma_mod_add_multiples_vanish(cnt as int - n as int, n as int);
                        }
                    }
                }
                self.seives[i].count = cnt;
                proof {
                    assert(self@.primes =~= pre@.primes);
                }
                if !skip && cnt == c {
                    composite = true;
                    proof {
                        assert(c as int % n as int == 0);
                        assert(2 <= n as int && (n as int) < c as int);
                        assert(!is_prime(c as int));
                    }
                    i = self.seives.len();
                } else {
                    proof {
                        if !skip {
                            lemma_multiple_in_window(cnt as int, c as int, n as int);
                        }
                        assert(c as int % n as int != 0);
                    }
                    i = i + 1;
                }
            }
            if !composite {
                proof {
                    lemma_candidate_is_prime(self@, c as int);
                }
                self.seives.push(NSeive::new(c));
                self.index = c;
                proof {
                    lemma_mod_self_0(c as int);
                    assert(self@.primes =~= pre@.primes.push(c as int));
                    lemma_pull_step_inv(pre@, self@, Some(c as int), usize::MAX as int);
                }
                return Some(c);
            }
        }
    }
}

} // verus!
