//! The abstract model shared by all three producers: the state a producer
//! exposes, the invariant it keeps, the relation one pull establishes, and
//! the laws that follow for whole runs of pulls.

use vstd::prelude::*;
use crate::is_prime;
use crate::arith::{lemma_no_prime_factor_below_means_prime, lemma_prime_mod_prime_nonzero};

verus! {

/// Abstract state of an ascending-prime producer: the largest integer
/// examined so far, and the primes emitted so far in the order they were
/// emitted.
pub struct SieveModel {
    pub index: int,
    pub primes: Seq<int>,
}

/// The state of a freshly constructed producer: nothing examined beyond 1,
/// nothing emitted.
pub open spec fn init_model() -> SieveModel {
    SieveModel { index: 1, primes: Seq::empty() }
}

/// The producer invariant: the emitted values are exactly the primes up to
/// the current index, in ascending order.
pub open spec fn model_inv(m: SieveModel) -> bool {
    &&& m.index >= 1
    &&& forall|i: int|
        0 <= i < m.primes.len() ==> is_prime(#[trigger] m.primes[i]) && m.primes[i] <= m.index
    &&& forall|i: int, j: int| 0 <= i < j < m.primes.len() ==> m.primes[i] < m.primes[j]
    &&& forall|q: int| 2 <= q <= m.index && is_prime(q) ==> #[trigger] m.primes.contains(q)
}

/// `p` is the least prime strictly greater than `i`.
pub open spec fn is_next_prime(i: int, p: int) -> bool {
    &&& is_prime(p)
    &&& i < p
    &&& forall|q: int| i < q < p ==> !(#[trigger] is_prime(q))
}

/// What one pull does. A pull that returns `Some(p)` emits the least prime
/// above the pre-state index, which is at most `bound`, advances the index
/// to it and appends it to the emitted primes. A pull returns `None` exactly
/// when no prime lies in `(index, bound]`, and then leaves the state
/// unchanged.
pub open spec fn pull_step(pre: SieveModel, post: SieveModel, r: Option<int>, bound: int) -> bool {
    match r {
        Some(p) => {
            &&& is_next_prime(pre.index, p)
            &&& p <= bound
            &&& post.index == p
            &&& post.primes == pre.primes.push(p)
        },
        None => {
            &&& post == pre
            &&& forall|q: int| pre.index < q <= bound ==> !(#[trigger] is_prime(q))
        },
    }
}

/// `ps` is a sequence of values that successive successful pulls, starting
/// from state `m`, can emit.
pub open spec fn pulls_to(m: SieveModel, ps: Seq<int>, bound: int) -> bool
    decreases ps.len(),
{
    ps.len() == 0 || (exists|m1: SieveModel|
        #[trigger] pull_step(m, m1, Some(ps[0]), bound) && pulls_to(
            m1,
            ps.subrange(1, ps.len() as int),
            bound,
        ))
}

/// The empty run is a run from any state.
pub proof fn lemma_pulls_to_empty(m: SieveModel, bound: int)
    ensures
        pulls_to(m, Seq::empty(), bound),
{
}

/// Prepending one successful pull to a run gives a run.
pub proof fn lemma_pulls_to_cons(m: SieveModel, m1: SieveModel, p: int, tail: Seq<int>, bound: int)
    requires
        pull_step(m, m1, Some(p), bound),
        pulls_to(m1, tail, bound),
    ensures
        pulls_to(m, seq![p] + tail, bound),
{
    let ps = seq![p] + tail;
    assert(ps[0] == p);
    assert(ps.subrange(1, ps.len() as int) =~= tail);
}

/// A pull preserves the producer invariant.
pub proof fn lemma_pull_step_inv(pre: SieveModel, post: SieveModel, r: Option<int>, bound: int)
    requires
        model_inv(pre),
        pull_step(pre, post, r, bound),
    ensures
        model_inv(post),
{
    match r {
        Some(p) => {
            assert forall|q: int| 2 <= q <= post.index && is_prime(q) implies #[trigger] post
                .primes.contains(q) by {
                if q <= pre.index {
                    assert(pre.primes.contains(q));
                    let i = choose|i: int| 0 <= i < pre.primes.len() && pre.primes[i] == q;
                    assert(post.primes[i] == q);
                } else if q < p {
                    assert(!is_prime(q));
                } else {
                    assert(post.primes[pre.primes.len() as int] == q);
                }
            }
        },
        None => {},
    }
}

/// The completeness step of trial division: if the producer invariant holds
/// at `m`, every integer strictly between `m.index` and `c` is composite,
/// and no prime already found divides `c`, then `c` is prime.
pub proof fn lemma_candidate_is_prime(m: SieveModel, c: int)
    requires
        model_inv(m),
        m.index < c,
        forall|q: int| m.index < q < c ==> !(#[trigger] is_prime(q)),
        forall|j: int| 0 <= j < m.primes.len() ==> c % (#[trigger] m.primes[j]) != 0,
    ensures
        is_prime(c),
{
    assert forall|p: int| is_prime(p) && p < c implies #[trigger] (c % p) != 0 by {
        assert(p <= m.index);
        assert(m.primes.contains(p));
        let j = choose|j: int| 0 <= j < m.primes.len() && m.primes[j] == p;
        assert(c % m.primes[j] != 0);
    }
    lemma_no_prime_factor_below_means_prime(c);
}

/// A pull that fails leaves the producer's state exactly as it was.
pub proof fn lemma_failed_pull_preserves_state(pre: SieveModel, post: SieveModel, bound: int)
    requires
        pull_step(pre, post, None, bound),
    ensures
        post == pre,
{
}

/// One pull is determined by the pre-state: two pulls from the same state,
/// against the same bound, return the same value and end in the same state.
pub proof fn lemma_pull_deterministic(
    pre: SieveModel,
    post1: SieveModel,
    r1: Option<int>,
    post2: SieveModel,
    r2: Option<int>,
    bound: int,
)
    requires
        pull_step(pre, post1, r1, bound),
        pull_step(pre, post2, r2, bound),
    ensures
        r1 == r2,
        post1 == post2,
{
    lemma_pull_bound_relate(pre, post1, r1, bound, post2, r2, bound);
}

/// Widening the bound does not change a pull that succeeds: a value found
/// under the narrow bound is also the value found under the wide one.
pub proof fn lemma_pull_bound_relate(
    pre: SieveModel,
    post1: SieveModel,
    r1: Option<int>,
    b1: int,
    post2: SieveModel,
    r2: Option<int>,
    b2: int,
)
    requires
        pull_step(pre, post1, r1, b1),
        pull_step(pre, post2, r2, b2),
        b1 <= b2,
        r1 is Some || r2 is None,
    ensures
        r1 == r2,
        post1 == post2,
{
    match (r1, r2) {
        (Some(p1), Some(p2)) => {
            if p1 < p2 {
                assert(!is_prime(p1));
            }
            if p2 < p1 {
                assert(!is_prime(p2));
            }
        },
        (Some(p1), None) => {
            assert(pre.index < p1 <= b2);
            assert(!is_prime(p1));
        },
        (None, Some(p2)) => {},
        (None, None) => {},
    }
}

/// Success is owed: a pull may fail only when no prime at all lies between
/// the index and the bound. One prime within the bound forces success.
pub proof fn lemma_pull_owed_success(
    pre: SieveModel,
    post: SieveModel,
    r: Option<int>,
    bound: int,
    q: int,
)
    requires
        pull_step(pre, post, r, bound),
        is_prime(q),
        pre.index < q <= bound,
    ensures
        r is Some,
{
}

/// The width boundary of a 32-bit producer. Once the index has reached
/// 4294967291, the largest prime that fits 32 bits, a further pull against
/// the 32-bit bound is owed to fail, and the failure leaves the state
/// exactly as it was: none of the four integers above that prime and within
/// the width is prime.
pub proof fn lemma_pull_past_width_boundary_fails(
    m: SieveModel,
    post: SieveModel,
    r: Option<int>,
    bound: int,
)
    requires
        pull_step(m, post, r, bound),
        m.index >= 4294967291,
        bound <= u32::MAX as int,
    ensures
        r is None,
        post == m,
{
    if let Some(p) = r {
        assert(4294967291 < p <= 4294967295);
        if p == 4294967292 {
            assert(p % 2 == 0);
        } else if p == 4294967293 {
            assert(p % 9241 == 0);
        } else if p == 4294967294 {
            assert(p % 2 == 0);
        } else {
            assert(p % 3 == 0);
        }
        assert(!is_prime(p));
    }
}

/// Along any run, every emitted value is a prime above the starting
/// index, and the emitted values are strictly increasing.
pub proof fn lemma_pulls_increasing(m: SieveModel, ps: Seq<int>, bound: int)
    requires
        pulls_to(m, ps, bound),
    ensures
        forall|i: int| 0 <= i < ps.len() ==> is_prime(#[trigger] ps[i]) && m.index < ps[i],
        forall|i: int, j: int| 0 <= i < j < ps.len() ==> ps[i] < ps[j],
    decreases ps.len(),
{
    if ps.len() > 0 {
        let tail = ps.subrange(1, ps.len() as int);
        let m1 = choose|m1: SieveModel|
            #[trigger] pull_step(m, m1, Some(ps[0]), bound) && pulls_to(m1, tail, bound);
        lemma_pulls_increasing(m1, tail, bound);
        assert forall|i: int| 0 <= i < ps.len() implies is_prime(#[trigger] ps[i]) && m.index
            < ps[i] by {
            if i > 0 {
                assert(tail[i - 1] == ps[i]);
            }
        }
        assert forall|i: int, j: int| 0 <= i < j < ps.len() implies ps[i] < ps[j] by {
            assert(tail[j - 1] == ps[j]);
            if i > 0 {
                assert(tail[i - 1] == ps[i]);
            }
        }
    }
}

/// Along any run, no emitted value divides a later emitted value.
pub proof fn lemma_pulls_coprime(m: SieveModel, ps: Seq<int>, bound: int)
    requires
        pulls_to(m, ps, bound),
    ensures
        forall|i: int, j: int| 0 <= i < j < ps.len() ==> #[trigger] (ps[j] % ps[i]) != 0,
{
    lemma_pulls_increasing(m, ps, bound);
    assert forall|i: int, j: int| 0 <= i < j < ps.len() implies #[trigger] (ps[j] % ps[i])
        != 0 by {
        lemma_prime_mod_prime_nonzero(ps[j], ps[i]);
    }
}

/// Runs are determined by the start state alone. Two runs of the
/// same length from one state emit the same values, even under different
/// bounds, as long as both runs succeeded throughout.
pub proof fn lemma_pulls_deterministic(m: SieveModel, ps1: Seq<int>, b1: int, ps2: Seq<int>, b2: int)
    requires
        pulls_to(m, ps1, b1),
        pulls_to(m, ps2, b2),
        b1 <= b2,
        ps1.len() == ps2.len(),
    ensures
        ps1 == ps2,
    decreases ps1.len(),
{
    if ps1.len() > 0 {
        let tail1 = ps1.subrange(1, ps1.len() as int);
        let tail2 = ps2.subrange(1, ps2.len() as int);
        let m1 = choose|m1: SieveModel|
            #[trigger] pull_step(m, m1, Some(ps1[0]), b1) && pulls_to(m1, tail1, b1);
        let m2 = choose|m2: SieveModel|
            #[trigger] pull_step(m, m2, Some(ps2[0]), b2) && pulls_to(m2, tail2, b2);
        lemma_pull_bound_relate(m, m1, Some(ps1[0]), b1, m2, Some(ps2[0]), b2);
        lemma_pulls_deterministic(m1, tail1, b1, tail2, b2);
        assert forall|i: int| 0 <= i < ps1.len() implies ps1[i] == ps2[i] by {
            if i > 0 {
                assert(tail1[i - 1] == ps1[i]);
                assert(tail2[i - 1] == ps2[i]);
            }
        }
        assert(ps1 =~= ps2);
    } else {
        assert(ps1 =~= ps2);
    }
}

} // verus!
