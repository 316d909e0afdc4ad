//! Divisibility facts used by the trial-division proofs: transitivity of
//! divisibility, the gap between consecutive multiples, and the existence of
//! prime factors.

use vstd::prelude::*;
use vstd::arithmetic::div_mod::{
    lemma_fundamental_div_mod, lemma_mod_multiples_basic, lemma_mod_self_0,
};
use vstd::arithmetic::mul::lemma_mul_is_associative;
use crate::is_prime;

verus! {

/// Divisibility is transitive: if `c` divides `b` and `b` divides `a`,
/// then `c` divides `a`.
pub proof fn lemma_mod_transitive(a: int, b: int, c: int)
    requires
        a >= 0,
        b >= 1,
        c >= 1,
        a % b == 0,
        b % c == 0,
    ensures
        a % c == 0,
{
    let k = a / b;
    let m = b / c;
    lemma_fundamental_div_mod(a, b);
    lemma_fundamental_div_mod(b, c);
    assert(a == (c * m) * k);
    assert((c * m) * k == (m * k) * c) by {
        lemma_mul_is_associative(c, m, k);
    }
    lemma_mod_multiples_basic(m * k, c);
}

/// Two distinct multiples of `n` are at least `n` apart.
pub proof fn lemma_multiple_gap(a: int, b: int, n: int)
    requires
        n >= 1,
        0 <= a < b,
        a % n == 0,
        b % n == 0,
    ensures
        a + n <= b,
{
    lemma_fundamental_div_mod(a, n);
    lemma_fundamental_div_mod(b, n);
    let qa = a / n;
    let qb = b / n;
    assert(qa < qb) by (nonlinear_arith)
        requires
            n >= 1,
            a == n * qa,
            b == n * qb,
            a < b,
    ;
    assert(n * qa + n <= n * qb) by (nonlinear_arith)
        requires
            n >= 1,
            qa < qb,
    ;
}

/// In a window of `n` consecutive integers starting at `c`, the one multiple
/// of `n` it contains is `c` itself exactly when `n` divides `c`.
pub proof fn lemma_multiple_in_window(count: int, c: int, n: int)
    requires
        n >= 1,
        0 <= c <= count <= c + n - 1,
        count % n == 0,
    ensures
        (count == c) <==> (c % n == 0),
{
    if c % n == 0 && count != c {
        lemma_multiple_gap(c, count, n);
    }
}

/// No multiple of `n` lies strictly between the multiple `count` and
/// `count + n`.
pub proof fn lemma_no_multiple_between(count: int, c: int, n: int)
    requires
        n >= 1,
        0 <= count < c < count + n,
        count % n == 0,
    ensures
        c % n != 0,
{
    if c % n == 0 {
        lemma_multiple_gap(count, c, n);
    }
}

/// Every integer at least 2 has a prime factor no larger than itself.
pub proof fn lemma_has_prime_factor(n: int) -> (p: int)
    requires
        n >= 2,
    ensures
        is_prime(p),
        2 <= p <= n,
        n % p == 0,
    decreases n,
{
    if is_prime(n) {
        lemma_mod_self_0(n);
        n
    } else {
        let d = choose|d: int| 2 <= d < n && #[trigger] (n % d) == 0;
        let p = lemma_has_prime_factor(d);
        lemma_mod_transitive(n, d, p);
        p
    }
}

/// An integer at least 2 that no smaller prime divides is itself prime.
pub proof fn lemma_no_prime_factor_below_means_prime(n: int)
    requires
        n >= 2,
        forall|p: int| is_prime(p) && p < n ==> #[trigger] (n % p) != 0,
    ensures
        is_prime(n),
{
    if !is_prime(n) {
        let d = choose|d: int| 2 <= d < n && #[trigger] (n % d) == 0;
        let p = lemma_has_prime_factor(d);
        lemma_mod_transitive(n, d, p);
        assert(n % p != 0);
        assert(false);
    }
}

/// A prime is not divisible by any smaller prime.
pub proof fn lemma_prime_mod_prime_nonzero(p: int, q: int)
    requires
        is_prime(p),
        is_prime(q),
        q < p,
    ensures
        p % q != 0,
{
    assert(2 <= q < p);
}

} // verus!
