use prime_sieve::FastSeive;
use prime_sieve::IntSeive;
use prime_sieve::PrimeSeive;

#[test]
fn first_ten_primes() {
    let mut s = PrimeSeive::new();
    let mut primes: Vec<usize> = vec![];
    for _ in 0..10 {
        primes.push(s.next().unwrap());
    }

    assert_eq!(primes, vec!(2, 3, 5, 7, 11, 13, 17, 19, 23, 29));
}

#[test]
fn first_ten_primes_int() {
    let mut s = IntSeive::new();
    let mut primes: Vec<usize> = vec![];
    for _ in 0..10 {
        primes.push(s.next().unwrap());
    }

    assert_eq!(primes, vec!(2, 3, 5, 7, 11, 13, 17, 19, 23, 29));
}

#[test]
fn first_ten_primes_fast() {
    let mut s = FastSeive::new();
    let mut vec: Vec<u32> = vec![];
    for _ in 0..10 {
        vec.push(s.next().unwrap());
    }

    assert_eq!(vec, vec!(2, 3, 5, 7, 11, 13, 17, 19, 23, 29));
}

#[test]
fn strictly_increasing_first_two_hundred() {
    let mut counter = PrimeSeive::new();
    let mut modular = IntSeive::new();
    let mut fast = FastSeive::new();
    let mut prev_counter = 1usize;
    let mut prev_modular = 1usize;
    let mut prev_fast = 1u32;
    for _ in 0..200 {
        let p = counter.next().unwrap();
        assert!(p > prev_counter);
        prev_counter = p;

        let q = modular.next().unwrap();
        assert!(q > prev_modular);
        prev_modular = q;

        let r = fast.next().unwrap();
        assert!(r > prev_fast);
        prev_fast = r;
    }
}

#[test]
fn no_pulled_value_divides_a_later_one() {
    let mut s = IntSeive::new();
    let mut pulled: Vec<usize> = vec![];
    for _ in 0..100 {
        pulled.push(s.next().unwrap());
    }
    for i in 0..pulled.len() {
        for j in (i + 1)..pulled.len() {
            assert!(pulled[j] % pulled[i] != 0);
        }
    }
}

#[test]
fn cross_variant_equivalence_first_thousand() {
    let mut counter = PrimeSeive::new();
    let mut modular = IntSeive::new();
    let mut fast = FastSeive::new();
    for _ in 0..1000 {
        let a = counter.next().unwrap();
        let b = modular.next().unwrap();
        let c = fast.next().unwrap();
        assert_eq!(a, b);
        assert_eq!(b, c as usize);
    }
}

#[test]
fn fresh_producers_are_independent() {
    let mut first = PrimeSeive::new();
    let mut second = PrimeSeive::new();
    for _ in 0..100 {
        assert_eq!(first.next().unwrap(), second.next().unwrap());
    }

    let mut third = IntSeive::new();
    let mut fourth = IntSeive::new();
    for _ in 0..100 {
        assert_eq!(third.next().unwrap(), fourth.next().unwrap());
    }

    let mut fifth = FastSeive::new();
    let mut sixth = FastSeive::new();
    for _ in 0..100 {
        assert_eq!(fifth.next().unwrap(), sixth.next().unwrap());
    }

    // The producers advanced in lockstep, so they still agree.
    assert_eq!(first.next().unwrap(), second.next().unwrap());
}

#[test]
fn thousandth_prime_is_exact() {
    let mut s = IntSeive::new();
    let mut p = 0usize;
    for _ in 0..1000 {
        p = s.next().unwrap();
    }
    assert_eq!(p, 7919);
}
