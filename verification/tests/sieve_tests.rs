use bench_rust::sieve::{sieve_of_eratosthenes, SIEVE_SIZE};

/// Trial division: the trusted reference for a sampled index range.
fn is_prime_naive(n: usize) -> bool {
    if n < 2 {
        return false;
    }
    let mut d = 2;
    while d * d <= n {
        if n % d == 0 {
            return false;
        }
        d += 1;
    }
    true
}

#[test]
fn kernel_len_and_first_two_false() {
    let flags = sieve_of_eratosthenes();
    assert_eq!(flags.len(), SIEVE_SIZE);
    assert!(!flags[0]);
    assert!(!flags[1]);
}

#[test]
fn kernel_matches_trial_division_low_range() {
    let flags = sieve_of_eratosthenes();
    for i in 0..5000 {
        assert_eq!(flags[i], is_prime_naive(i), "mismatch at {}", i);
    }
}

#[test]
fn kernel_matches_trial_division_high_range() {
    let flags = sieve_of_eratosthenes();
    for i in 999_000..SIEVE_SIZE {
        assert_eq!(flags[i], is_prime_naive(i), "mismatch at {}", i);
    }
}

#[test]
fn kernel_known_primes_and_composites() {
    let flags = sieve_of_eratosthenes();
    for p in [2, 3, 5, 7, 97, 7919, 104729, 999983] {
        assert!(flags[p], "{} should be prime", p);
    }
    for c in [4, 9, 100, 6859, 999981, 999999] {
        assert!(!flags[c], "{} should be composite", c);
    }
}
