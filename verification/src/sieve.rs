//! The sieve kernel: primality flags for every integer below a fixed bound.

use vstd::prelude::*;

verus! {

use vstd::arithmetic::div_mod::lemma_fundamental_div_mod;
use vstd::arithmetic::div_mod::lemma_mod_multiples_basic;

/// Upper bound of the sieve range: flags are computed for 0..SIEVE_SIZE.
pub const SIEVE_SIZE: usize = 1_000_000;

/// Bound on the marking passes. It is kept hardcoded, as an approximation of
/// the square root of SIEVE_SIZE; the correctness proof below rests on
/// SQRT_LIMIT * SQRT_LIMIT >= SIEVE_SIZE.
pub const SQRT_LIMIT: usize = 1_000;

/// n is prime: at least 2, and no integer in [2, n) divides it.
pub open spec fn is_prime(n: int) -> bool {
    n >= 2 && forall|d: int| 2 <= d < n ==> #[trigger] (n % d) != 0
}

/// n has a divisor d with 2 <= d < bound whose square does not exceed n.
/// This is exactly the set of numbers a sieve with marking passes for
/// 2 <= i < bound (each starting at i * i) strikes out.
pub open spec fn has_marked_factor(n: int, bound: int) -> bool {
    exists|d: int| 2 <= d < bound && #[trigger] (n % d) == 0 && d * d <= n
}

/// Divisibility carries across a chain: if d divides i and i divides n,
/// then d divides n.
proof fn lemma_divides_transitive(d: int, i: int, n: int)
    requires
        0 < d,
        0 < i,
        i % d == 0,
        n % i == 0,
    ensures
        n % d == 0,
{
    lemma_fundamental_div_mod(i, d);
    lemma_fundamental_div_mod(n, i);
    let a = i / d;
    let b = n / i;
    assert(n == (a * b) * d) by (nonlinear_arith)
        requires
            i == d * a,
            n == i * b,
    ;
    lemma_mod_multiples_basic(a * b, d);
}

/// Two multiples of i that lie within a window shorter than i coincide.
proof fn lemma_multiple_in_window(n: int, j: int, i: int)
    requires
        0 < i,
        n % i == 0,
        j % i == 0,
        j <= n < j + i,
    ensures
        n == j,
{
    lemma_fundamental_div_mod(n, i);
    lemma_fundamental_div_mod(j, i);
    let a = n / i;
    let b = j / i;
    assert(n == j) by (nonlinear_arith)
        requires
            n == i * a,
            j == i * b,
            j <= n < j + i,
            0 < i,
    ;
}

/// A composite number has a divisor no larger than its square root.
proof fn lemma_composite_has_small_factor(n: int)
    requires
        2 <= n,
        !is_prime(n),
    ensures
        exists|d: int| 2 <= d && d * d <= n && #[trigger] (n % d) == 0,
{
    let d0 = choose|d: int| 2 <= d < n && #[trigger] (n % d) == 0;
    lemma_fundamental_div_mod(n, d0);
    let q = n / d0;
    assert(n == d0 * q);
    assert(q >= 2) by (nonlinear_arith)
        requires
            n == d0 * q,
            2 <= d0 < n,
    ;
    if d0 * d0 <= n {
        assert(2 <= d0 && d0 * d0 <= n && n % d0 == 0);
    } else {
        assert(q * q <= n) by (nonlinear_arith)
            requires
                n == d0 * q,
                d0 * d0 > n,
                2 <= d0,
                2 <= q,
        ;
        lemma_mod_multiples_basic(d0, q);
        assert(d0 * q == n);
        assert(2 <= q && q * q <= n && n % q == 0);
    }
}

/// For every n in the sieve range (from 2 on), being free of marked factors
/// below SQRT_LIMIT is the same as being prime.
proof fn lemma_unmarked_is_prime(n: int)
    requires
        2 <= n < SIEVE_SIZE,
    ensures
        !has_marked_factor(n, SQRT_LIMIT as int) == is_prime(n),
{
    if is_prime(n) {
        if has_marked_factor(n, SQRT_LIMIT as int) {
            let d = choose|d: int|
                2 <= d < SQRT_LIMIT && #[trigger] (n % d) == 0 && d * d <= n;
            assert(d < n) by (nonlinear_arith)
                requires
                    2 <= d,
                    2 <= n,
                    d * d <= n,
            ;
            assert(n % d != 0);
        }
    } else {
        lemma_composite_has_small_factor(n);
        let d = choose|d: int| 2 <= d && d * d <= n && #[trigger] (n % d) == 0;
        assert(d < SQRT_LIMIT) by (nonlinear_arith)
            requires
                2 <= d,
                d * d <= n,
                n < SIEVE_SIZE,
                SIEVE_SIZE == SQRT_LIMIT * SQRT_LIMIT,
                0 < SQRT_LIMIT,
        ;
        assert(has_marked_factor(n, SQRT_LIMIT as int));
    }
}

/// One sieve computation: allocate SIEVE_SIZE flags, all true but for
/// indices 0 and 1, then for each i in [2, SQRT_LIMIT) with its flag still
/// set, clear every multiple of i from i * i on. The result flags each index
/// below SIEVE_SIZE as prime or not; in particular indices 0 and 1 always
/// come out false.
pub fn sieve_of_eratosthenes() -> (flags: Vec<bool>)
    ensures
        flags@.len() == SIEVE_SIZE,
        forall|n: int| 0 <= n < SIEVE_SIZE ==> flags@[n] == is_prime(n),
        !flags@[0],
        !flags@[1],
{
    let mut flags: Vec<bool> = Vec::new();
    while flags.len() < SIEVE_SIZE
        invariant
            flags@.len() <= SIEVE_SIZE,
            forall|n: int| 0 <= n < flags@.len() ==> flags@[n],
        decreases SIEVE_SIZE - flags@.len(),
    {
        flags.push(true);
    }
    flags.set(0, false);
    flags.set(1, false);

    let mut i: usize = 2;
    while i < SQRT_LIMIT
        invariant
            2 <= i <= SQRT_LIMIT,
            flags@.len() == SIEVE_SIZE,
            forall|n: int|
                0 <= n < SIEVE_SIZE ==> #[trigger] flags@[n] == (n >= 2 && !has_marked_factor(
                    n,
                    i as int,
                )),
        decreases SQRT_LIMIT - i,
    {
        if flags[i] {
            assert(i * i < SIEVE_SIZE) by (nonlinear_arith)
                requires
                    i < SQRT_LIMIT,
                    SIEVE_SIZE == SQRT_LIMIT * SQRT_LIMIT,
            ;
            let mut j: usize = i * i;
            proof {
                lemma_mod_multiples_basic(i as int, i as int);
            }
            while j < SIEVE_SIZE
                invariant
                    2 <= i < SQRT_LIMIT,
                    i * i <= j,
                    j as int % (i as int) == 0,
                    flags@.len() == SIEVE_SIZE,
                    forall|n: int|
                        0 <= n < SIEVE_SIZE ==> #[trigger] flags@[n] == (n >= 2
                            && !has_marked_factor(n, i as int) && !(n % (i as int) == 0 && i * i
                        <= n < j)),
                decreases SIEVE_SIZE + i - j,
            {
                flags.set(j, false);
                proof {
                    lemma_mod_multiples_basic(j as int / (i as int) + 1, i as int);
                    lemma_fundamental_div_mod(j as int, i as int);
                    assert((j + i) as int % (i as int) == 0) by (nonlinear_arith)
                        requires
                            j as int == (i as int) * (j as int / (i as int)),
                            ((j as int / (i as int) + 1) * (i as int)) % (i as int) == 0,
                    ;
                    assert forall|n: int|
                        0 <= n < SIEVE_SIZE && n != j implies ((#[trigger] (n % (i as int)) == 0
                        && i * i <= n < j + i) == (n % (i as int) == 0 && i * i <= n < j)) by {
                        if n % (i as int) == 0 && i * i <= n && j <= n < j + i {
                            lemma_multiple_in_window(n, j as int, i as int);
                        }
                    }
                }
                j = j + i;
            }
            proof {
                assert forall|n: int|
                    0 <= n < SIEVE_SIZE implies (has_marked_factor(n, i as int + 1) == (
                    has_marked_factor(n, i as int) || (n % (i as int) == 0 && i * i <= n))) by {
                    if has_marked_factor(n, i as int + 1) {
                        let d = choose|d: int|
                            2 <= d < i as int + 1 && #[trigger] (n % d) == 0 && d * d <= n;
                        if d < i as int {
                            assert(has_marked_factor(n, i as int));
                        }
                    }
                    if has_marked_factor(n, i as int) {
                        let d = choose|d: int|
                            2 <= d < i as int && #[trigger] (n % d) == 0 && d * d <= n;
                        assert(2 <= d < i as int + 1 && n % d == 0 && d * d <= n);
                    }
                }
            }
        } else {
            proof {
                assert(has_marked_factor(i as int, i as int));
                let dw = choose|d: int|
                    2 <= d < i as int && #[trigger] ((i as int) % d) == 0 && d * d <= i as int;
                assert forall|n: int|
                    0 <= n < SIEVE_SIZE implies (has_marked_factor(n, i as int + 1)
                    == has_marked_factor(n, i as int)) by {
                    if has_marked_factor(n, i as int + 1) {
                        let d = choose|d: int|
                            2 <= d < i as int + 1 && #[trigger] (n % d) == 0 && d * d <= n;
                        if d == i as int {
                            lemma_divides_transitive(dw, i as int, n);
                            assert(dw * dw <= n) by (nonlinear_arith)
                                requires
                                    dw * dw <= i as int,
                                    2 <= i as int,
                                    (i as int) * (i as int) <= n,
                            ;
                            assert(2 <= dw < i as int && n % dw == 0 && dw * dw <= n);
                            assert(has_marked_factor(n, i as int));
                        } else {
                            assert(has_marked_factor(n, i as int));
                        }
                    }
                    if has_marked_factor(n, i as int) {
                        let d = choose|d: int|
                            2 <= d < i as int && #[trigger] (n % d) == 0 && d * d <= n;
                        assert(2 <= d < i as int + 1 && n % d == 0 && d * d <= n);
                    }
                }
            }
        }
        i = i + 1;
    }
    proof {
        assert forall|n: int| 0 <= n < SIEVE_SIZE implies flags@[n] == is_prime(n) by {
            if n >= 2 {
                lemma_unmarked_is_prime(n);
            }
        }
    }
    flags
}

} // verus!
