//! The prime kernel: primality by trial division, and the count of primes
//! below a limit.

use vstd::prelude::*;

verus! {

/// A number is prime when it is at least 2 and nothing strictly between 1 and
/// itself divides it.
pub open spec fn is_prime_spec(n: int) -> bool {
    n >= 2 && forall|d: int| 2 <= d < n ==> #[trigger] (n % d) != 0
}

/// How many primes lie in `[0, limit)`.
pub open spec fn primes_below(limit: nat) -> nat
    decreases limit,
{
    if limit == 0 {
        0
    } else {
        primes_below((limit - 1) as nat) + if is_prime_spec(limit - 1) {
            1nat
        } else {
            0nat
        }
    }
}

/// A larger limit never counts fewer primes.
pub proof fn lemma_primes_below_monotonic(low: nat, high: nat)
    requires
        low <= high,
    ensures
        primes_below(low) <= primes_below(high),
    decreases high - low,
{
    if low < high {
        lemma_primes_below_monotonic(low, (high - 1) as nat);
    }
}

/// The count is positive exactly from limit 3 on: 2 is the first prime.
pub proof fn lemma_primes_below_positive(limit: nat)
    ensures
        primes_below(limit) > 0 <==> limit >= 3,
{
    reveal_with_fuel(primes_below, 4);
    assert(!is_prime_spec(0) && !is_prime_spec(1));
    assert(is_prime_spec(2));
    assert(primes_below(2) == 0);
    assert(primes_below(3) == 1);
    if limit >= 3 {
        lemma_primes_below_monotonic(3, limit);
    } else {
        lemma_primes_below_monotonic(limit, 2);
    }
}

/// An even number never divides an odd one.
proof fn lemma_even_never_divides_odd(n: int, d: int)
    requires
        n >= 0,
        d > 0,
        n % 2 == 1,
        d % 2 == 0,
    ensures
        n % d != 0,
{
    if n % d == 0 {
        let q = n / d;
        let h = d / 2;
        assert(n == d * q) by (nonlinear_arith)
            requires
                n % d == 0,
                q == n / d,
                d > 0,
        ;
        assert(d == 2 * h);
        assert(n == 2 * (h * q)) by (nonlinear_arith)
            requires
                n == d * q,
                d == 2 * h,
        ;
        assert(n % 2 == 0) by (nonlinear_arith)
            requires
                n == 2 * (h * q),
        ;
    }
}

/// A number above 1 with no divisor in `[2, i)`, where `i * i` exceeds it, is
/// prime: a larger divisor would have a cofactor below `i`.
proof fn lemma_no_small_divisor_is_prime(n: int, i: int)
    requires
        n >= 2,
        i >= 2,
        i * i > n,
        forall|d: int| 2 <= d < i ==> #[trigger] (n % d) != 0,
    ensures
        is_prime_spec(n),
{
    assert forall|d: int| 2 <= d < n implies #[trigger] (n % d) != 0 by {
        if d >= i && n % d == 0 {
            let q = n / d;
            assert(n == d * q) by (nonlinear_arith)
                requires
                    n % d == 0,
                    q == n / d,
                    d > 0,
            ;
            assert(q >= 2) by (nonlinear_arith)
                requires
                    n == d * q,
                    2 <= d < n,
            ;
            assert(q < i) by (nonlinear_arith)
                requires
                    n == d * q,
                    d >= i,
                    i >= 2,
                    i * i > n,
                    q >= 2,
            ;
            assert(n % q == 0) by (nonlinear_arith)
                requires
                    n == d * q,
                    q >= 2,
            ;
        }
    }
}

/// Tests `n` for primality by trial division: 2 on its own, then the odd
/// candidates up to the square root of `n`.
pub fn is_prime(n: u64) -> (prime: bool)
    ensures
        prime == is_prime_spec(n as int),
{
    if n < 2 {
        return false;
    }
    if n == 2 {
        return true;
    }
    if n % 2 == 0 {
        assert(2 <= 2int < n && (n as int) % 2 == 0);
        return false;
    }
    let mut i: u64 = 3;
    while i <= n / i
        invariant
            n > 2,
            n % 2 == 1,
            3 <= i <= n,
            i % 2 == 1,
            forall|d: int| 2 <= d < i ==> #[trigger] ((n as int) % d) != 0,
        decreases n - i,
    {
        assert(i * 3 <= n) by (nonlinear_arith)
            requires
                i <= n / i,
                i >= 3,
        ;
        if n % i == 0 {
            assert(2 <= (i as int) < n && (n as int) % (i as int) == 0);
            return false;
        }
        proof {
            lemma_even_never_divides_odd(n as int, i as int + 1);
        }
        i += 2;
    }
    proof {
        assert((i as int) * (i as int) > n) by (nonlinear_arith)
            requires
                i > n / i,
                i >= 3,
        ;
        lemma_no_small_divisor_is_prime(n as int, i as int);
    }
    true
}

/// Counts the primes in `[2, limit)`: the work of one pass of the prime kernel.
pub fn count_primes(limit: u64) -> (count: u64)
    ensures
        count == primes_below(limit as nat),
{
    let mut count: u64 = 0;
    let mut i: u64 = 2;
    proof {
        reveal_with_fuel(primes_below, 3);
        assert(primes_below(2) == 0);
        if limit < 2 {
            assert(primes_below(limit as nat) == 0);
        }
    }
    while i < limit
        invariant
            2 <= i,
            limit >= 2 ==> i <= limit,
            count == primes_below(i as nat),
            count <= i,
            limit < 2 ==> count == primes_below(limit as nat),
        decreases limit - i,
    {
        if is_prime(i) {
            count += 1;
        }
        i += 1;
    }
    count
}

} // verus!
