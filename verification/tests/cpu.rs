use bench_suite::cpu::{count_primes, is_prime};

#[test]
fn test_is_prime() {
    assert!(is_prime(2));
    assert!(is_prime(17));
    assert!(!is_prime(4));
    assert!(!is_prime(1));
}

#[test]
fn test_is_prime_edge_cases() {
    assert!(!is_prime(0));
    assert!(!is_prime(1));
    assert!(is_prime(2));
    assert!(is_prime(3));
    assert!(!is_prime(4));
}

#[test]
fn test_is_prime_known_primes() {
    let known_primes = vec![2, 3, 5, 7, 11, 13, 17, 19, 23, 29, 31, 37, 41, 43, 47];
    for prime in known_primes {
        assert!(is_prime(prime), "Expected {} to be prime", prime);
    }
}

#[test]
fn test_is_prime_known_composites() {
    let known_composites = vec![4, 6, 8, 9, 10, 12, 14, 15, 16, 18, 20, 21, 22, 24, 25];
    for composite in known_composites {
        assert!(
            !is_prime(composite),
            "Expected {} to be composite",
            composite
        );
    }
}

#[test]
fn test_is_prime_large_numbers() {
    assert!(is_prime(7919)); // Known large prime
    assert!(!is_prime(7920)); // Composite
}

#[test]
fn is_prime_at_the_square_root_boundary() {
    // Squares of primes have their only divisor exactly at the root.
    assert!(!is_prime(9));
    assert!(!is_prime(49));
    assert!(!is_prime(7919 * 7919));
    assert!(!is_prime(1_000_003 * 1_000_003));
    assert!(is_prime(1_000_000_007));
    assert!(is_prime(999_999_999_989));
    // Divisible by 3: found at once, however large.
    assert!(!is_prime(u64::MAX));
}

#[test]
fn count_primes_below_fifty_is_fifteen() {
    assert_eq!(count_primes(50), 15);
}

#[test]
fn count_primes_excludes_the_limit() {
    assert_eq!(count_primes(0), 0);
    assert_eq!(count_primes(1), 0);
    assert_eq!(count_primes(2), 0);
    assert_eq!(count_primes(3), 1);
    assert_eq!(count_primes(47), 14);
    assert_eq!(count_primes(48), 15);
    assert_eq!(count_primes(10_000), 1229);
}

#[test]
fn count_primes_gives_the_same_count_again() {
    let first = count_primes(5_000);
    let second = count_primes(5_000);
    assert_eq!(first, second);
    assert_eq!(first, 669);
}
