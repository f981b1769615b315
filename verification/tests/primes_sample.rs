use rfcu::primes::{fibonacci_and_primes, is_prime};

#[test]
fn small_numbers_are_classified() {
    let primes = [2u32, 3, 5, 7, 11, 13, 17, 19, 23, 29, 31, 37, 41, 43, 47, 53, 59, 61, 67, 71, 73, 79, 83, 89, 97];
    for n in 0..100u32 {
        assert_eq!(is_prime(n), primes.contains(&n), "{}", n);
    }
}

#[test]
fn large_numbers_are_classified_without_overflow() {
    assert!(is_prime(4_294_967_291));
    assert!(!is_prime(4_294_967_295));
    assert!(!is_prime(4_294_836_225)); // 65535 squared
    assert!(is_prime(2_147_483_647));
    assert!(!is_prime(25));
    assert!(!is_prime(49));
    assert!(!is_prime(65_521u32 * 65_521u32 / 65_521 * 7));
}

#[test]
fn fibonacci_numbers_and_primes_of_one_to_twenty() {
    let (fib_seq, prime_count) = fibonacci_and_primes((1, 20));
    assert_eq!(fib_seq, vec![0, 1, 1, 2, 3, 5, 8, 13, 21, 34]);
    assert_eq!(prime_count, 8);
}

#[test]
fn primes_are_counted_in_inclusive_ranges() {
    assert_eq!(fibonacci_and_primes((0, 1)).1, 0);
    assert_eq!(fibonacci_and_primes((2, 2)).1, 1);
    assert_eq!(fibonacci_and_primes((2, 3)).1, 2);
    assert_eq!(fibonacci_and_primes((4, 4)).1, 0);
    assert_eq!(fibonacci_and_primes((0, 100)).1, 25);
    assert_eq!(fibonacci_and_primes((90, 100)).1, 1);
    assert_eq!(fibonacci_and_primes((0, 10_000)).1, 1229);
    // an empty range, one above the end
    assert_eq!(fibonacci_and_primes((8, 7)).1, 0);
}

#[test]
fn sieve_agrees_with_trial_division() {
    for end in 1..200u32 {
        let expected = (0..=end).filter(|n| is_prime(*n)).count() as u32;
        assert_eq!(fibonacci_and_primes((0, end)).1, expected, "{}", end);
    }
}
