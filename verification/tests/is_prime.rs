use prime_search::is_prime::{compute_prime_assertion, divisible_by, is_prime};

#[test]
fn it_validates_primes() {
    assert!(!is_prime(1));
    assert!(is_prime(2));
    assert!(is_prime(3));
    assert!(!is_prime(4));
    assert!(is_prime(5));
    assert!(!is_prime(6));
    assert!(is_prime(7));
    assert!(!is_prime(8));
    assert!(!is_prime(9));
    assert!(!is_prime(10));
}

#[test]
fn it_judges_known_candidates() {
    assert!(is_prime(97));
    assert!(!is_prime(100));
    assert!(!is_prime(0));
    assert!(!is_prime(1));
    assert!(is_prime(2));
}

#[test]
fn it_rejects_large_non_prime() {
    assert!(!is_prime(1093 * 1321 * 2767));
}

#[test]
fn truncated_tail_does_not_change_answers() {
    // 26 = 2 * 13: divisor 13 sits in the tail segment the partition skips
    // for twelve workers, but divisor 2 is scanned and settles the answer.
    assert!(!is_prime(26));
    assert!(is_prime(29));
    assert!(!is_prime(50));
}

#[test]
fn worker_scan_stays_inside_its_range() {
    // 25 = 5 * 5: a range that stops short of 5 upholds the prime
    // assertion, one that includes 5 refutes it.
    assert!(compute_prime_assertion(25, 2..5));
    assert!(!compute_prime_assertion(25, 2..6));
    // An empty range never finds a divisor.
    assert!(compute_prime_assertion(4, 2..2));
}

#[test]
fn divisibility_checks() {
    assert!(divisible_by(100, 4));
    assert!(!divisible_by(100, 3));
    assert!(divisible_by(0, 7));
}
