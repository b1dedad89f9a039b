//! Sequential search for prime numbers by parallel-friendly trial division,
//! with batched, transactional persistence of every confirmed prime.
//!
//! The divisor interval `[2, n / 2 + 1)` of a candidate `n` is split into
//! disjoint sub-ranges so that independent workers can each scan one of them;
//! a candidate is prime exactly when no scanned divisor divides it. Confirmed
//! primes are buffered in memory and flushed to durable storage in a single
//! all-or-nothing transaction, which also provides the resume checkpoint
//! (the largest stored prime) after a restart.

pub mod database;
pub mod division_range;
pub mod is_prime;
pub mod prime_number;
