//! Trial-division primality checking over partitioned divisor ranges.
//!
//! The per-range scan `compute_prime_assertion` is the unit of work for one
//! worker of a concurrent driver; `is_prime` combines the per-range answers
//! into the final verdict, which depends only on the candidate, never on the
//! order of the scans.

use core::ops::Range;
use crate::division_range::{
    partitioned_division_ranges, ranges_match, spec_covered_end, spec_covers_fully,
    spec_max_divisor, spec_partition, spec_partition_step, spec_range_count,
    spec_uses_fallback, lemma_partition_contiguous, lemma_partition_fallback,
};
use vstd::arithmetic::div_mod::{
    lemma_div_by_self, lemma_div_is_ordered, lemma_fundamental_div_mod,
    lemma_mod_division_less_than_divisor, lemma_mod_multiples_basic,
};
use vstd::arithmetic::mul::{lemma_mul_inequality, lemma_mul_is_commutative};
use vstd::prelude::*;

verus! {

/// Upper bound on the number of concurrent workers — and hence on the number
/// of sub-ranges — used for one candidate's check.
pub const MAX_THREADS: u32 = 12;

/// Some divisor in the half-open interval `[lo, hi)` divides `n`.
pub open spec fn spec_has_divisor_in(n: int, lo: int, hi: int) -> bool {
    exists|d: int| lo <= d < hi && #[trigger] (n % d) == 0int
}

/// Primality by this system's full trial-division rule: at least 2, and no
/// divisor in the whole interval `[2, n / 2 + 1)`.
pub open spec fn spec_is_prime(n: int) -> bool {
    n >= 2 && !spec_has_divisor_in(n, 2, spec_max_divisor(n))
}

/// The verdict the tester actually reaches: divisors are scanned only over
/// the sub-ranges the partitioner returns, whose union is
/// `[2, spec_covered_end(n, MAX_THREADS))`.
pub open spec fn spec_verdict(n: int) -> bool {
    n >= 2 && !spec_has_divisor_in(n, 2, spec_covered_end(n, MAX_THREADS as int))
}

/// Splitting an interval at `mid` splits the search for a divisor.
pub proof fn lemma_has_divisor_split(n: int, lo: int, mid: int, hi: int)
    requires
        lo <= mid <= hi,
    ensures
        spec_has_divisor_in(n, lo, hi) == (spec_has_divisor_in(n, lo, mid)
            || spec_has_divisor_in(n, mid, hi)),
{
    if spec_has_divisor_in(n, lo, hi) {
        let d = choose|d: int| lo <= d < hi && #[trigger] (n % d) == 0int;
        if d < mid {
            assert(spec_has_divisor_in(n, lo, mid));
        } else {
            assert(spec_has_divisor_in(n, mid, hi));
        }
    }
}

/// Whether `a` is divisible by `b`.
pub fn divisible_by(a: u32, b: u32) -> (r: bool)
    requires
        b >= 1,
    ensures
        r == (a as int % b as int == 0),
{
    a % b == 0
}

/// One worker's share of a candidate's check: scan the assigned divisor
/// range in increasing order and report whether it upholds the prime
/// assertion — true when no divisor of `n` lies in the range. The scan stops
/// at the first divisor found and never looks outside its own range.
pub fn compute_prime_assertion(n: u32, range: Range<u32>) -> (r: bool)
    requires
        range.start >= 2,
    ensures
        r == !spec_has_divisor_in(n as int, range.start as int, range.end as int),
{
    let mut divisor = range.start;
    while divisor < range.end
        invariant
            range.start >= 2,
            range.start <= divisor,
            !spec_has_divisor_in(n as int, range.start as int, divisor as int),
        decreases range.end - divisor,
    {
        if divisible_by(n, divisor) {
            assert(spec_has_divisor_in(n as int, range.start as int, range.end as int));
            return false;
        }
        divisor = divisor + 1;
    }
    true
}

/// The verdict for candidate `n`: false for anything at or below 1, and
/// otherwise true exactly when no divisor of `n` lies in the part of
/// `[2, n / 2 + 1)` that the partition's ranges cover — which, by
/// `lemma_verdict_always_exact`, is the same as full trial division over
/// the whole interval.
pub fn is_prime(n: u32) -> (r: bool)
    ensures
        r == spec_verdict(n as int),
        r == spec_is_prime(n as int),
        n <= 1 ==> r == false,
{
    proof {
        lemma_verdict_always_exact(n as int);
    }
    if n <= 1 {
        return false;
    }

    let ghost s = spec_partition(n as int, MAX_THREADS as int);
    proof {
        lemma_partition_contiguous(n as int, MAX_THREADS as int);
    }
    let ranges = partitioned_division_ranges(n, MAX_THREADS);

    let mut i: usize = 0;
    while i < ranges.len()
        invariant
            n >= 2,
            s == spec_partition(n as int, MAX_THREADS as int),
            ranges_match(ranges@, s),
            s.len() >= 1,
            s[0].0 == 2,
            forall|j: int| 0 <= j < s.len() - 1 ==> (#[trigger] s[j]).1 == s[j + 1].0,
            forall|j: int| 0 <= j < s.len() ==> (#[trigger] s[j]).0 <= s[j].1,
            forall|j: int|
                0 <= j < s.len() ==> 2 <= (#[trigger] s[j]).0 && s[j].1 <= spec_covered_end(
                    n as int,
                    MAX_THREADS as int,
                ),
            i <= ranges@.len(),
            !spec_has_divisor_in(n as int, 2, if i == 0 { 2int } else { s[i - 1].1 }),
        decreases ranges@.len() - i,
    {
        let start = ranges[i].start;
        let end = ranges[i].end;
        let scanned_clean = compute_prime_assertion(n, Range { start, end });
        proof {
            let prefix_end = if i == 0 { 2int } else { s[i as int - 1].1 };
            assert(s[i as int].0 == prefix_end);
            lemma_has_divisor_split(n as int, 2, prefix_end, s[i as int].1);
        }
        if !scanned_clean {
            proof {
                lemma_has_divisor_split(
                    n as int,
                    2,
                    s[i as int].1,
                    spec_covered_end(n as int, MAX_THREADS as int),
                );
                lemma_verdict_always_exact(n as int);
            }
            return false;
        }
        i = i + 1;
    }
    proof {
        assert(s[s.len() - 1].1 == spec_covered_end(n as int, MAX_THREADS as int));
    }
    true
}

/// Wherever the partitioner's ranges jointly cover the whole divisor
/// interval `[2, n / 2 + 1)` — every worker count without tail truncation —
/// the tester's verdict is exact trial division: true for a candidate of at
/// least 2 with no divisor in that interval, and false otherwise.
pub proof fn lemma_verdict_exact_when_covered(n: int)
    requires
        spec_covers_fully(n, MAX_THREADS as int),
    ensures
        spec_verdict(n) == spec_is_prime(n),
{
}

/// When boundary generation truncates the tail, a divisor found only there
/// can never flip the answer, because such a divisor `d` satisfies
/// `d * 2 <= n` yet sits within one step of `n / 2 + 1`, which forces the
/// cofactor `n / d` to be exactly 2 — so the candidate is even, and its
/// divisor 2 lies in the covered part of the interval.
proof fn lemma_uncovered_tail_is_harmless(n: int)
    requires
        n >= 2,
        !spec_uses_fallback(n, MAX_THREADS as int),
    ensures
        spec_has_divisor_in(n, 2, spec_covered_end(n, MAX_THREADS as int))
            == spec_has_divisor_in(n, 2, spec_max_divisor(n)),
{
    let pc = MAX_THREADS as int;
    let md = spec_max_divisor(n);
    let step = spec_partition_step(md, pc);
    let k = spec_range_count(md, step);
    let ce = spec_covered_end(n, pc);

    // Not falling back means 2 <= pc <= md - 2, so md >= 14.
    assert(md >= 14);
    // n sits just below 2 * md.
    lemma_fundamental_div_mod(n, 2);
    lemma_mod_division_less_than_divisor(n, 2);
    assert(n <= 2 * md - 1);

    // The step is at least 1 and pc * step stays within the interval.
    lemma_div_by_self(pc);
    lemma_div_is_ordered(pc, md - 2, pc);
    assert(step >= 1);
    lemma_fundamental_div_mod(md - 2, pc);
    lemma_mod_division_less_than_divisor(md - 2, pc);
    assert(12 * step <= md - 2);
    assert(step <= md - 13);

    // The covered end 2 + k * step lies in (md - step, md).
    lemma_div_by_self(step);
    lemma_div_is_ordered(step, md - 3, step);
    assert(k >= 1);
    lemma_fundamental_div_mod(md - 3, step);
    lemma_mod_division_less_than_divisor(md - 3, step);
    lemma_mul_is_commutative(step, k);
    assert(md - 2 - step <= k * step <= md - 3);
    assert(ce == 2 + k * step);
    assert(md - step <= ce <= md - 1);
    lemma_mul_inequality(1, k, step);
    assert(ce >= 3);

    if spec_has_divisor_in(n, 2, md) {
        let d = choose|d: int| 2 <= d < md && #[trigger] (n % d) == 0int;
        if d < ce {
            assert(spec_has_divisor_in(n, 2, ce));
        } else {
            // d lies in the uncovered tail [ce, md), within one step of md.
            assert(md - step <= d <= n / 2);
            lemma_fundamental_div_mod(n, d);
            let cofactor = n / d;
            assert(n == d * cofactor);

            // The cofactor is at least 2: otherwise n == d * cofactor <= d,
            // yet d <= n / 2 < n.
            if cofactor <= 1 {
                lemma_mul_inequality(cofactor, 1, d);
                lemma_mul_is_commutative(cofactor, d);
                assert(n <= d);
                assert(false);
            }
            // And at most 2: a cofactor of 3 or more would need
            // 3 * d <= n, but 3 * d >= 3 * (md - step) > 2 * md - 1 >= n.
            if cofactor >= 3 {
                lemma_mul_inequality(3, cofactor, d);
                lemma_mul_is_commutative(cofactor, d);
                assert(3 * d <= n);
                assert(3 * step < md + 1);
                assert(false);
            }
            assert(cofactor == 2);
            assert(n == d * 2);
            lemma_mod_multiples_basic(d, 2);
            assert(n % 2 == 0int);
            assert(2 <= 2 < ce);
            assert(spec_has_divisor_in(n, 2, ce));
        }
    }
}

/// The verdict is exact trial division for every candidate, truncated tail
/// or not: `is_prime`'s answer always equals `spec_is_prime`. Where the
/// partition covers the whole interval this is `lemma_verdict_exact_when_covered`;
/// where it does not, the uncovered tail cannot hold a candidate's only
/// divisor (see `lemma_uncovered_tail_is_harmless`).
pub proof fn lemma_verdict_always_exact(n: int)
    ensures
        spec_verdict(n) == spec_is_prime(n),
{
    if n >= 2 {
        if spec_uses_fallback(n, MAX_THREADS as int) {
            lemma_partition_fallback(n, MAX_THREADS as int);
        } else {
            lemma_uncovered_tail_is_harmless(n);
        }
    }
}

} // verus!
