//! Partitioning of a candidate's divisor search interval into disjoint,
//! contiguous sub-ranges, one per prospective worker.

use core::ops::Range;
use vstd::arithmetic::div_mod::{
    lemma_div_by_self, lemma_div_is_ordered, lemma_div_is_ordered_by_denominator,
    lemma_fundamental_div_mod_converse,
};
use vstd::arithmetic::mul::{lemma_mul_inequality, lemma_mul_is_distributive_add_other_way};
use vstd::prelude::*;

verus! {

/// Divisors of a candidate are only ever searched from 2 upward.
pub const DIVISION_MIN_DIVISOR: u32 = 2;

/// One past the largest divisor that is tested against `n`: `n / 2 + 1`.
pub open spec fn spec_max_divisor(n: int) -> int {
    n / 2 + 1
}

/// The width of each generated sub-range, as `partition_size` computes it.
pub open spec fn spec_partition_step(max_divisor: int, partition_count: int) -> int {
    if partition_count > max_divisor {
        max_divisor
    } else {
        (max_divisor - 2) / partition_count
    }
}

/// How many sub-ranges the boundary generation yields for a given step:
/// one fewer than the number of boundary points `2, 2 + step, ...` that lie
/// below `max_divisor`.
pub open spec fn spec_range_count(max_divisor: int, step: int) -> int {
    (max_divisor - 3) / step
}

/// Whether the partitioner answers with the single full range instead of
/// generating boundaries: a single requested partition, or more partitions
/// than there are candidate divisors in `[2, max_divisor)`.
pub open spec fn spec_uses_fallback(n: int, partition_count: int) -> bool {
    partition_count == 1 || partition_count > spec_max_divisor(n) - 2
}

/// The sub-ranges, as `(start, end)` pairs, that partitioning candidate `n`
/// into `partition_count` parts produces.
pub open spec fn spec_partition(n: int, partition_count: int) -> Seq<(int, int)> {
    let max_divisor = spec_max_divisor(n);
    if spec_uses_fallback(n, partition_count) {
        seq![(2int, max_divisor)]
    } else {
        let step = spec_partition_step(max_divisor, partition_count);
        Seq::new(
            spec_range_count(max_divisor, step) as nat,
            |i: int| (2 + i * step, 2 + (i + 1) * step),
        )
    }
}

/// One past the last divisor that the returned ranges jointly cover: the end
/// of the final range. The step-based boundary generation can stop short of
/// `spec_max_divisor(n)`, leaving a final remainder segment uncovered; that
/// truncation is a deliberately preserved property of this design.
pub open spec fn spec_covered_end(n: int, partition_count: int) -> int {
    let s = spec_partition(n, partition_count);
    s[s.len() - 1].1
}

/// Whether the partition covers the whole divisor interval `[2, n / 2 + 1)`,
/// that is, no tail truncation occurs for this pair of arguments.
pub open spec fn spec_covers_fully(n: int, partition_count: int) -> bool {
    spec_covered_end(n, partition_count) == spec_max_divisor(n)
}

/// The executable ranges mirror the mathematical pairs exactly.
pub open spec fn ranges_match(r: Seq<Range<u32>>, s: Seq<(int, int)>) -> bool {
    &&& r.len() == s.len()
    &&& forall|i: int|
        0 <= i < s.len() ==> (#[trigger] r[i]).start == s[i].0 && r[i].end == s[i].1
}

/// One past the largest divisor that is tested against candidate `n`.
///
/// The search interval `[2, n / 2 + 1)` is deliberately twice as wide as the
/// square-root bound would require; the wider bound is a fixed property of
/// this design.
pub fn division_max_divisor(n: u32) -> (r: u32)
    ensures
        r == spec_max_divisor(n as int),
{
    n / 2 + 1
}

/// The width of each sub-range: the divisor interval's length divided evenly
/// among the partitions, with a degenerate guard for a partition count beyond
/// `max` itself.
pub fn partition_size(max: u32, partition_count: u32) -> (r: usize)
    requires
        partition_count >= 1,
        max >= 2 || partition_count > max,
    ensures
        r == spec_partition_step(max as int, partition_count as int),
{
    if partition_count > max {
        return max as usize;
    }
    ((max - 2) / partition_count) as usize
}

/// Splits the divisor interval `[2, n / 2 + 1)` of candidate `n` into
/// `partition_count` contiguous sub-ranges, ordered by start.
///
/// With a single requested partition, or more partitions than candidate
/// divisors, the whole interval is returned as one range. Otherwise boundary
/// points `2, 2 + step, 2 + 2 * step, ...` are generated while they lie below
/// the interval's end and each consecutive pair becomes a range — which can
/// leave a final remainder segment uncovered (see `spec_covered_end`).
pub fn partitioned_division_ranges(n: u32, partition_count: u32) -> (r: Vec<Range<u32>>)
    requires
        partition_count >= 1,
    ensures
        ranges_match(r@, spec_partition(n as int, partition_count as int)),
{
    let max_divisor = division_max_divisor(n);

    if partition_count == 1 || max_divisor < 2 || partition_count > max_divisor - 2 {
        let mut single: Vec<Range<u32>> = Vec::new();
        single.push(Range { start: DIVISION_MIN_DIVISOR, end: max_divisor });
        return single;
    }

    let step_size = partition_size(max_divisor, partition_count);
    proof {
        // In this branch 2 <= partition_count <= max_divisor - 2, so the
        // step is at least 1 and at most max_divisor - 2.
        lemma_div_by_self(partition_count as int);
        lemma_div_is_ordered(partition_count as int, (max_divisor - 2) as int, partition_count as int);
        lemma_div_is_ordered_by_denominator((max_divisor - 2) as int, 1, partition_count as int);
        assert((max_divisor - 2) as int / 1 == max_divisor - 2);
    }
    let step = step_size as u32;

    let ghost gmd = max_divisor as int;
    let ghost gstep = step as int;
    let ghost target = spec_partition(n as int, partition_count as int);

    let mut ranges: Vec<Range<u32>> = Vec::new();
    let mut lo: u32 = DIVISION_MIN_DIVISOR;
    while lo + step < max_divisor
        invariant
            1 <= gstep <= gmd - 2,
            4 <= gmd <= 0x8000_0000,
            step == gstep,
            max_divisor == gmd,
            2 <= lo < max_divisor,
            lo == 2 + ranges@.len() * gstep,
            forall|j: int|
                0 <= j < ranges@.len() ==> (#[trigger] ranges@[j]).start == 2 + j * gstep
                    && ranges@[j].end == 2 + (j + 1) * gstep,
        decreases gmd - lo,
    {
        let hi = lo + step;
        ranges.push(Range { start: lo, end: hi });
        proof {
            lemma_mul_is_distributive_add_other_way(gstep, ranges@.len() - 1, 1);
        }
        lo = hi;
    }

    proof {
        // On exit the boundary chain 2, 2 + step, ... has produced exactly
        // k = ranges.len() ranges, with 2 + k * step < max_divisor and
        // 2 + (k + 1) * step >= max_divisor; hence k == (max_divisor - 3) / step.
        let k = ranges@.len() as int;
        lemma_mul_is_distributive_add_other_way(gstep, k, 1);
        lemma_fundamental_div_mod_converse(gmd - 3, gstep, k, gmd - 3 - k * gstep);
        assert(ranges_match(ranges@, target));
    }
    ranges
}

/// The ranges produced for one candidate are contiguous and ordered: the
/// first starts at 2, each later one starts exactly where its predecessor
/// ends, no range's start exceeds its end, starts strictly increase, and the
/// end of every range stays within the covered part of the divisor interval.
/// In particular the ranges are pairwise non-overlapping.
pub proof fn lemma_partition_contiguous(n: int, partition_count: int)
    requires
        partition_count >= 1,
        n >= 2,
    ensures
        spec_partition(n, partition_count).len() >= 1,
        spec_partition(n, partition_count)[0].0 == 2,
        forall|i: int|
            0 <= i < spec_partition(n, partition_count).len()
                ==> (#[trigger] spec_partition(n, partition_count)[i]).0
                <= spec_partition(n, partition_count)[i].1,
        forall|i: int|
            0 <= i < spec_partition(n, partition_count).len() - 1
                ==> (#[trigger] spec_partition(n, partition_count)[i]).1
                == spec_partition(n, partition_count)[i + 1].0,
        forall|i: int, j: int|
            0 <= i < j < spec_partition(n, partition_count).len()
                ==> (#[trigger] spec_partition(n, partition_count)[i]).1
                <= (#[trigger] spec_partition(n, partition_count)[j]).0,
        forall|i: int|
            0 <= i < spec_partition(n, partition_count).len()
                ==> 2 <= (#[trigger] spec_partition(n, partition_count)[i]).0
                && spec_partition(n, partition_count)[i].1
                <= spec_covered_end(n, partition_count),
{
    let s = spec_partition(n, partition_count);
    let md = spec_max_divisor(n);
    if spec_uses_fallback(n, partition_count) {
        assert(s.len() == 1);
        assert(md >= 2);
    } else {
        let step = spec_partition_step(md, partition_count);
        lemma_div_by_self(partition_count);
        lemma_div_is_ordered(partition_count, md - 2, partition_count);
        assert(step >= 1);
        // The sequence is non-empty: the step is at most half the interval,
        // so at least one boundary beyond 2 lies below the interval's end.
        lemma_div_is_ordered_by_denominator(md - 2, 2, partition_count);
        assert((md - 2) / 2 <= md - 3);
        lemma_div_by_self(step);
        lemma_div_is_ordered(step, md - 3, step);
        assert(spec_range_count(md, step) >= 1);
        assert forall|i: int| 0 <= i < s.len() implies 0 <= #[trigger] (i * step) by {
            lemma_mul_inequality(0, i, step);
        }
        assert forall|i: int| 0 <= i < s.len() implies (#[trigger] s[i]).0 <= s[i].1 by {
            lemma_mul_inequality(i, i + 1, step);
        }
        assert forall|i: int, j: int| 0 <= i < j < s.len() implies (#[trigger] s[i]).1
            <= (#[trigger] s[j]).0 by {
            lemma_mul_inequality(i + 1, j, step);
        }
        assert forall|i: int| 0 <= i < s.len() implies (#[trigger] s[i]).1
            <= spec_covered_end(n, partition_count) by {
            lemma_mul_inequality(i + 1, s.len() as int, step);
        }
    }
}

/// Requesting a single partition, or strictly more partitions than there are
/// candidate divisors, yields the single-range fallback covering the whole
/// divisor interval `[2, n / 2 + 1)`.
///
/// (With a partition count exactly equal to the number of candidate
/// divisors the boundary generation still runs, so the fallback is only
/// owed for strictly larger counts.)
pub proof fn lemma_partition_fallback(n: int, partition_count: int)
    requires
        partition_count == 1 || partition_count > spec_max_divisor(n) - 2,
    ensures
        spec_partition(n, partition_count) =~= seq![(2int, spec_max_divisor(n))],
        spec_covers_fully(n, partition_count),
{
}

} // verus!
