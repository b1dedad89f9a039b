use core::ops::Range;
use prime_search::division_range::{
    division_max_divisor, partition_size, partitioned_division_ranges,
};

fn to_vec(ranges: Vec<Range<u32>>) -> Vec<Vec<u32>> {
    ranges.into_iter().map(|range| range.collect()).collect()
}

#[test]
fn it_partitions_correctly() {
    assert_eq!(partition_size(50, 2), 24);
    assert_eq!(partition_size(100, 2), 49);

    assert_eq!(partition_size(50, 4), 12);
    assert_eq!(partition_size(100, 4), 24);
}

#[test]
fn it_returns_full_range_for_1_partition() {
    assert_eq!(to_vec(partitioned_division_ranges(1, 1)), [[]]);
    assert_eq!(to_vec(partitioned_division_ranges(2, 1)), [[]]);
    assert_eq!(to_vec(partitioned_division_ranges(3, 1)), [[]]);
    assert_eq!(to_vec(partitioned_division_ranges(4, 1)), [[2]]);
    assert_eq!(to_vec(partitioned_division_ranges(5, 1)), [[2]]);
    assert_eq!(to_vec(partitioned_division_ranges(6, 1)), [[2, 3]]);
    assert_eq!(to_vec(partitioned_division_ranges(7, 1)), [[2, 3]]);
    assert_eq!(to_vec(partitioned_division_ranges(8, 1)), [[2, 3, 4]]);
    assert_eq!(to_vec(partitioned_division_ranges(9, 1)), [[2, 3, 4]]);
    assert_eq!(to_vec(partitioned_division_ranges(10, 1)), [[2, 3, 4, 5]]);
}

#[test]
fn it_returns_two_range_partitions_for_8() {
    let result = partitioned_division_ranges(8, 2);

    let expected_result = [2..3, 3..4];

    assert_eq!(result, expected_result);
}

#[test]
fn it_returns_two_range_partitions_for_100() {
    let result = partitioned_division_ranges(100, 2);

    let expected_result = [2..26, 26..50];

    assert_eq!(result, expected_result);
}

#[test]
fn it_returns_four_range_partitions_for_100() {
    let result = partitioned_division_ranges(100, 4);

    let expected_result = [2..14, 14..26, 26..38, 38..50];

    assert_eq!(result, expected_result);
}

#[test]
fn it_returns_single_partition_for_partition_count_larger_than_or_equal_to_max_divisor() {
    assert_eq!(partitioned_division_ranges(5, 2), [2..3]);
    assert_eq!(partitioned_division_ranges(5, 3), [2..3]);
    assert_eq!(partitioned_division_ranges(5, 4), [2..3]);
    assert_eq!(partitioned_division_ranges(5, 5), [2..3]);
    assert_eq!(partitioned_division_ranges(5, 10), [2..3]);

    assert_eq!(partitioned_division_ranges(8, 4), [2..5]);
    assert_eq!(partitioned_division_ranges(8, 10), [2..5]);

    assert_eq!(partitioned_division_ranges(10, 100), [2..6]);
    assert_eq!(partitioned_division_ranges(10, 1000), [2..6]);
    assert_eq!(partitioned_division_ranges(10, 10000), [2..6]);
}

#[test]
fn it_calculates_half_of_number() {
    assert_eq!(division_max_divisor(3), 2);
    assert_eq!(division_max_divisor(4), 3);
    assert_eq!(division_max_divisor(5), 3);
    assert_eq!(division_max_divisor(6), 4);
    assert_eq!(division_max_divisor(7), 4);
    assert_eq!(division_max_divisor(8), 5);
    assert_eq!(division_max_divisor(9), 5);
    assert_eq!(division_max_divisor(10), 6);
}

#[test]
fn tiny_candidates_get_a_single_empty_range() {
    // For candidates at or below 1 the divisor interval [2, n / 2 + 1) is
    // empty, so the fallback single range is empty whatever the count.
    assert_eq!(partitioned_division_ranges(0, 5), [2..1]);
    assert_eq!(partitioned_division_ranges(1, 12), [2..1]);
    assert_eq!(partitioned_division_ranges(2, 12), [2..2]);
    assert_eq!(partitioned_division_ranges(3, 12), [2..2]);
}

#[test]
fn partitions_stay_contiguous_and_ordered() {
    for n in [20u32, 50, 100, 1000, 65537] {
        for count in [2u32, 3, 5, 12] {
            let ranges = partitioned_division_ranges(n, count);
            assert!(!ranges.is_empty());
            assert_eq!(ranges[0].start, 2);
            for w in ranges.windows(2) {
                assert_eq!(w[0].end, w[1].start);
                assert!(w[0].start < w[1].start);
            }
            for r in &ranges {
                assert!(r.start <= r.end);
                assert!(r.end <= n / 2 + 1);
            }
        }
    }
}
