use douyin_downloader::ranges::{plan_ranges, ChunkRange};

fn range(start: u64, end: u64) -> ChunkRange {
    ChunkRange { start, end }
}

/// Checks by hand that `ranges` split `[0, total - 1]` without gap or overlap.
fn splits_exactly(ranges: &[ChunkRange], total: u64) -> bool {
    if total == 0 {
        return ranges.is_empty();
    }
    if ranges.is_empty() || ranges[0].start != 0 || ranges[ranges.len() - 1].end != total - 1 {
        return false;
    }
    for r in ranges {
        if r.start > r.end {
            return false;
        }
    }
    for pair in ranges.windows(2) {
        if pair[1].start != pair[0].end + 1 {
            return false;
        }
    }
    true
}

#[test]
fn thousand_bytes_four_workers() {
    let ranges = plan_ranges(1000, 4);
    assert_eq!(
        ranges,
        vec![range(0, 249), range(250, 499), range(500, 749), range(750, 999)]
    );
    for r in &ranges {
        assert_eq!(r.end - r.start + 1, 250);
    }
    assert!(splits_exactly(&ranges, 1000));
}

#[test]
fn remainder_is_spread_and_last_range_ends_at_the_last_byte() {
    assert_eq!(plan_ranges(10, 3), vec![range(0, 2), range(3, 5), range(6, 9)]);
    assert_eq!(
        plan_ranges(1003, 4),
        vec![range(0, 249), range(250, 500), range(501, 751), range(752, 1002)]
    );
    assert_eq!(plan_ranges(7, 2), vec![range(0, 2), range(3, 6)]);
}

#[test]
fn fewer_bytes_than_workers_gives_one_byte_each() {
    assert_eq!(plan_ranges(3, 8), vec![range(0, 0), range(1, 1), range(2, 2)]);
    assert_eq!(plan_ranges(1, 255), vec![range(0, 0)]);
}

#[test]
fn as_many_bytes_as_workers() {
    assert_eq!(
        plan_ranges(4, 4),
        vec![range(0, 0), range(1, 1), range(2, 2), range(3, 3)]
    );
}

#[test]
fn one_worker_takes_everything() {
    assert_eq!(plan_ranges(1000, 1), vec![range(0, 999)]);
    assert_eq!(plan_ranges(u64::MAX, 1), vec![range(0, u64::MAX - 1)]);
}

#[test]
fn empty_resource_has_no_ranges() {
    assert_eq!(plan_ranges(0, 1), vec![]);
    assert_eq!(plan_ranges(0, 8), vec![]);
}

#[test]
fn largest_resource_is_split_without_overflow() {
    let ranges = plan_ranges(u64::MAX, 255);
    assert_eq!(ranges.len(), 255);
    assert!(splits_exactly(&ranges, u64::MAX));
    assert_eq!(ranges[0], range(0, 72340172838076672));
    assert_eq!(ranges[254].end, u64::MAX - 1);
}

#[test]
fn plans_split_exactly_for_many_sizes_and_counts() {
    for total in 0u64..=60 {
        for count in 1u64..=20 {
            let ranges = plan_ranges(total, count);
            assert_eq!(ranges.len() as u64, count.min(total));
            assert!(splits_exactly(&ranges, total), "total {} count {}", total, count);
            let covered: u64 = ranges.iter().map(|r| r.end - r.start + 1).sum();
            assert_eq!(covered, total);
        }
    }
}

#[test]
fn range_follows_the_formula() {
    let total = 987_654_321u64;
    let count = 7u64;
    let ranges = plan_ranges(total, count);
    for (i, r) in ranges.iter().enumerate() {
        let i = i as u64;
        assert_eq!(r.start, i * total / count);
        assert_eq!(r.end, (i + 1) * total / count - 1);
    }
}

#[test]
fn header_value_names_both_ends() {
    assert_eq!(range(0, 249).header_value(), "bytes=0-249");
    assert_eq!(range(750, 999).header_value(), "bytes=750-999");
    assert_eq!(range(10, 10).header_value(), "bytes=10-10");
    assert_eq!(
        range(0, u64::MAX - 1).header_value(),
        "bytes=0-18446744073709551614"
    );
}
