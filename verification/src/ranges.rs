//! Splitting a resource of known size into contiguous byte ranges.

use vstd::prelude::*;
use vstd::string::StringExecFns;
use crate::text::{decimal, push_decimal};

verus! {

/// A contiguous interval of byte offsets; both ends are inclusive.
#[derive(Clone, Copy, Debug, PartialEq, Eq, Structural)]
pub struct ChunkRange {
    pub start: u64,
    pub end: u64,
}

impl ChunkRange {
    /// Number of bytes in the range (zero when `end < start`).
    pub open spec fn spec_len(self) -> nat {
        if self.start <= self.end {
            (self.end - self.start + 1) as nat
        } else {
            0
        }
    }

    /// Whether the range holds at least one byte and no more than a `u64`
    /// can count.
    pub open spec fn fits(self) -> bool {
        self.start <= self.end && self.end - self.start < u64::MAX
    }

    /// Whether byte offset `b` lies inside the range.
    pub open spec fn covers(self, b: int) -> bool {
        self.start <= b <= self.end
    }

    /// The value of the `Range` header that asks for this range:
    /// `bytes=`, the first offset, `-`, the last offset.
    pub open spec fn header(self) -> Seq<char> {
        "bytes="@ + decimal(self.start as nat) + "-"@ + decimal(self.end as nat)
    }

    /// The bytes of `resource` that the range holds.
    pub open spec fn slice(self, resource: Seq<u8>) -> Seq<u8> {
        resource.subrange(self.start as int, self.end + 1)
    }

    /// Writes the value of the `Range` header that asks for this range.
    pub fn header_value(&self) -> (value: String)
        ensures
            value@ == self.header(),
    {
        let mut value = String::from_str("bytes=");
        push_decimal(&mut value, self.start);
        value.append("-");
        push_decimal(&mut value, self.end);
        value
    }
}

/// Number of ranges planned for `total` bytes and `count` workers: one range
/// per worker, but never more ranges than there are bytes.
pub open spec fn planned_count(total: nat, count: nat) -> nat {
    if count <= total {
        count
    } else {
        total
    }
}

/// Offset at which range `i` begins when `total` bytes are split into `n`
/// ranges; `boundary(total, n, n)` is `total`.
pub open spec fn boundary(total: nat, n: nat, i: nat) -> nat {
    (i * total) / n
}

/// Range `i` of the split of `total` bytes into `n` ranges.
pub open spec fn planned_range(total: nat, n: nat, i: nat) -> ChunkRange {
    ChunkRange {
        start: boundary(total, n, i) as u64,
        end: (boundary(total, n, i + 1) - 1) as u64,
    }
}

/// The ranges planned for `total` bytes and `count` workers.
pub open spec fn planned_ranges(total: nat, count: nat) -> Seq<ChunkRange> {
    let n = planned_count(total, count);
    Seq::new(n, |i: int| planned_range(total, n, i as nat))
}

/// `ranges` split `[0, total - 1]` exactly: they are non-empty, the first
/// starts at 0, each next one starts right after its predecessor ends, and the
/// last ends at `total - 1`. For `total == 0` there are no ranges.
pub open spec fn partitions(ranges: Seq<ChunkRange>, total: nat) -> bool {
    if total == 0 {
        ranges.len() == 0
    } else {
        &&& ranges.len() > 0
        &&& ranges[0].start == 0
        &&& ranges[ranges.len() - 1].end == total - 1
        &&& forall|i: int| 0 <= i < ranges.len() ==> (#[trigger] ranges[i]).start <= ranges[i].end
        &&& forall|i: int|
            0 <= i < ranges.len() - 1 ==> (#[trigger] ranges[i + 1]).start == ranges[i].end + 1
    }
}

/// Total number of bytes in `ranges`.
pub open spec fn total_len(ranges: Seq<ChunkRange>) -> nat
    decreases ranges.len(),
{
    if ranges.len() == 0 {
        0
    } else {
        total_len(ranges.drop_last()) + ranges.last().spec_len()
    }
}

/// Boundaries of a split are ordered, start at 0, stay within `total` and, as
/// long as there are no more ranges than bytes, strictly increase.
pub proof fn lemma_boundary(total: nat, n: nat, i: nat)
    requires
        1 <= n <= total,
        i < n,
    ensures
        boundary(total, n, 0) == 0,
        boundary(total, n, n) == total,
        boundary(total, n, i) < boundary(total, n, i + 1) <= total,
{
    assert((0 * total) / n == 0) by (nonlinear_arith)
        requires
            n >= 1,
    ;
    assert((n * total) / n == total) by (nonlinear_arith)
        requires
            n >= 1,
    ;
    assert(((i + 1) * total) / n > (i * total) / n) by (nonlinear_arith)
        requires
            1 <= n <= total,
    {
        assert((i + 1) * total == i * total + total);
        assert((i * total + n) / n == (i * total) / n + 1);
        assert((i * total + total) / n >= (i * total + n) / n);
    }
    assert(((i + 1) * total) / n <= total) by (nonlinear_arith)
        requires
            1 <= n,
            i + 1 <= n,
    {
        assert((i + 1) * total <= n * total);
        assert((n * total) / n == total);
    }
}

/// Reads the fields of a planned range as plain integers.
pub proof fn lemma_planned_range(total: nat, n: nat, i: nat)
    requires
        1 <= n <= total <= u64::MAX,
        i < n,
    ensures
        planned_range(total, n, i).start == boundary(total, n, i),
        planned_range(total, n, i).end == boundary(total, n, i + 1) - 1,
        planned_range(total, n, i).start <= planned_range(total, n, i).end < total,
{
    lemma_boundary(total, n, i);
}

/// The planned ranges split `[0, total - 1]` exactly, and there are
/// `min(count, total)` of them.
pub proof fn lemma_plan_partitions(total: nat, count: nat)
    requires
        count >= 1,
        total <= u64::MAX,
    ensures
        planned_ranges(total, count).len() == planned_count(total, count),
        partitions(planned_ranges(total, count), total),
{
    let n = planned_count(total, count);
    let ranges = planned_ranges(total, count);
    if total > 0 {
        lemma_boundary(total, n, 0);
        lemma_planned_range(total, n, 0);
        lemma_planned_range(total, n, (n - 1) as nat);
        assert forall|i: int| 0 <= i < ranges.len() implies (#[trigger] ranges[i]).start
            <= ranges[i].end by {
            lemma_planned_range(total, n, i as nat);
        }
        assert forall|i: int| 0 <= i < ranges.len() - 1 implies (#[trigger] ranges[i + 1]).start
            == ranges[i].end + 1 by {
            lemma_planned_range(total, n, i as nat);
            lemma_planned_range(total, n, (i + 1) as nat);
        }
    }
}

/// In a partition, the first `k` ranges hold exactly the bytes up to the end
/// of range `k - 1`.
proof fn lemma_prefix_len(ranges: Seq<ChunkRange>, total: nat, k: int)
    requires
        total > 0,
        partitions(ranges, total),
        1 <= k <= ranges.len(),
    ensures
        total_len(ranges.take(k)) == ranges[k - 1].end + 1,
    decreases k,
{
    let prefix = ranges.take(k);
    assert(prefix.last() == ranges[k - 1]);
    assert(prefix.drop_last() =~= ranges.take(k - 1));
    if k == 1 {
        assert(total_len(ranges.take(0)) == 0);
    } else {
        lemma_prefix_len(ranges, total, k - 1);
        assert(ranges[(k - 2) + 1].start == ranges[k - 2].end + 1);
    }
}

/// The ranges of a partition hold `total` bytes between them.
pub proof fn lemma_partition_total_len(ranges: Seq<ChunkRange>, total: nat)
    requires
        partitions(ranges, total),
    ensures
        total_len(ranges) == total,
{
    if total > 0 {
        lemma_prefix_len(ranges, total, ranges.len() as int);
        assert(ranges.take(ranges.len() as int) =~= ranges);
    }
}

/// In a partition, an earlier range ends before a later one starts: no two
/// ranges share a byte.
pub proof fn lemma_partition_disjoint(ranges: Seq<ChunkRange>, total: nat, i: int, j: int)
    requires
        partitions(ranges, total),
        0 <= i < j < ranges.len(),
    ensures
        ranges[i].end < ranges[j].start,
    decreases j - i,
{
    assert(ranges[(j - 1) + 1].start == ranges[j - 1].end + 1);
    if i < j - 1 {
        lemma_partition_disjoint(ranges, total, i, j - 1);
        assert(ranges[j - 1].start <= ranges[j - 1].end);
    }
}

/// Whether some range of `ranges` holds byte offset `b`.
pub open spec fn covered(ranges: Seq<ChunkRange>, b: int) -> bool {
    exists|i: int| 0 <= i < ranges.len() && (#[trigger] ranges[i]).covers(b)
}

/// Every byte up to the end of range `k - 1` lies in one of the first `k`
/// ranges of a partition.
proof fn lemma_prefix_covers(ranges: Seq<ChunkRange>, total: nat, k: int, b: int)
    requires
        total > 0,
        partitions(ranges, total),
        1 <= k <= ranges.len(),
        0 <= b <= ranges[k - 1].end,
    ensures
        exists|i: int| 0 <= i < k && (#[trigger] ranges[i]).covers(b),
    decreases k,
{
    if k == 1 {
        assert(ranges[0].covers(b));
    } else if b <= ranges[k - 2].end {
        lemma_prefix_covers(ranges, total, k - 1, b);
    } else {
        assert(ranges[(k - 2) + 1].start == ranges[k - 2].end + 1);
        assert(ranges[k - 1].covers(b));
    }
}

/// In a partition of `[0, total - 1]`, the bytes held by some range are
/// exactly those of the resource, no byte lies in two ranges, and no range
/// reaches beyond `total - 1`.
pub proof fn lemma_partition_exact(ranges: Seq<ChunkRange>, total: nat)
    requires
        partitions(ranges, total),
    ensures
        forall|b: int| 0 <= b < total ==> #[trigger] covered(ranges, b),
        forall|b: int| #[trigger] covered(ranges, b) ==> 0 <= b < total,
        forall|b: int, i: int, j: int|
            0 <= i < ranges.len() && 0 <= j < ranges.len() && #[trigger] ranges[i].covers(b)
                && #[trigger] ranges[j].covers(b) ==> i == j,
        forall|i: int| 0 <= i < ranges.len() ==> (#[trigger] ranges[i]).end < total,
{
    if total > 0 {
        let n = ranges.len() as int;
        assert forall|b: int| 0 <= b < total implies #[trigger] covered(ranges, b) by {
            lemma_prefix_covers(ranges, total, n, b);
        }
        assert forall|b: int, i: int, j: int|
            0 <= i < ranges.len() && 0 <= j < ranges.len() && #[trigger] ranges[i].covers(b)
                && #[trigger] ranges[j].covers(b) implies i == j by {
            if i < j {
                lemma_partition_disjoint(ranges, total, i, j);
            } else if j < i {
                lemma_partition_disjoint(ranges, total, j, i);
            }
        }
        assert forall|i: int| 0 <= i < ranges.len() implies (#[trigger] ranges[i]).end < total by {
            if i < n - 1 {
                lemma_partition_disjoint(ranges, total, i, n - 1);
                assert(ranges[n - 1].start <= ranges[n - 1].end);
            }
        }
        assert forall|b: int| #[trigger] covered(ranges, b) implies 0 <= b < total by {
            let i = choose|i: int| 0 <= i < ranges.len() && (#[trigger] ranges[i]).covers(b);
            assert(ranges[i].end < total);
        }
    }
}

/// The bytes that `ranges` hold of `resource`, range after range.
pub open spec fn assembled(ranges: Seq<ChunkRange>, resource: Seq<u8>) -> Seq<u8>
    decreases ranges.len(),
{
    if ranges.len() == 0 {
        Seq::empty()
    } else {
        assembled(ranges.drop_last(), resource) + ranges.last().slice(resource)
    }
}

/// The first `k` ranges of a partition hold, one after another, the
/// resource up to the end of range `k - 1`.
proof fn lemma_prefix_assembled(ranges: Seq<ChunkRange>, resource: Seq<u8>, k: int)
    requires
        resource.len() > 0,
        partitions(ranges, resource.len()),
        1 <= k <= ranges.len(),
    ensures
        assembled(ranges.take(k), resource) == resource.take(ranges[k - 1].end + 1),
    decreases k,
{
    let total = resource.len();
    let prefix = ranges.take(k);
    lemma_partition_exact(ranges, total);
    assert(prefix.last() == ranges[k - 1]);
    assert(prefix.drop_last() =~= ranges.take(k - 1));
    assert(ranges[k - 1].start <= ranges[k - 1].end);
    if k == 1 {
        assert(assembled(ranges.take(0), resource) =~= Seq::<u8>::empty());
        assert(assembled(prefix, resource) =~= resource.take(ranges[0].end + 1));
    } else {
        lemma_prefix_assembled(ranges, resource, k - 1);
        assert(ranges[(k - 2) + 1].start == ranges[k - 2].end + 1);
        assert(assembled(prefix, resource) =~= resource.take(ranges[k - 1].end + 1));
    }
}

/// Fetched range by range and put together in order, the pieces of a
/// partition are the resource itself: nothing is missing, doubled or moved.
pub proof fn lemma_partition_reassembles(ranges: Seq<ChunkRange>, resource: Seq<u8>)
    requires
        partitions(ranges, resource.len()),
    ensures
        assembled(ranges, resource) == resource,
{
    if resource.len() > 0 {
        lemma_prefix_assembled(ranges, resource, ranges.len() as int);
        assert(ranges.take(ranges.len() as int) =~= ranges);
        assert(resource.take(resource.len() as int) =~= resource);
    } else {
        assert(assembled(ranges, resource) =~= resource);
    }
}

/// One worker gets the whole resource as its range.
pub proof fn lemma_single_range(total: nat)
    requires
        0 < total <= u64::MAX,
    ensures
        planned_ranges(total, 1) == seq![ChunkRange { start: 0, end: (total - 1) as u64 }],
{
    lemma_boundary(total, 1, 0);
    assert(planned_ranges(total, 1) =~= seq![ChunkRange { start: 0, end: (total - 1) as u64 }]);
}

/// Splits `total` bytes into `min(count, total)` contiguous ranges. Range `i`
/// of `n` spans `[i * total / n, (i + 1) * total / n - 1]`, so the last one
/// ends at `total - 1` and takes up the remainder of the division.
pub fn plan_ranges(total: u64, count: u64) -> (ranges: Vec<ChunkRange>)
    requires
        count >= 1,
    ensures
        ranges@ == planned_ranges(total as nat, count as nat),
        ranges@.len() == planned_count(total as nat, count as nat),
        partitions(ranges@, total as nat),
{
    let n: u64 = if count <= total {
        count
    } else {
        total
    };
    let mut ranges: Vec<ChunkRange> = Vec::new();
    let mut i: u64 = 0;
    let mut start: u64 = 0;
    proof {
        if n > 0 {
            lemma_boundary(total as nat, n as nat, 0);
        }
    }
    while i < n
        invariant
            n == planned_count(total as nat, count as nat),
            n <= total,
            i <= n,
            n > 0 ==> start == boundary(total as nat, n as nat, i as nat),
            ranges@.len() == i,
            forall|k: int|
                0 <= k < i ==> #[trigger] ranges@[k] == planned_range(
                    total as nat,
                    n as nat,
                    k as nat,
                ),
        decreases n - i,
    {
        proof {
            lemma_boundary(total as nat, n as nat, i as nat);
            assert((i + 1) * total <= u128::MAX) by (nonlinear_arith)
                requires
                    i + 1 <= u64::MAX,
                    total <= u64::MAX,
            ;
        }
        let next: u64 = (((i as u128) + 1) * (total as u128) / (n as u128)) as u64;
        ranges.push(ChunkRange { start, end: next - 1 });
        start = next;
        i = i + 1;
    }
    proof {
        lemma_plan_partitions(total as nat, count as nat);
        assert(ranges@ =~= planned_ranges(total as nat, count as nat));
    }
    ranges
}

} // verus!
