//! A model of the destination file: what it holds after the pieces of a
//! download have been written at their offsets, in whatever order the
//! workers got to write them.

use vstd::prelude::*;
use crate::ranges::{covered, lemma_partition_exact, partitions, ChunkRange};

verus! {

/// One positional write: `bytes` put into the file from `offset` on.
pub struct PieceWrite {
    pub offset: int,
    pub bytes: Seq<u8>,
}

impl PieceWrite {
    /// Whether the write reaches byte `b` of the file.
    pub open spec fn touches(self, b: int) -> bool {
        self.offset <= b < self.offset + self.bytes.len()
    }

    /// Whether the write puts bytes of `resource` where they belong: it lies
    /// inside the resource and holds what the resource holds there.
    pub open spec fn truthful(self, resource: Seq<u8>) -> bool {
        &&& 0 <= self.offset
        &&& self.offset + self.bytes.len() <= resource.len()
        &&& self.bytes == resource.subrange(self.offset, self.offset + self.bytes.len())
    }
}

/// The file after one positional write. A write behind the end of the file
/// lengthens it; what lies between the old end and the write reads as 0.
pub open spec fn write_at(file: Seq<u8>, write: PieceWrite) -> Seq<u8> {
    let end = write.offset + write.bytes.len();
    let len = if file.len() >= end {
        file.len() as int
    } else {
        end
    };
    Seq::new(
        len as nat,
        |i: int|
            if write.touches(i) {
                write.bytes[i - write.offset]
            } else if i < file.len() {
                file[i]
            } else {
                0u8
            },
    )
}

/// The file after the writes `writes`, in their order.
pub open spec fn after_writes(file: Seq<u8>, writes: Seq<PieceWrite>) -> Seq<u8>
    decreases writes.len(),
{
    if writes.len() == 0 {
        file
    } else {
        write_at(after_writes(file, writes.drop_last()), writes.last())
    }
}

/// Whether one of `writes` reaches byte `b`.
pub open spec fn touched(writes: Seq<PieceWrite>, b: int) -> bool {
    exists|k: int| 0 <= k < writes.len() && (#[trigger] writes[k]).touches(b)
}

/// Whether every one of `writes` puts bytes of `resource` where they belong.
pub open spec fn all_truthful(writes: Seq<PieceWrite>, resource: Seq<u8>) -> bool {
    forall|k: int| 0 <= k < writes.len() ==> (#[trigger] writes[k]).truthful(resource)
}

/// Whether `file` has a byte `b` and holds there what `resource` holds.
pub open spec fn holds_byte(file: Seq<u8>, resource: Seq<u8>, b: int) -> bool {
    0 <= b < file.len() && b < resource.len() && file[b] == resource[b]
}

/// Writes that put bytes of the resource where they belong never lengthen
/// the file beyond the resource, and every byte that one of them reached
/// holds what the resource holds there, whatever the order of the writes and
/// however often a byte was written.
pub proof fn lemma_writes_agree(file: Seq<u8>, resource: Seq<u8>, writes: Seq<PieceWrite>)
    requires
        file.len() <= resource.len(),
        all_truthful(writes, resource),
    ensures
        file.len() <= after_writes(file, writes).len() <= resource.len(),
        forall|b: int|
            #[trigger] touched(writes, b) ==> holds_byte(after_writes(file, writes), resource, b),
    decreases writes.len(),
{
    if writes.len() > 0 {
        let earlier = writes.drop_last();
        let last = writes.last();
        assert(last == writes[writes.len() - 1]);
        assert(last.truthful(resource));
        assert forall|k: int| 0 <= k < earlier.len() implies (#[trigger] earlier[k]).truthful(
            resource,
        ) by {
            assert(earlier[k] == writes[k]);
        }
        lemma_writes_agree(file, resource, earlier);
        let before = after_writes(file, earlier);
        let after = after_writes(file, writes);
        assert forall|b: int| #[trigger] touched(writes, b) implies holds_byte(
            after,
            resource,
            b,
        ) by {
            let k = choose|k: int| 0 <= k < writes.len() && (#[trigger] writes[k]).touches(b);
            if last.touches(b) {
                assert(last.bytes[b - last.offset] == resource[b]);
            } else {
                assert(k < earlier.len());
                assert(earlier[k] == writes[k]);
                assert(touched(earlier, b));
                assert(holds_byte(before, resource, b));
            }
        }
    }
}

/// Once every byte of the resource has been reached by a write that put
/// bytes of the resource where they belong, the file is the resource, byte
/// for byte: the same as after one fetch from the first byte to the last.
pub proof fn lemma_writes_rebuild(file: Seq<u8>, resource: Seq<u8>, writes: Seq<PieceWrite>)
    requires
        file.len() <= resource.len(),
        all_truthful(writes, resource),
        forall|b: int| 0 <= b < resource.len() ==> touched(writes, b),
    ensures
        after_writes(file, writes) == resource,
{
    lemma_writes_agree(file, resource, writes);
    let after = after_writes(file, writes);
    if resource.len() > 0 {
        assert(touched(writes, resource.len() - 1));
        assert(holds_byte(after, resource, resource.len() - 1));
    }
    assert forall|b: int| 0 <= b < resource.len() implies after[b] == resource[b] by {
        assert(touched(writes, b));
        assert(holds_byte(after, resource, b));
    }
    assert(after =~= resource);
}

/// The write that puts the whole of `range` into the file at once.
pub open spec fn range_write(range: ChunkRange, resource: Seq<u8>) -> PieceWrite {
    PieceWrite { offset: range.start as int, bytes: range.slice(resource) }
}

/// Workers that each write the bytes of their own range rebuild the
/// resource, in whatever order they write: where `ranges` split the resource
/// and `writes` holds, among writes that put bytes of the resource where
/// they belong, the write of every range, the file is the resource.
pub proof fn lemma_ranges_rebuild(
    file: Seq<u8>,
    resource: Seq<u8>,
    ranges: Seq<ChunkRange>,
    writes: Seq<PieceWrite>,
)
    requires
        file.len() <= resource.len(),
        partitions(ranges, resource.len()),
        all_truthful(writes, resource),
        forall|i: int|
            0 <= i < ranges.len() ==> exists|k: int|
                0 <= k < writes.len() && #[trigger] writes[k] == range_write(
                    #[trigger] ranges[i],
                    resource,
                ),
    ensures
        after_writes(file, writes) == resource,
{
    lemma_partition_exact(ranges, resource.len());
    assert forall|b: int| 0 <= b < resource.len() implies touched(writes, b) by {
        assert(covered(ranges, b));
        let i = choose|i: int| 0 <= i < ranges.len() && (#[trigger] ranges[i]).covers(b);
        let k = choose|k: int|
            0 <= k < writes.len() && #[trigger] writes[k] == range_write(ranges[i], resource);
        assert(ranges[i].end < resource.len());
        assert(writes[k].touches(b));
    }
    lemma_writes_rebuild(file, resource, writes);
}

} // verus!
