//! Data/hole segments of the backing memory file and their lookup.

use core::cmp::Ordering;
use vstd::prelude::*;

verus! {

/// Whether a byte range of the backing file stores data or is a sparse hole.
#[derive(Clone, Copy, Debug, PartialEq, Eq, Structural)]
pub enum SegmentKind {
    Hole,
    Data,
}

/// A byte range `[start, end]` of the backing file (both ends included) and
/// its classification.
#[derive(Clone, Copy, Debug, PartialEq, Eq, Structural)]
pub struct Segment {
    pub start: u64,
    pub end: u64,
    pub kind: SegmentKind,
}

impl Segment {
    pub open spec fn spec_contains(self, offset: int) -> bool {
        self.start <= offset <= self.end
    }

    /// Whether `offset` lies in `[start, end]`.
    pub fn contains(&self, offset: u64) -> (r: bool)
        ensures
            r == self.spec_contains(offset as int),
    {
        offset >= self.start && offset <= self.end
    }

    /// Whether the file stores bytes in this segment.
    pub fn is_data(&self) -> (r: bool)
        ensures
            r == (self.kind == SegmentKind::Data),
    {
        match self.kind {
            SegmentKind::Data => true,
            SegmentKind::Hole => false,
        }
    }
}

/// Segments are ascending and pairwise disjoint, each one non-empty.
pub open spec fn segments_sorted(segs: Seq<Segment>) -> bool {
    &&& forall|i: int| 0 <= i < segs.len() ==> (#[trigger] segs[i]).start <= segs[i].end
    &&& forall|i: int, j: int| 0 <= i < j < segs.len() ==> (#[trigger] segs[i]).end < (#[trigger] segs[j]).start
}

/// Neighbouring segments follow each other without a gap.
pub open spec fn segments_adjacent(segs: Seq<Segment>) -> bool {
    forall|i: int, j: int|
        0 <= i && j == i + 1 && j < segs.len() ==> (#[trigger] segs[i]).end + 1 == (#[trigger] segs[j]).start
}

/// The segments tile a file of `size` bytes: they start at offset 0, follow
/// each other without gap or overlap, and the last one reaches the end of the
/// file (it may name the end offset itself as its last byte).
pub open spec fn segments_tile(segs: Seq<Segment>, size: int) -> bool {
    if size == 0 {
        segs.len() == 0
    } else {
        &&& segs.len() > 0
        &&& segs[0].start == 0
        &&& forall|i: int| 0 <= i < segs.len() ==> (#[trigger] segs[i]).start <= segs[i].end
        &&& segments_adjacent(segs)
        &&& segs.last().start < size
        &&& segs.last().end + 1 >= size
    }
}

/// Some segment holds `offset`.
pub open spec fn classified(segs: Seq<Segment>, offset: int) -> bool {
    exists|i: int| 0 <= i < segs.len() && (#[trigger] segs[i]).spec_contains(offset)
}

/// The kind of the segment that holds `offset`.
pub open spec fn kind_at(segs: Seq<Segment>, offset: int) -> SegmentKind {
    let i = choose|i: int| 0 <= i < segs.len() && (#[trigger] segs[i]).spec_contains(offset);
    segs[i].kind
}

/// Orders `address` against the range of `segment`: `Greater` when the
/// segment lies above the address, `Less` when it lies below, `Equal` when it
/// holds the address.
pub fn segment_cmp(segment: &Segment, address: u64) -> (r: Ordering)
    ensures
        r == Ordering::Greater <==> address < segment.start,
        r == Ordering::Less <==> segment.start <= address && address > segment.end,
        r == Ordering::Equal <==> segment.spec_contains(address as int),
{
    if address < segment.start {
        return Ordering::Greater;
    }
    if address > segment.end {
        return Ordering::Less;
    }
    Ordering::Equal
}

/// Adjacent, non-empty segments are sorted and disjoint.
pub proof fn lemma_adjacent_sorted(segs: Seq<Segment>)
    requires
        forall|i: int| 0 <= i < segs.len() ==> (#[trigger] segs[i]).start <= segs[i].end,
        segments_adjacent(segs),
    ensures
        segments_sorted(segs),
{
    assert forall|i: int, j: int| 0 <= i < j < segs.len() implies (#[trigger] segs[i]).end < (#[trigger] segs[j]).start by {
        lemma_adjacent_step(segs, i, j);
    }
}

proof fn lemma_adjacent_step(segs: Seq<Segment>, i: int, j: int)
    requires
        forall|k: int| 0 <= k < segs.len() ==> (#[trigger] segs[k]).start <= segs[k].end,
        segments_adjacent(segs),
        0 <= i < j < segs.len(),
    ensures
        segs[i].end < segs[j].start,
    decreases j - i,
{
    assert(segs[j - 1].end + 1 == segs[j].start);
    if i < j - 1 {
        lemma_adjacent_step(segs, i, j - 1);
        assert(segs[j - 1].start <= segs[j - 1].end);
    }
}

/// In sorted segments at most one segment holds an offset, so `kind_at`
/// names the kind of any segment that holds it.
pub proof fn lemma_kind_at_unique(segs: Seq<Segment>, offset: int, i: int)
    requires
        segments_sorted(segs),
        0 <= i < segs.len(),
        segs[i].spec_contains(offset),
    ensures
        classified(segs, offset),
        kind_at(segs, offset) == segs[i].kind,
{
    let j = choose|j: int| 0 <= j < segs.len() && (#[trigger] segs[j]).spec_contains(offset);
    if j < i {
        assert(segs[j].end < segs[i].start);
    } else if i < j {
        assert(segs[i].end < segs[j].start);
    }
}

/// Segments that tile a file classify every offset of it in exactly one
/// segment: no offset is left out and none is covered twice.
pub proof fn lemma_tiling_partitions(segs: Seq<Segment>, size: int, offset: int)
    requires
        segments_tile(segs, size),
        0 <= offset < size,
    ensures
        segments_sorted(segs),
        classified(segs, offset),
        forall|i: int, j: int|
            0 <= i < segs.len() && 0 <= j < segs.len() && (#[trigger] segs[i]).spec_contains(offset)
                && (#[trigger] segs[j]).spec_contains(offset) ==> i == j,
{
    lemma_adjacent_sorted(segs);
    lemma_cover_from(segs, size, offset, 0);
    assert forall|i: int, j: int|
        0 <= i < segs.len() && 0 <= j < segs.len() && (#[trigger] segs[i]).spec_contains(offset)
            && (#[trigger] segs[j]).spec_contains(offset) implies i == j by {
        if i < j {
            assert(segs[i].end < segs[j].start);
        } else if j < i {
            assert(segs[j].end < segs[i].start);
        }
    }
}

proof fn lemma_cover_from(segs: Seq<Segment>, size: int, offset: int, k: int)
    requires
        segments_tile(segs, size),
        0 <= offset < size,
        0 <= k < segs.len(),
        segs[k].start <= offset,
    ensures
        classified(segs, offset),
    decreases segs.len() - k,
{
    if segs[k].end >= offset {
        assert(segs[k].spec_contains(offset));
    } else {
        assert(segs[k].end + 1 == segs[k + 1].start);
        lemma_cover_from(segs, size, offset, k + 1);
    }
}

/// Binary search for the segment that holds `offset`.
pub fn find_segment(segs: &Vec<Segment>, offset: u64) -> (r: Option<usize>)
    requires
        segments_sorted(segs@),
    ensures
        match r {
            Some(i) => i < segs@.len() && segs@[i as int].spec_contains(offset as int),
            None => !classified(segs@, offset as int),
        },
{
    let mut lo: usize = 0;
    let mut hi: usize = segs.len();
    while lo < hi
        invariant
            0 <= lo <= hi <= segs@.len(),
            segments_sorted(segs@),
            forall|i: int| 0 <= i < lo ==> (#[trigger] segs@[i]).end < offset,
            forall|i: int| hi <= i < segs@.len() ==> offset < (#[trigger] segs@[i]).start,
        decreases hi - lo,
    {
        let mid = lo + (hi - lo) / 2;
        match segment_cmp(&segs[mid], offset) {
            Ordering::Equal => {
                return Some(mid);
            },
            Ordering::Less => {
                assert forall|i: int| 0 <= i <= mid implies (#[trigger] segs@[i]).end < offset by {
                    if i < mid {
                        assert(segs@[i].end < segs@[mid as int].start);
                    }
                }
                lo = mid + 1;
            },
            Ordering::Greater => {
                assert forall|i: int| mid <= i < segs@.len() implies offset < (#[trigger] segs@[i]).start by {
                    if mid < i {
                        assert(segs@[mid as int].end < segs@[i].start);
                    }
                }
                hi = mid;
            },
        }
    }
    assert(!classified(segs@, offset as int)) by {
        if classified(segs@, offset as int) {
            let i = choose|i: int| 0 <= i < segs@.len() && (#[trigger] segs@[i]).spec_contains(offset as int);
            assert(i < lo || hi <= i);
        }
    }
    None
}

/// Checks that `segs` tile a file of `size` bytes.
pub fn check_segments(segs: &Vec<Segment>, size: u64) -> (r: bool)
    ensures
        r == segments_tile(segs@, size as int),
{
    let n = segs.len();
    if size == 0 {
        return n == 0;
    }
    if n == 0 || segs[0].start != 0 {
        return false;
    }
    let mut i: usize = 0;
    while i < n
        invariant
            0 <= i <= n,
            n == segs@.len(),
            n > 0,
            forall|k: int| 0 <= k < i ==> (#[trigger] segs@[k]).start <= segs@[k].end,
            forall|k: int, l: int|
                0 <= k < i && l == k + 1 && l < n ==> (#[trigger] segs@[k]).end + 1 == (#[trigger] segs@[l]).start,
        decreases n - i,
    {
        if segs[i].start > segs[i].end {
            return false;
        }
        if i + 1 < n && (segs[i].end == u64::MAX || segs[i].end + 1 != segs[i + 1].start) {
            assert(!segments_adjacent(segs@)) by {
                let k = i as int;
                assert(segs@[k].end + 1 != segs@[k + 1].start);
            }
            return false;
        }
        i = i + 1;
    }
    let last = segs[n - 1];
    last.start < size && last.end >= size - 1
}

} // verus!
