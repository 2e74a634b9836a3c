//! What the installed pages hold, given the contents of the backing file.

use crate::handler::{action_dst, installed, memory_image, HandlerView};
use crate::page::{aligned, lemma_aligned_add_sub, lemma_aligned_gap, lemma_page_floor, spec_page_floor};
use crate::region::{first_region, overlap, total_size, GuestRegionUffdMapping};
use crate::segment::{kind_at, lemma_kind_at_unique, lemma_tiling_partitions, SegmentKind};
use vstd::prelude::*;
use vstd::set_lib::{lemma_int_range, lemma_set_disjoint_lens, lemma_subset_equality, set_int_range};

verus! {

/// A page installed for a fault in region `i` holds the backing file's bytes
/// `[ofs, ofs + page_size)` when the segment at its file offset `ofs` is
/// data, and zeros when that segment is a hole; `ofs` is the region's offset
/// plus the page's distance from the region's base.
pub proof fn lemma_installed_page_content(v: HandlerView, file: Seq<u8>, i: int, addr: u64)
    requires
        v.valid(),
        file.len() == v.backing_size,
        0 <= i < v.mappings.len(),
        v.mappings[i].spec_contains(spec_page_floor(addr, v.page_size)),
    ensures
        ({
            let page = spec_page_floor(addr, v.page_size);
            let ofs = v.mappings[i].spec_file_offset(page);
            let ps = v.page_size as int;
            &&& v.fault_result(addr) is Ok
            &&& action_dst(v.fault_result(addr)->Ok_0) == page
            &&& ofs + ps <= file.len()
            &&& kind_at(v.segments, ofs) == SegmentKind::Data
                ==> installed(v.fault_result(addr)->Ok_0, file) == file.subrange(ofs, ofs + ps)
            &&& kind_at(v.segments, ofs) == SegmentKind::Hole
                ==> installed(v.fault_result(addr)->Ok_0, file) == Seq::new(ps as nat, |k: int| 0u8)
        }),
{
    let ps = v.page_size;
    let page = spec_page_floor(addr, ps);
    let m = v.mappings[i];
    lemma_page_floor(addr, ps);
    assert(first_region(v.mappings, page, i)) by {
        assert forall|j: int| 0 <= j < i implies !(#[trigger] v.mappings[j]).spec_contains(page) by {
            if v.mappings[j].spec_contains(page) {
                assert(overlap(v.mappings[j], v.mappings[i]));
            }
        }
    }
    let c = choose|c: int| first_region(v.mappings, page, c);
    if c < i {
        assert(!v.mappings[c].spec_contains(page));
    } else if i < c {
        assert(!v.mappings[i].spec_contains(page));
    }
    assert(m.spec_aligned(ps));
    assert(m.spec_in_range(v.backing_size as int));
    let base = m.base_host_virt_addr as int;
    lemma_aligned_add_sub(page, base, ps);
    lemma_aligned_gap(page - base, m.size as int, ps);
}

/// Replaying faults over every address of every region reconstructs the
/// backing file with its holes read as zeros: the byte installed for an
/// address of region `i` is the image's byte at the address's file offset.
/// This needs segments whose starts are page-aligned, so that no page
/// straddles a data/hole boundary.
pub proof fn lemma_replay_reconstructs(v: HandlerView, file: Seq<u8>, i: int, addr: u64)
    requires
        v.valid(),
        file.len() == v.backing_size,
        0 <= i < v.mappings.len(),
        v.mappings[i].spec_contains(addr as int),
        forall|k: int| 0 <= k < v.segments.len() ==> aligned((#[trigger] v.segments[k]).start as int, v.page_size),
    ensures
        ({
            let ofs = v.mappings[i].spec_file_offset(addr as int);
            &&& v.fault_result(addr) is Ok
            &&& 0 <= ofs < file.len()
            &&& installed(v.fault_result(addr)->Ok_0, file)[addr - action_dst(v.fault_result(addr)->Ok_0)]
                == memory_image(file, v.segments)[ofs]
        }),
{
    let ps = v.page_size;
    let page = spec_page_floor(addr, ps);
    let m = v.mappings[i];
    let base = m.base_host_virt_addr as int;
    lemma_page_floor(addr, ps);
    assert(m.spec_aligned(ps));
    assert(m.spec_in_range(v.backing_size as int));
    if page < base {
        lemma_aligned_gap(page, base, ps);
    }
    assert(m.spec_contains(page));
    lemma_installed_page_content(v, file, i, addr);
    let a = v.fault_result(addr)->Ok_0;
    let ofs_p = m.spec_file_offset(page);
    let ofs_a = m.spec_file_offset(addr as int);
    let d = addr - page;
    lemma_aligned_add_sub(page, base, ps);
    lemma_aligned_add_sub(m.offset as int, page - base, ps);
    assert(aligned(ofs_p, ps));
    let segs = v.segments;
    lemma_tiling_partitions(segs, v.backing_size as int, ofs_p);
    let k = choose|k: int| 0 <= k < segs.len() && (#[trigger] segs[k]).spec_contains(ofs_p);
    lemma_kind_at_unique(segs, ofs_p, k);
    if k < segs.len() - 1 {
        assert(segs[k].end + 1 == segs[k + 1].start);
        assert(aligned(segs[k + 1].start as int, ps));
        lemma_aligned_gap(ofs_p, segs[k + 1].start as int, ps);
    }
    assert(segs[k].spec_contains(ofs_a));
    lemma_kind_at_unique(segs, ofs_a, k);
    if kind_at(segs, ofs_p) == SegmentKind::Data {
        assert(installed(a, file)[d] == file[ofs_p + d]);
    } else {
        assert(installed(a, file)[d] == 0u8);
    }
}

/// The file bytes that a region maps.
pub open spec fn file_range(m: GuestRegionUffdMapping) -> Set<int> {
    set_int_range(m.offset as int, m.offset + m.size)
}

/// The file bytes that some region maps.
pub open spec fn mapped_offsets(ms: Seq<GuestRegionUffdMapping>) -> Set<int>
    decreases ms.len(),
{
    if ms.len() == 0 {
        Set::empty()
    } else {
        mapped_offsets(ms.drop_last()) + file_range(ms.last())
    }
}

/// No file byte is mapped by two regions.
pub open spec fn file_ranges_disjoint(ms: Seq<GuestRegionUffdMapping>) -> bool {
    forall|i: int, j: int|
        0 <= i < j < ms.len() ==> (#[trigger] ms[i]).offset + ms[i].size <= ms[j].offset
            || (#[trigger] ms[j]).offset + ms[j].size <= ms[i].offset
}

proof fn lemma_mapped_offsets(ms: Seq<GuestRegionUffdMapping>)
    requires
        file_ranges_disjoint(ms),
    ensures
        mapped_offsets(ms).finite(),
        mapped_offsets(ms).len() == total_size(ms),
        forall|x: int| #[trigger] mapped_offsets(ms).contains(x) <==> exists|i: int|
            0 <= i < ms.len() && (#[trigger] file_range(ms[i])).contains(x),
    decreases ms.len(),
{
    if ms.len() > 0 {
        let init = ms.drop_last();
        let last = ms.last();
        assert forall|i: int, j: int| 0 <= i < j < init.len() implies (#[trigger] init[i]).offset + init[i].size
            <= init[j].offset || (#[trigger] init[j]).offset + init[j].size <= init[i].offset by {
            assert(init[i] == ms[i] && init[j] == ms[j]);
        }
        lemma_mapped_offsets(init);
        lemma_int_range(last.offset as int, last.offset + last.size);
        assert(mapped_offsets(init).disjoint(file_range(last))) by {
            assert forall|x: int| mapped_offsets(init).contains(x) implies !file_range(last).contains(x) by {
                let i = choose|i: int| 0 <= i < init.len() && (#[trigger] file_range(init[i])).contains(x);
                assert(ms[i] == init[i]);
                assert(ms[i].offset + ms[i].size <= last.offset || last.offset + last.size <= ms[i].offset);
            }
        }
        lemma_set_disjoint_lens(mapped_offsets(init), file_range(last));
        assert forall|x: int| #[trigger] mapped_offsets(ms).contains(x) <==> exists|i: int|
            0 <= i < ms.len() && (#[trigger] file_range(ms[i])).contains(x) by {
            if mapped_offsets(ms).contains(x) {
                if mapped_offsets(init).contains(x) {
                    let i = choose|i: int| 0 <= i < init.len() && (#[trigger] file_range(init[i])).contains(x);
                    assert(ms[i] == init[i]);
                } else {
                    assert(file_range(ms[ms.len() - 1]).contains(x));
                }
            }
            if exists|i: int| 0 <= i < ms.len() && (#[trigger] file_range(ms[i])).contains(x) {
                let i = choose|i: int| 0 <= i < ms.len() && (#[trigger] file_range(ms[i])).contains(x);
                if i < ms.len() - 1 {
                    assert(init[i] == ms[i]);
                }
            }
        }
    }
}

/// When no file byte is mapped twice, the regions, whose sizes add up to the
/// file length, map every byte of the backing file; replaying a fault at the
/// host address of each byte installs the byte of the file with its holes
/// read as zeros. As in the per-address law, segment starts are page-aligned.
pub proof fn lemma_replay_covers_file(v: HandlerView, file: Seq<u8>, ofs: int)
    requires
        v.valid(),
        file.len() == v.backing_size,
        forall|k: int| 0 <= k < v.segments.len() ==> aligned((#[trigger] v.segments[k]).start as int, v.page_size),
        file_ranges_disjoint(v.mappings),
        0 <= ofs < file.len(),
    ensures
        exists|i: int, addr: u64|
            {
                &&& 0 <= i < v.mappings.len()
                &&& #[trigger] v.mappings[i].spec_contains(addr as int)
                &&& v.mappings[i].spec_file_offset(addr as int) == ofs
                &&& v.fault_result(addr) is Ok
                &&& installed(v.fault_result(addr)->Ok_0, file)[addr - action_dst(v.fault_result(addr)->Ok_0)]
                    == memory_image(file, v.segments)[ofs]
            },
{
    let ms = v.mappings;
    lemma_mapped_offsets(ms);
    let whole = set_int_range(0, v.backing_size as int);
    lemma_int_range(0, v.backing_size as int);
    assert(mapped_offsets(ms).subset_of(whole)) by {
        assert forall|x: int| mapped_offsets(ms).contains(x) implies whole.contains(x) by {
            let i = choose|i: int| 0 <= i < ms.len() && (#[trigger] file_range(ms[i])).contains(x);
            assert(ms[i].spec_in_range(v.backing_size as int));
        }
    }
    lemma_subset_equality(mapped_offsets(ms), whole);
    assert(whole.contains(ofs));
    assert(mapped_offsets(ms).contains(ofs));
    let i = choose|i: int| 0 <= i < ms.len() && (#[trigger] file_range(ms[i])).contains(ofs);
    let m = ms[i];
    assert(m.spec_in_range(v.backing_size as int));
    let addr = (m.base_host_virt_addr + (ofs - m.offset)) as u64;
    assert(m.spec_contains(addr as int));
    lemma_replay_reconstructs(v, file, i, addr);
}

} // verus!
