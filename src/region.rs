//! Guest-region mappings and the region table built from them.

use crate::page::aligned;
use vstd::prelude::*;

verus! {

/// Where the contents of one guest memory region live: the region of `size`
/// bytes at host address `base_host_virt_addr` is backed by the bytes of the
/// backing file that start at `offset`.
#[derive(Clone, Copy, Debug, PartialEq, Eq, Structural)]
pub struct GuestRegionUffdMapping {
    /// Base host virtual address where the region's contents are installed.
    pub base_host_virt_addr: u64,
    /// Region size in bytes.
    pub size: usize,
    /// Offset in the backing file where the region's contents begin.
    pub offset: u64,
}

impl GuestRegionUffdMapping {
    /// One past the last host address of the region.
    pub open spec fn spec_end(self) -> int {
        self.base_host_virt_addr + self.size
    }

    pub open spec fn spec_contains(self, addr: int) -> bool {
        self.base_host_virt_addr <= addr < self.spec_end()
    }

    /// The backing-file offset that a host address of the region maps to.
    pub open spec fn spec_file_offset(self, addr: int) -> int {
        self.offset + (addr - self.base_host_virt_addr)
    }

    /// Base, size and offset are all multiples of the page size.
    pub open spec fn spec_aligned(self, ps: u64) -> bool {
        &&& aligned(self.base_host_virt_addr as int, ps)
        &&& aligned(self.size as int, ps)
        &&& aligned(self.offset as int, ps)
    }

    /// The host range fits in the address space and the file range in a file
    /// of `file_size` bytes.
    pub open spec fn spec_in_range(self, file_size: int) -> bool {
        &&& self.spec_end() <= u64::MAX
        &&& self.offset + self.size <= file_size
    }
}

/// Two mappings overlap in host address space.
pub open spec fn overlap(a: GuestRegionUffdMapping, b: GuestRegionUffdMapping) -> bool {
    a.base_host_virt_addr < b.spec_end() && b.base_host_virt_addr < a.spec_end()
}

pub open spec fn mappings_aligned(ms: Seq<GuestRegionUffdMapping>, ps: u64) -> bool {
    forall|i: int| 0 <= i < ms.len() ==> (#[trigger] ms[i]).spec_aligned(ps)
}

pub open spec fn mappings_in_range(ms: Seq<GuestRegionUffdMapping>, file_size: int) -> bool {
    forall|i: int| 0 <= i < ms.len() ==> (#[trigger] ms[i]).spec_in_range(file_size)
}

/// No two regions share a host address.
pub open spec fn mappings_disjoint(ms: Seq<GuestRegionUffdMapping>) -> bool {
    forall|i: int, j: int| 0 <= i < j < ms.len() ==> !overlap(#[trigger] ms[i], #[trigger] ms[j])
}

/// The sum of the region sizes.
pub open spec fn total_size(ms: Seq<GuestRegionUffdMapping>) -> nat
    decreases ms.len(),
{
    if ms.len() == 0 {
        0
    } else {
        total_size(ms.drop_last()) + ms.last().size as nat
    }
}

/// `i` is the first region that holds `addr`.
pub open spec fn first_region(ms: Seq<GuestRegionUffdMapping>, addr: int, i: int) -> bool {
    &&& 0 <= i < ms.len()
    &&& ms[i].spec_contains(addr)
    &&& forall|j: int| 0 <= j < i ==> !(#[trigger] ms[j]).spec_contains(addr)
}

/// Some region holds `addr`.
pub open spec fn mapped(ms: Seq<GuestRegionUffdMapping>, addr: int) -> bool {
    exists|i: int| 0 <= i < ms.len() && (#[trigger] ms[i]).spec_contains(addr)
}

/// An entry of the region table: a mapping and its cached upper bound.
#[derive(Clone, Copy, Debug)]
pub struct MemRegion {
    pub mapping: GuestRegionUffdMapping,
    /// One past the last host address of the region.
    pub end: u64,
}

impl MemRegion {
    pub open spec fn wf(self) -> bool {
        self.end == self.mapping.spec_end()
    }
}

/// The mappings held by a region table, in order.
pub open spec fn table_mappings(regions: Seq<MemRegion>) -> Seq<GuestRegionUffdMapping> {
    regions.map_values(|r: MemRegion| r.mapping)
}

pub open spec fn table_wf(regions: Seq<MemRegion>) -> bool {
    forall|i: int| 0 <= i < regions.len() ==> (#[trigger] regions[i]).wf()
}

/// Builds the region table: one entry per mapping, in the order given.
pub fn create_mem_regions(mappings: &Vec<GuestRegionUffdMapping>) -> (r: Vec<MemRegion>)
    requires
        forall|i: int| 0 <= i < mappings@.len() ==> (#[trigger] mappings@[i]).spec_end() <= u64::MAX,
    ensures
        table_wf(r@),
        table_mappings(r@) == mappings@,
{
    let mut mem_regions: Vec<MemRegion> = Vec::with_capacity(mappings.len());
    let mut i: usize = 0;
    while i < mappings.len()
        invariant
            0 <= i <= mappings@.len(),
            mem_regions@.len() == i,
            forall|k: int| 0 <= k < mappings@.len() ==> (#[trigger] mappings@[k]).spec_end() <= u64::MAX,
            forall|k: int| 0 <= k < i ==> (#[trigger] mem_regions@[k]).wf() && mem_regions@[k].mapping == mappings@[k],
        decreases mappings@.len() - i,
    {
        let mapping = mappings[i];
        let end = mapping.base_host_virt_addr + mapping.size as u64;
        mem_regions.push(MemRegion { mapping, end });
        i = i + 1;
    }
    assert(table_mappings(mem_regions@) =~= mappings@);
    mem_regions
}

/// Finds the first region that holds `addr`, scanning the table in order.
pub fn find_region(regions: &Vec<MemRegion>, addr: u64) -> (r: Option<usize>)
    requires
        table_wf(regions@),
    ensures
        match r {
            Some(i) => first_region(table_mappings(regions@), addr as int, i as int),
            None => !mapped(table_mappings(regions@), addr as int),
        },
{
    let ghost ms = table_mappings(regions@);
    let mut i: usize = 0;
    while i < regions.len()
        invariant
            0 <= i <= regions@.len(),
            ms == table_mappings(regions@),
            table_wf(regions@),
            forall|j: int| 0 <= j < i ==> !(#[trigger] ms[j]).spec_contains(addr as int),
        decreases regions@.len() - i,
    {
        let region = &regions[i];
        assert(region.wf());
        if addr >= region.mapping.base_host_virt_addr && addr < region.end {
            return Some(i);
        }
        i = i + 1;
    }
    None
}

/// The index of the first mapping that is not page-aligned, if any.
pub fn first_misaligned(mappings: &Vec<GuestRegionUffdMapping>, ps: u64) -> (r: Option<usize>)
    requires
        ps > 0,
    ensures
        match r {
            Some(i) => i < mappings@.len() && !mappings@[i as int].spec_aligned(ps)
                && forall|j: int| 0 <= j < i ==> (#[trigger] mappings@[j]).spec_aligned(ps),
            None => mappings_aligned(mappings@, ps),
        },
{
    let mut i: usize = 0;
    while i < mappings.len()
        invariant
            0 <= i <= mappings@.len(),
            ps > 0,
            forall|j: int| 0 <= j < i ==> (#[trigger] mappings@[j]).spec_aligned(ps),
        decreases mappings@.len() - i,
    {
        let m = mappings[i];
        if m.base_host_virt_addr % ps != 0 || m.size as u64 % ps != 0 || m.offset % ps != 0 {
            return Some(i);
        }
        i = i + 1;
    }
    None
}

/// The index of the first mapping whose host range overflows the address
/// space or whose file range reaches past `file_size`, if any.
pub fn first_out_of_range(mappings: &Vec<GuestRegionUffdMapping>, file_size: u64) -> (r: Option<usize>)
    ensures
        match r {
            Some(i) => i < mappings@.len() && !mappings@[i as int].spec_in_range(file_size as int)
                && forall|j: int| 0 <= j < i ==> (#[trigger] mappings@[j]).spec_in_range(file_size as int),
            None => mappings_in_range(mappings@, file_size as int),
        },
{
    let mut i: usize = 0;
    while i < mappings.len()
        invariant
            0 <= i <= mappings@.len(),
            forall|j: int| 0 <= j < i ==> (#[trigger] mappings@[j]).spec_in_range(file_size as int),
        decreases mappings@.len() - i,
    {
        let m = mappings[i];
        let size = m.size as u64;
        if m.base_host_virt_addr > u64::MAX - size || m.offset > file_size || size > file_size - m.offset {
            return Some(i);
        }
        i = i + 1;
    }
    None
}

/// `(i, j)` is the first overlapping pair, pairs ordered by `j`, then by `i`.
pub open spec fn first_overlap_pair(ms: Seq<GuestRegionUffdMapping>, i: int, j: int) -> bool {
    &&& 0 <= i < j < ms.len()
    &&& overlap(ms[i], ms[j])
    &&& forall|a: int, b: int| 0 <= a < b < j ==> !overlap(#[trigger] ms[a], #[trigger] ms[b])
    &&& forall|a: int| 0 <= a < i ==> !overlap(#[trigger] ms[a], ms[j])
}

/// The first pair `(i, j)`, `i < j`, of mappings that overlap in host address
/// space, if any (pairs ordered by `j`, then by `i`).
pub fn first_overlap(mappings: &Vec<GuestRegionUffdMapping>) -> (r: Option<(usize, usize)>)
    requires
        forall|i: int| 0 <= i < mappings@.len() ==> (#[trigger] mappings@[i]).spec_end() <= u64::MAX,
    ensures
        match r {
            Some((i, j)) => first_overlap_pair(mappings@, i as int, j as int),
            None => mappings_disjoint(mappings@),
        },
{
    let n = mappings.len();
    let mut j: usize = 0;
    while j < n
        invariant
            0 <= j <= n,
            n == mappings@.len(),
            forall|k: int| 0 <= k < n ==> (#[trigger] mappings@[k]).spec_end() <= u64::MAX,
            forall|a: int, b: int| 0 <= a < b < j ==> !overlap(#[trigger] mappings@[a], #[trigger] mappings@[b]),
        decreases n - j,
    {
        let mj = mappings[j];
        let end_j = mj.base_host_virt_addr + mj.size as u64;
        let mut i: usize = 0;
        while i < j
            invariant
                0 <= i <= j < n,
                n == mappings@.len(),
                mj == mappings@[j as int],
                end_j == mj.spec_end(),
                forall|k: int| 0 <= k < n ==> (#[trigger] mappings@[k]).spec_end() <= u64::MAX,
                forall|a: int| 0 <= a < i ==> !overlap(#[trigger] mappings@[a], mj),
                forall|a: int, b: int| 0 <= a < b < j ==> !overlap(#[trigger] mappings@[a], #[trigger] mappings@[b]),
            decreases j - i,
        {
            let mi = mappings[i];
            let end_i = mi.base_host_virt_addr + mi.size as u64;
            if mi.base_host_virt_addr < end_j && mj.base_host_virt_addr < end_i {
                return Some((i, j));
            }
            i = i + 1;
        }
        j = j + 1;
    }
    None
}

proof fn lemma_total_size_prefix(ms: Seq<GuestRegionUffdMapping>, k: int)
    requires
        0 <= k <= ms.len(),
    ensures
        total_size(ms.take(k)) <= total_size(ms),
    decreases ms.len() - k,
{
    if k < ms.len() {
        lemma_total_size_prefix(ms, k + 1);
        assert(ms.take(k + 1).drop_last() =~= ms.take(k));
    } else {
        assert(ms.take(k) =~= ms);
    }
}

/// Whether the region sizes add up to exactly `file_size` bytes.
pub fn sizes_match(mappings: &Vec<GuestRegionUffdMapping>, file_size: u64) -> (r: bool)
    ensures
        r == (total_size(mappings@) == file_size),
{
    let mut sum: u64 = 0;
    let mut i: usize = 0;
    while i < mappings.len()
        invariant
            0 <= i <= mappings@.len(),
            sum == total_size(mappings@.take(i as int)),
            sum <= file_size,
        decreases mappings@.len() - i,
    {
        let size = mappings[i].size as u64;
        assert(mappings@.take(i + 1).drop_last() =~= mappings@.take(i as int));
        if size > file_size - sum {
            proof {
                lemma_total_size_prefix(mappings@, i + 1);
            }
            return false;
        }
        sum = sum + size;
        i = i + 1;
    }
    assert(mappings@.take(i as int) =~= mappings@);
    sum == file_size
}

} // verus!
