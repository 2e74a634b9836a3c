//! The handler context: validated at handshake, then asked for the install
//! operation that answers each userfault event.

use crate::page::{is_valid_page_size, lemma_page_floor, page_floor, spec_page_floor, valid_page_size};
use crate::region::{
    create_mem_regions, find_region, first_misaligned, first_out_of_range, first_overlap,
    first_overlap_pair, first_region, mapped, mappings_aligned, mappings_disjoint, mappings_in_range,
    sizes_match, table_mappings, table_wf, total_size, GuestRegionUffdMapping, MemRegion,
};
use crate::segment::{
    check_segments, find_segment, kind_at, lemma_kind_at_unique, lemma_tiling_partitions,
    segments_tile, Segment, SegmentKind,
};
use vstd::prelude::*;

verus! {

/// States that a page of guest memory can be in. The handler itself keeps no
/// per-page state: it derives each page's contents from the segment map.
#[derive(Clone, Copy, Debug, PartialEq, Eq, Structural)]
pub enum MemPageState {
    Uninitialized,
    FromFile,
    Removed,
    Anonymous,
}

/// Why a handshake was rejected.
#[derive(Clone, Copy, Debug, PartialEq, Eq, Structural)]
pub enum HandshakeError {
    /// The page size is not a non-zero power of two.
    BadPageSize,
    /// The mapping at `index` has a base, size or offset off a page boundary.
    Misaligned { index: usize },
    /// The mapping at `index` overflows the address space or reaches past
    /// the end of the backing file.
    OutOfRange { index: usize },
    /// The mappings at `first` and `second` share host addresses.
    Overlap { first: usize, second: usize },
    /// The region sizes do not add up to the backing file's length.
    SizeMismatch,
    /// The segments do not tile the backing file.
    BadSegments,
}

/// The install operation that answers a page fault.
#[derive(Clone, Copy, Debug, PartialEq, Eq, Structural)]
pub enum FaultAction {
    /// Copy `len` bytes from `src_offset` of the backing file to host address
    /// `dst`, and wake the faulting thread.
    Copy { src_offset: u64, dst: u64, len: u64 },
    /// Install `len` zero bytes at host address `dst`, and wake the faulting
    /// thread.
    ZeroPage { dst: u64, len: u64 },
}

/// A fault or event that the handler cannot serve.
#[derive(Clone, Copy, Debug, PartialEq, Eq, Structural)]
pub enum FaultError {
    /// No region holds the page of the faulting address `addr`.
    Unmapped { addr: u64 },
    /// An event other than a page fault or a removal.
    UnexpectedEvent,
}

/// A userfault event, as read from the userfault descriptor.
#[derive(Clone, Copy, Debug, PartialEq, Eq, Structural)]
pub enum UffdEvent {
    Pagefault { addr: u64, write: bool },
    Remove { start: u64, end: u64 },
    Other,
}

/// The host address that an install operation targets.
pub open spec fn action_dst(a: FaultAction) -> u64 {
    match a {
        FaultAction::Copy { dst, .. } => dst,
        FaultAction::ZeroPage { dst, .. } => dst,
    }
}

/// The number of bytes that an install operation installs.
pub open spec fn action_len(a: FaultAction) -> u64 {
    match a {
        FaultAction::Copy { len, .. } => len,
        FaultAction::ZeroPage { len, .. } => len,
    }
}

/// The bytes that an install operation puts in place, given the contents of
/// the backing file.
pub open spec fn installed(a: FaultAction, file: Seq<u8>) -> Seq<u8> {
    match a {
        FaultAction::Copy { src_offset, len, .. } => file.subrange(src_offset as int, src_offset + len),
        FaultAction::ZeroPage { len, .. } => Seq::new(len as nat, |k: int| 0u8),
    }
}

/// The backing file with its holes read as zeros.
pub open spec fn memory_image(file: Seq<u8>, segs: Seq<Segment>) -> Seq<u8> {
    Seq::new(file.len(), |k: int| if kind_at(segs, k) == SegmentKind::Data { file[k] } else { 0u8 })
}

/// What a handshake must satisfy: a power-of-two page size; page-aligned
/// regions inside the address space and the file, disjoint in host space,
/// whose sizes add up to the file length; segments that tile the file.
pub open spec fn handshake_valid(
    ms: Seq<GuestRegionUffdMapping>,
    segs: Seq<Segment>,
    file_size: u64,
    ps: u64,
) -> bool {
    &&& valid_page_size(ps)
    &&& mappings_aligned(ms, ps)
    &&& mappings_in_range(ms, file_size as int)
    &&& mappings_disjoint(ms)
    &&& total_size(ms) == file_size
    &&& segments_tile(segs, file_size as int)
}

/// The state of a handler: its region table, its segment list, the page size
/// and the length of the backing file.
pub struct HandlerView {
    pub mappings: Seq<GuestRegionUffdMapping>,
    pub segments: Seq<Segment>,
    pub page_size: u64,
    pub backing_size: u64,
    pub peer_pid: u32,
}

impl HandlerView {
    pub open spec fn valid(self) -> bool {
        handshake_valid(self.mappings, self.segments, self.backing_size, self.page_size)
    }

    /// The install operation for a page that starts at `page`, whose file
    /// offset is `ofs`.
    pub open spec fn page_action(self, page: int, ofs: int) -> FaultAction {
        if kind_at(self.segments, ofs) == SegmentKind::Data {
            FaultAction::Copy { src_offset: ofs as u64, dst: page as u64, len: self.page_size }
        } else {
            FaultAction::ZeroPage { dst: page as u64, len: self.page_size }
        }
    }

    /// The answer to a fault at `addr`: the page that holds it is looked up
    /// in the first region that holds that page, and is filled from the file
    /// or with zeros by the kind of the segment at its file offset.
    pub open spec fn fault_result(self, addr: u64) -> Result<FaultAction, FaultError> {
        let page = spec_page_floor(addr, self.page_size);
        if mapped(self.mappings, page) {
            let i = choose|i: int| first_region(self.mappings, page, i);
            Ok(self.page_action(page, self.mappings[i].spec_file_offset(page)))
        } else {
            Err(FaultError::Unmapped { addr })
        }
    }

    /// The answer to an event: at most one install operation.
    pub open spec fn event_result(self, event: UffdEvent) -> Result<Option<FaultAction>, FaultError> {
        match event {
            UffdEvent::Pagefault { addr, .. } => match self.fault_result(addr) {
                Ok(a) => Ok(Some(a)),
                Err(e) => Err(e),
            },
            UffdEvent::Remove { .. } => Ok(None),
            UffdEvent::Other => Err(FaultError::UnexpectedEvent),
        }
    }
}

/// The handler context bound to one peer: the region table, the segments of
/// the backing file, the page size, the file length and the peer's pid.
pub struct UffdPfHandler {
    mem_regions: Vec<MemRegion>,
    mem_segments: Vec<Segment>,
    page_size: u64,
    backing_size: u64,
    firecracker_pid: u32,
}

impl View for UffdPfHandler {
    type V = HandlerView;

    closed spec fn view(&self) -> HandlerView {
        HandlerView {
            mappings: table_mappings(self.mem_regions@),
            segments: self.mem_segments@,
            page_size: self.page_size,
            backing_size: self.backing_size,
            peer_pid: self.firecracker_pid,
        }
    }
}

impl UffdPfHandler {
    /// The region table's entries agree with their cached bounds.
    pub closed spec fn table_ok(&self) -> bool {
        table_wf(self.mem_regions@)
    }

    pub open spec fn wf(&self) -> bool {
        self.table_ok() && self@.valid()
    }

    /// Validates the handshake data and builds the handler context.
    ///
    /// The checks run in this order, and the first that fails names the
    /// error: the page size, the alignment of each mapping, the range of
    /// each mapping, overlap between mappings, the sum of the sizes against
    /// the file length, and the segments against the file length.
    pub fn from_handshake(
        mappings: Vec<GuestRegionUffdMapping>,
        backing_size: u64,
        mem_segments: Vec<Segment>,
        page_size: u64,
        firecracker_pid: u32,
    ) -> (r: Result<UffdPfHandler, HandshakeError>)
        ensures
            r is Ok <==> handshake_valid(mappings@, mem_segments@, backing_size, page_size),
            r matches Ok(h) ==> h.wf() && h@ == (HandlerView {
                mappings: mappings@,
                segments: mem_segments@,
                page_size,
                backing_size,
                peer_pid: firecracker_pid,
            }),
            r == Err::<UffdPfHandler, HandshakeError>(HandshakeError::BadPageSize) <==> !valid_page_size(page_size),
            r matches Err(HandshakeError::Misaligned { index }) ==> valid_page_size(page_size)
                && index < mappings@.len() && !mappings@[index as int].spec_aligned(page_size)
                && forall|j: int| 0 <= j < index ==> (#[trigger] mappings@[j]).spec_aligned(page_size),
            valid_page_size(page_size) && !mappings_aligned(mappings@, page_size)
                ==> r matches Err(HandshakeError::Misaligned { .. }),
            r matches Err(HandshakeError::OutOfRange { index }) ==> valid_page_size(page_size)
                && mappings_aligned(mappings@, page_size)
                && index < mappings@.len() && !mappings@[index as int].spec_in_range(backing_size as int)
                && forall|j: int| 0 <= j < index ==> (#[trigger] mappings@[j]).spec_in_range(backing_size as int),
            valid_page_size(page_size) && mappings_aligned(mappings@, page_size)
                && !mappings_in_range(mappings@, backing_size as int)
                ==> r matches Err(HandshakeError::OutOfRange { .. }),
            r matches Err(HandshakeError::Overlap { first, second }) ==> valid_page_size(page_size)
                && mappings_aligned(mappings@, page_size)
                && mappings_in_range(mappings@, backing_size as int)
                && first_overlap_pair(mappings@, first as int, second as int),
            valid_page_size(page_size) && mappings_aligned(mappings@, page_size)
                && mappings_in_range(mappings@, backing_size as int) && !mappings_disjoint(mappings@)
                ==> r matches Err(HandshakeError::Overlap { .. }),
            r == Err::<UffdPfHandler, HandshakeError>(HandshakeError::SizeMismatch) <==> valid_page_size(page_size)
                && mappings_aligned(mappings@, page_size)
                && mappings_in_range(mappings@, backing_size as int) && mappings_disjoint(mappings@)
                && total_size(mappings@) != backing_size,
            r == Err::<UffdPfHandler, HandshakeError>(HandshakeError::BadSegments) <==> valid_page_size(page_size)
                && mappings_aligned(mappings@, page_size)
                && mappings_in_range(mappings@, backing_size as int) && mappings_disjoint(mappings@)
                && total_size(mappings@) == backing_size
                && !segments_tile(mem_segments@, backing_size as int),
    {
        if !is_valid_page_size(page_size) {
            return Err(HandshakeError::BadPageSize);
        }
        match first_misaligned(&mappings, page_size) {
            Some(index) => {
                return Err(HandshakeError::Misaligned { index });
            },
            None => {},
        }
        match first_out_of_range(&mappings, backing_size) {
            Some(index) => {
                return Err(HandshakeError::OutOfRange { index });
            },
            None => {},
        }
        match first_overlap(&mappings) {
            Some((first, second)) => {
                return Err(HandshakeError::Overlap { first, second });
            },
            None => {},
        }
        if !sizes_match(&mappings, backing_size) {
            return Err(HandshakeError::SizeMismatch);
        }
        if !check_segments(&mem_segments, backing_size) {
            return Err(HandshakeError::BadSegments);
        }
        let mem_regions = create_mem_regions(&mappings);
        Ok(UffdPfHandler { mem_regions, mem_segments, page_size, backing_size, firecracker_pid })
    }

    /// The page size that the handler installs pages in.
    pub fn page_size(&self) -> (r: u64)
        ensures
            r == self@.page_size,
    {
        self.page_size
    }

    /// The length of the backing file.
    pub fn backing_size(&self) -> (r: u64)
        ensures
            r == self@.backing_size,
    {
        self.backing_size
    }

    /// The process id of the peer that handed over the userfault descriptor.
    pub fn firecracker_pid(&self) -> (r: u32)
        ensures
            r == self@.peer_pid,
    {
        self.firecracker_pid
    }

    /// The install operation that answers a fault at `addr`. Read and write
    /// faults are served alike.
    pub fn serve_pf(&self, addr: u64, write: bool) -> (r: Result<FaultAction, FaultError>)
        requires
            self.wf(),
        ensures
            r == self@.fault_result(addr),
    {
        let ghost v = self@;
        let ps = self.page_size;
        let page = page_floor(addr, ps);
        match find_region(&self.mem_regions, page) {
            None => Err(FaultError::Unmapped { addr }),
            Some(i) => {
                let m = self.mem_regions[i].mapping;
                proof {
                    assert(v.mappings[i as int] == m);
                    let c = choose|c: int| first_region(v.mappings, page as int, c);
                    if c < i {
                        assert(!v.mappings[c].spec_contains(page as int));
                    } else if i < c {
                        assert(!v.mappings[i as int].spec_contains(page as int));
                    }
                    assert(m.spec_in_range(self.backing_size as int));
                }
                let ofs = m.offset + (page - m.base_host_virt_addr);
                proof {
                    lemma_tiling_partitions(self.mem_segments@, self.backing_size as int, ofs as int);
                }
                match find_segment(&self.mem_segments, ofs) {
                    Some(j) => {
                        proof {
                            lemma_kind_at_unique(self.mem_segments@, ofs as int, j as int);
                        }
                        if self.mem_segments[j].is_data() {
                            Ok(FaultAction::Copy { src_offset: ofs, dst: page, len: ps })
                        } else {
                            Ok(FaultAction::ZeroPage { dst: page, len: ps })
                        }
                    },
                    None => {
                        // the segments tile the file, and `ofs` lies inside it
                        proof {
                            assert(false);
                        }
                        Err(FaultError::Unmapped { addr })
                    },
                }
            },
        }
    }

    /// Answers one userfault event. A page fault gets exactly one install
    /// operation, aimed at the page that holds the faulting address; a
    /// removal gets none, so that a later fault in the range fetches the
    /// snapshot contents again; any other event is an error.
    pub fn serve_event(&self, event: UffdEvent) -> (r: Result<Option<FaultAction>, FaultError>)
        requires
            self.wf(),
        ensures
            r == self@.event_result(event),
            event matches UffdEvent::Pagefault { addr, .. } ==> match r {
                Ok(Some(a)) => action_dst(a) == spec_page_floor(addr, self@.page_size)
                    && action_dst(a) <= addr < action_dst(a) + action_len(a)
                    && action_len(a) == self@.page_size,
                Ok(None) => false,
                Err(e) => e == FaultError::Unmapped { addr },
            },
            event matches UffdEvent::Remove { .. } ==> r == Ok::<Option<FaultAction>, FaultError>(None),
    {
        match event {
            UffdEvent::Pagefault { addr, write } => {
                proof {
                    lemma_page_floor(addr, self@.page_size);
                }
                match self.serve_pf(addr, write) {
                    Ok(a) => Ok(Some(a)),
                    Err(e) => Err(e),
                }
            },
            UffdEvent::Remove { .. } => Ok(None),
            UffdEvent::Other => Err(FaultError::UnexpectedEvent),
        }
    }
}

} // verus!
