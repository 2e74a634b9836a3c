use uffd::handler::{FaultAction, FaultError, HandshakeError, UffdEvent, UffdPfHandler};
use uffd::region::GuestRegionUffdMapping;
use uffd::segment::{Segment, SegmentKind};

const PS: u64 = 4096;

fn mapping(base: u64, size: usize, offset: u64) -> GuestRegionUffdMapping {
    GuestRegionUffdMapping { base_host_virt_addr: base, size, offset }
}

fn seg(start: u64, end: u64, kind: SegmentKind) -> Segment {
    Segment { start, end, kind }
}

fn dense_two_pages() -> UffdPfHandler {
    UffdPfHandler::from_handshake(
        vec![mapping(0x1000_0000, 0x2000, 0x0)],
        0x2000,
        vec![seg(0, 0x2000, SegmentKind::Data)],
        PS,
        42,
    )
    .unwrap()
}

fn sparse_two_pages() -> UffdPfHandler {
    UffdPfHandler::from_handshake(
        vec![mapping(0x1000_0000, 0x2000, 0x0)],
        0x2000,
        vec![seg(0, 0xfff, SegmentKind::Hole), seg(0x1000, 0x2000, SegmentKind::Data)],
        PS,
        42,
    )
    .unwrap()
}

#[test]
fn data_page_fault_copies_from_file() {
    let h = dense_two_pages();
    assert_eq!(
        h.serve_pf(0x1000_0abc, false),
        Ok(FaultAction::Copy { src_offset: 0x0, dst: 0x1000_0000, len: 4096 })
    );
}

#[test]
fn hole_page_fault_installs_zero_page() {
    let h = sparse_two_pages();
    assert_eq!(h.serve_pf(0x1000_0000, false), Ok(FaultAction::ZeroPage { dst: 0x1000_0000, len: 4096 }));
    assert_eq!(
        h.serve_pf(0x1000_1000, true),
        Ok(FaultAction::Copy { src_offset: 0x1000, dst: 0x1000_1000, len: 4096 })
    );
}

#[test]
fn offset_translation() {
    let h = UffdPfHandler::from_handshake(
        vec![mapping(0x2000_0000, 0x1000, 0x5000)],
        0x6000,
        vec![seg(0, 0x4fff, SegmentKind::Hole), seg(0x5000, 0x6000, SegmentKind::Data)],
        PS,
        1,
    );
    // the sizes add up to 0x1000 only, so this table is rejected ...
    assert_eq!(h.err(), Some(HandshakeError::SizeMismatch));
    // ... and a second region that fills the rest is accepted
    let h = UffdPfHandler::from_handshake(
        vec![mapping(0x2000_0000, 0x1000, 0x5000), mapping(0x4000_0000, 0x5000, 0x0)],
        0x6000,
        vec![seg(0, 0x4fff, SegmentKind::Hole), seg(0x5000, 0x6000, SegmentKind::Data)],
        PS,
        1,
    )
    .unwrap();
    assert_eq!(
        h.serve_pf(0x2000_0abc, false),
        Ok(FaultAction::Copy { src_offset: 0x5000, dst: 0x2000_0000, len: 4096 })
    );
    assert_eq!(h.serve_pf(0x4000_2001, false), Ok(FaultAction::ZeroPage { dst: 0x4000_2000, len: 4096 }));
}

#[test]
fn unmapped_address_is_an_error() {
    let h = dense_two_pages();
    assert_eq!(h.serve_pf(0x3000_0000, false), Err(FaultError::Unmapped { addr: 0x3000_0000 }));
    assert_eq!(h.serve_pf(0x1000_2000, false), Err(FaultError::Unmapped { addr: 0x1000_2000 }));
    assert_eq!(h.serve_pf(0x0fff_ffff, false), Err(FaultError::Unmapped { addr: 0x0fff_ffff }));
}

#[test]
fn remove_event_issues_no_install() {
    let h = sparse_two_pages();
    assert_eq!(h.serve_event(UffdEvent::Remove { start: 0x1000_0000, end: 0x1000_1000 }), Ok(None));
    assert_eq!(
        h.serve_event(UffdEvent::Pagefault { addr: 0x1000_0000, write: false }),
        Ok(Some(FaultAction::ZeroPage { dst: 0x1000_0000, len: 4096 }))
    );
}

#[test]
fn pagefault_event_targets_the_faulting_page() {
    let h = dense_two_pages();
    for addr in [0x1000_0000u64, 0x1000_0001, 0x1000_0fff, 0x1000_1000, 0x1000_1fff] {
        match h.serve_event(UffdEvent::Pagefault { addr, write: true }) {
            Ok(Some(FaultAction::Copy { src_offset, dst, len })) => {
                assert_eq!(dst, addr & !(PS - 1));
                assert_eq!(len, PS);
                assert_eq!(src_offset, dst - 0x1000_0000);
            }
            other => panic!("unexpected answer {:?}", other),
        }
    }
}

#[test]
fn other_event_is_an_error() {
    let h = dense_two_pages();
    assert_eq!(h.serve_event(UffdEvent::Other), Err(FaultError::UnexpectedEvent));
}

#[test]
fn size_mismatch_at_handshake() {
    let r = UffdPfHandler::from_handshake(
        vec![mapping(0x1000_0000, 0x1000, 0x0)],
        8192,
        vec![seg(0, 8192, SegmentKind::Data)],
        PS,
        1,
    );
    assert_eq!(r.err(), Some(HandshakeError::SizeMismatch));
}

#[test]
fn bad_page_size_at_handshake() {
    for ps in [0u64, 3, 4095, 6000] {
        let r = UffdPfHandler::from_handshake(
            vec![mapping(0x1000_0000, 0x2000, 0x0)],
            0x2000,
            vec![seg(0, 0x2000, SegmentKind::Data)],
            ps,
            1,
        );
        assert_eq!(r.err(), Some(HandshakeError::BadPageSize));
    }
}

#[test]
fn misaligned_mapping_at_handshake() {
    let r = UffdPfHandler::from_handshake(
        vec![mapping(0x1000_0000, 0x1000, 0x0), mapping(0x2000_0010, 0x1000, 0x1000)],
        0x2000,
        vec![seg(0, 0x2000, SegmentKind::Data)],
        PS,
        1,
    );
    assert_eq!(r.err(), Some(HandshakeError::Misaligned { index: 1 }));
    let r = UffdPfHandler::from_handshake(
        vec![mapping(0x1000_0000, 0x1800, 0x0)],
        0x1800,
        vec![seg(0, 0x1800, SegmentKind::Data)],
        PS,
        1,
    );
    assert_eq!(r.err(), Some(HandshakeError::Misaligned { index: 0 }));
}

#[test]
fn out_of_range_mapping_at_handshake() {
    let r = UffdPfHandler::from_handshake(
        vec![mapping(0x1000_0000, 0x1000, 0x0), mapping(0x2000_0000, 0x1000, 0x2000)],
        0x2000,
        vec![seg(0, 0x2000, SegmentKind::Data)],
        PS,
        1,
    );
    assert_eq!(r.err(), Some(HandshakeError::OutOfRange { index: 1 }));
    let r = UffdPfHandler::from_handshake(
        vec![mapping(0xffff_ffff_ffff_f000, 0x2000, 0x0)],
        0x2000,
        vec![seg(0, 0x2000, SegmentKind::Data)],
        PS,
        1,
    );
    assert_eq!(r.err(), Some(HandshakeError::OutOfRange { index: 0 }));
}

#[test]
fn overlapping_mappings_at_handshake() {
    let r = UffdPfHandler::from_handshake(
        vec![mapping(0x1000_0000, 0x2000, 0x0), mapping(0x1000_1000, 0x1000, 0x2000)],
        0x3000,
        vec![seg(0, 0x3000, SegmentKind::Data)],
        PS,
        1,
    );
    assert_eq!(r.err(), Some(HandshakeError::Overlap { first: 0, second: 1 }));
}

#[test]
fn bad_segments_at_handshake() {
    let ms = vec![mapping(0x1000_0000, 0x2000, 0x0)];
    // a gap between the segments
    let r = UffdPfHandler::from_handshake(
        ms.clone(),
        0x2000,
        vec![seg(0, 0xfff, SegmentKind::Hole), seg(0x1001, 0x2000, SegmentKind::Data)],
        PS,
        1,
    );
    assert_eq!(r.err(), Some(HandshakeError::BadSegments));
    // the file's end is not reached
    let r = UffdPfHandler::from_handshake(ms.clone(), 0x2000, vec![seg(0, 0xfff, SegmentKind::Data)], PS, 1);
    assert_eq!(r.err(), Some(HandshakeError::BadSegments));
    // no segments at all
    let r = UffdPfHandler::from_handshake(ms, 0x2000, vec![], PS, 1);
    assert_eq!(r.err(), Some(HandshakeError::BadSegments));
}

#[test]
fn accepted_handshake_keeps_its_values() {
    let h = dense_two_pages();
    assert_eq!(h.page_size(), 4096);
    assert_eq!(h.backing_size(), 0x2000);
    assert_eq!(h.firecracker_pid(), 42);
}

#[test]
fn empty_table_and_empty_file() {
    let h = UffdPfHandler::from_handshake(vec![], 0, vec![], PS, 1).unwrap();
    assert_eq!(h.serve_pf(0x1000, false), Err(FaultError::Unmapped { addr: 0x1000 }));
}

#[test]
fn replay_reconstructs_the_image() {
    // four pages: data, hole, data, hole; two regions that map the file in
    // two halves at unrelated host addresses
    let file: Vec<u8> = (0..0x4000u32).map(|i| if (i / 0x1000) % 2 == 0 { (i % 251) as u8 + 1 } else { 0 }).collect();
    let segs = vec![
        seg(0, 0xfff, SegmentKind::Data),
        seg(0x1000, 0x1fff, SegmentKind::Hole),
        seg(0x2000, 0x2fff, SegmentKind::Data),
        seg(0x3000, 0x4000, SegmentKind::Hole),
    ];
    let ms = vec![mapping(0x7000_0000, 0x2000, 0x2000), mapping(0x5000_0000, 0x2000, 0x0)];
    let h = UffdPfHandler::from_handshake(ms.clone(), 0x4000, segs, PS, 1).unwrap();
    let mut image = vec![0xeeu8; 0x4000];
    for m in &ms {
        let mut page = m.base_host_virt_addr;
        while page < m.base_host_virt_addr + m.size as u64 {
            let ofs = (m.offset + (page - m.base_host_virt_addr)) as usize;
            match h.serve_pf(page, false).unwrap() {
                FaultAction::Copy { src_offset, dst, len } => {
                    assert_eq!(dst, page);
                    let s = src_offset as usize;
                    image[ofs..ofs + len as usize].copy_from_slice(&file[s..s + len as usize]);
                }
                FaultAction::ZeroPage { dst, len } => {
                    assert_eq!(dst, page);
                    image[ofs..ofs + len as usize].fill(0);
                }
            }
            page += PS;
        }
    }
    assert_eq!(image, file);
}
