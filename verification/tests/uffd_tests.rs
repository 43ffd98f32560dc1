use vmm::GUEST_PAGE_SIZE;
use vmm::uffd::FaultReply;
use vmm::uffd::GuestRegionUffdMapping;
use vmm::uffd::UffdError;
use vmm::uffd::UffdEvent;
use vmm::uffd::UffdPfHandler;

fn two_one_page_regions(a: u64, b: u64) -> Vec<GuestRegionUffdMapping> {
    let ps = GUEST_PAGE_SIZE;
    vec![
        GuestRegionUffdMapping { base_host_virt_addr: a, size: ps, offset: 0 },
        GuestRegionUffdMapping { base_host_virt_addr: b, size: ps, offset: ps as u64 },
    ]
}

#[test]
fn test_fault_remove_fault_sequence() {
    let ps = GUEST_PAGE_SIZE;
    let a: u64 = 0x7000_0000_0000;
    let b: u64 = 0x7000_1000_0000;
    let mappings = two_one_page_regions(a, b);
    let mut handler = UffdPfHandler::from_mappings(mappings, ps * 2, ps).unwrap();

    // First fault on each region populates from the backing file.
    let r = handler
        .handle_event(UffdEvent::Pagefault { addr: a + 17 }, ps)
        .unwrap();
    assert_eq!(r, Some(FaultReply::Copy { dst: a, src_offset: 0, len: ps }));

    let r = handler
        .handle_event(UffdEvent::Pagefault { addr: b }, ps)
        .unwrap();
    assert_eq!(
        r,
        Some(FaultReply::Copy { dst: b, src_offset: ps as u64, len: ps })
    );

    // The guest returns the first page; no population happens.
    let r = handler
        .handle_event(UffdEvent::Remove { start: a, end: a + ps as u64 }, ps)
        .unwrap();
    assert_eq!(r, None);

    // A fault on the removed page zeroes it.
    let r = handler
        .handle_event(UffdEvent::Pagefault { addr: a }, ps)
        .unwrap();
    assert_eq!(r, Some(FaultReply::Zero { start: a, len: ps }));

    // A second fault on the same page zeroes it again.
    let r = handler
        .handle_event(UffdEvent::Pagefault { addr: a + 5 }, ps)
        .unwrap();
    assert_eq!(r, Some(FaultReply::Zero { start: a, len: ps }));
}

#[test]
fn test_handshake_rejects_size_mismatch() {
    let ps = GUEST_PAGE_SIZE;
    // The regions describe three pages, the backing file holds two.
    let mappings = vec![
        GuestRegionUffdMapping { base_host_virt_addr: 0x1000, size: ps, offset: 0 },
        GuestRegionUffdMapping {
            base_host_virt_addr: 0x10_0000,
            size: ps * 2,
            offset: ps as u64,
        },
    ];
    let res = UffdPfHandler::from_mappings(mappings, ps * 2, ps);
    assert!(matches!(res, Err(UffdError::SizeMismatch)), "{:?}", res);
}

#[test]
fn test_fault_outside_regions_is_fatal() {
    let ps = GUEST_PAGE_SIZE;
    let mappings = two_one_page_regions(0x1000, 0x9000);
    let mut handler = UffdPfHandler::from_mappings(mappings, ps * 2, ps).unwrap();

    let res = handler.handle_event(UffdEvent::Pagefault { addr: 0xdead_0000 }, ps);
    assert!(
        matches!(res, Err(UffdError::AddressOutsideRegions)),
        "{:?}",
        res
    );
}

#[test]
fn test_unknown_event_is_fatal() {
    let ps = GUEST_PAGE_SIZE;
    let mappings = two_one_page_regions(0x1000, 0x9000);
    let mut handler = UffdPfHandler::from_mappings(mappings, ps * 2, ps).unwrap();

    let res = handler.handle_event(UffdEvent::Unsupported, ps);
    assert!(matches!(res, Err(UffdError::UnknownEvent)), "{:?}", res);
}

#[test]
fn test_handshake_rejects_wrapping_regions() {
    let ps = GUEST_PAGE_SIZE;
    let mappings = vec![GuestRegionUffdMapping {
        base_host_virt_addr: u64::MAX - 16,
        size: ps,
        offset: 0,
    }];
    let res = UffdPfHandler::from_mappings(mappings, ps, ps);
    assert!(matches!(res, Err(UffdError::MalformedHandshake)), "{:?}", res);
}

#[test]
fn test_remove_affects_only_the_range() {
    let ps = GUEST_PAGE_SIZE;
    let a: u64 = 0x4000_0000;
    // One region of four pages.
    let mappings = vec![GuestRegionUffdMapping {
        base_host_virt_addr: a,
        size: ps * 4,
        offset: 0,
    }];
    let mut handler = UffdPfHandler::from_mappings(mappings, ps * 4, ps).unwrap();

    // Remove pages 1 and 2 only.
    handler
        .handle_event(
            UffdEvent::Remove { start: a + ps as u64, end: a + 3 * ps as u64 },
            ps,
        )
        .unwrap();

    // Page 0 still populates from the file; pages 1 and 2 are zeroed.
    let r = handler
        .handle_event(UffdEvent::Pagefault { addr: a }, ps)
        .unwrap();
    assert_eq!(r, Some(FaultReply::Copy { dst: a, src_offset: 0, len: ps }));
    let r = handler
        .handle_event(UffdEvent::Pagefault { addr: a + ps as u64 }, ps)
        .unwrap();
    assert_eq!(
        r,
        Some(FaultReply::Zero { start: a + ps as u64, len: ps })
    );
    let r = handler
        .handle_event(UffdEvent::Pagefault { addr: a + 3 * ps as u64 }, ps)
        .unwrap();
    assert_eq!(
        r,
        Some(FaultReply::Copy {
            dst: a + 3 * ps as u64,
            src_offset: 3 * ps as u64,
            len: ps
        })
    );
}
