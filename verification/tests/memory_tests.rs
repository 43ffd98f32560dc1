use vmm::GUEST_PAGE_SIZE;
use vmm::mapper::HugePageConfig;
use vmm::mapper::MemoryError;
use vmm::mapper::anonymous;
use vmm::mapper::create;
use vmm::memory::GuestMemoryMmap;
use vmm::memory::GuestRegionCollectionError;
use vmm::region::GuestMemoryError;
use vmm::vm::kvmify;

fn make_memory(regions: Vec<(u64, usize)>, track: bool) -> GuestMemoryMmap {
    kvmify(anonymous(&regions, track, HugePageConfig::Disabled).unwrap()).unwrap()
}

#[test]
fn test_anonymous() {
    for dirty_page_tracking in [true, false] {
        let region_size = 0x10000;
        let regions = vec![
            (0u64, region_size),
            (0x10000u64, region_size),
            (0x20000u64, region_size),
            (0x30000u64, region_size),
        ];

        let guest_memory = anonymous(&regions, dirty_page_tracking, HugePageConfig::Disabled)
            .unwrap();
        for region in &guest_memory {
            assert_eq!(region.has_bitmap(), dirty_page_tracking);
        }
    }
}

#[test]
fn test_mark_dirty() {
    let page_size = GUEST_PAGE_SIZE;
    let region_size = page_size * 3;

    let regions = vec![
        (0u64, region_size),                      // pages 0-2
        (region_size as u64, region_size),        // pages 3-5
        (region_size as u64 * 2, region_size),    // pages 6-8
    ];
    let mut guest_memory = make_memory(regions, true);

    let dirty_map = [
        // page 0: not dirty
        (0usize, page_size, false),
        // pages 1-2: dirty range in one region
        (page_size, page_size * 2, true),
        // page 3: not dirty
        (page_size * 3, page_size, false),
        // pages 4-7: dirty range across 2 regions,
        (page_size * 4, page_size * 4, true),
        // page 8: not dirty
        (page_size * 8, page_size, false),
    ];

    // Mark dirty memory
    for (addr, len, dirty) in &dirty_map {
        if *dirty {
            guest_memory.mark_dirty(*addr as u64, *len);
        }
    }

    // Check that the dirty memory was set correctly
    for (addr, len, dirty) in &dirty_map {
        let mut offset = *addr;
        while offset < addr + len {
            let idx = guest_memory.find_region_index(offset as u64).unwrap();
            let region = guest_memory.region_at(idx).region();
            let in_region = offset as u64 - region.start_addr();
            assert_eq!(region.dirty_at(in_region as usize), *dirty);
            offset += page_size;
        }
    }
}

#[test]
fn test_mark_dirty_spans_gaps() {
    let page_size = GUEST_PAGE_SIZE;
    // Two one-page regions with a one-page gap between them: a range
    // covering both regions and the gap marks a page in each.
    let mut guest_memory = make_memory(
        vec![(0, page_size), (page_size as u64 * 2, page_size)],
        true,
    );

    guest_memory.mark_dirty(0, page_size * 3);
    for i in 0..2 {
        let region = guest_memory.region_at(i).region();
        assert!(region.dirty_at(0));
    }
}

#[test]
fn test_write_read_round_trip() {
    let page_size = GUEST_PAGE_SIZE;
    let mut guest_memory = make_memory(vec![(0, page_size * 2)], false);

    let data: Vec<u8> = (0u8..=255).collect();
    assert_eq!(guest_memory.write(&data, 7).unwrap(), 256);
    let back = guest_memory.read(7, 256).unwrap();
    assert_eq!(back, data);
}

#[test]
fn test_write_unmapped_reports_first_gap() {
    let page_size = GUEST_PAGE_SIZE;
    // One region of two pages; writing across its end stops at the gap.
    let mut guest_memory = make_memory(vec![(0, page_size * 2)], false);

    let data = vec![0xABu8; page_size * 3];
    let err = guest_memory.write(&data, 0).unwrap_err();
    assert_eq!(
        err,
        GuestMemoryError::InvalidGuestAddress(page_size as u64 * 2)
    );
    // The mapped prefix was still written.
    let back = guest_memory.read(0, page_size * 2).unwrap();
    assert!(back.iter().all(|b| *b == 0xAB));

    // A write starting outside any region names that address.
    let err = guest_memory
        .write(&[1, 2, 3], page_size as u64 * 10)
        .unwrap_err();
    assert_eq!(
        err,
        GuestMemoryError::InvalidGuestAddress(page_size as u64 * 10)
    );
}

#[test]
fn test_get_slice_exceeding_region_fails() {
    let page_size = GUEST_PAGE_SIZE;
    // Two adjacent regions; a slice must not leave the first one.
    let guest_memory = make_memory(
        vec![(0, page_size), (page_size as u64, page_size)],
        false,
    );

    assert!(guest_memory.get_slice(0, page_size).is_ok());
    assert_eq!(
        guest_memory.get_slice(1, page_size).unwrap_err(),
        GuestMemoryError::InvalidBackendAddress
    );
    assert_eq!(
        guest_memory
            .get_slice(page_size as u64 * 5, 1)
            .unwrap_err(),
        GuestMemoryError::InvalidGuestAddress(page_size as u64 * 5)
    );
}

#[test]
fn test_from_regions_rejects_bad_layouts() {
    let page_size = GUEST_PAGE_SIZE;
    assert_eq!(
        GuestMemoryMmap::from_regions(Vec::new()).unwrap_err(),
        GuestRegionCollectionError::NoMemoryRegion
    );

    // Overlapping regions are rejected.
    let regions = anonymous(
        &vec![(0u64, page_size * 2), (page_size as u64, page_size)],
        false,
        HugePageConfig::Disabled,
    )
    .unwrap();
    assert_eq!(
        kvmify(regions).unwrap_err(),
        GuestRegionCollectionError::MemoryRegionOverlap
    );

    // Unsorted regions are rejected.
    let regions = anonymous(
        &vec![(page_size as u64 * 4, page_size), (0u64, page_size)],
        false,
        HugePageConfig::Disabled,
    )
    .unwrap();
    assert_eq!(
        kvmify(regions).unwrap_err(),
        GuestRegionCollectionError::UnsortedMemoryRegions
    );
}

#[test]
fn test_create_rejects_zero_length_and_huge_offsets() {
    assert_eq!(
        create(
            &vec![(0u64, 0usize)],
            HugePageConfig::Disabled,
            None,
            false,
            0
        )
        .unwrap_err(),
        MemoryError::Mmap(22)
    );

    // An unaligned hugepage request fails the mapping call the same way.
    assert_eq!(
        create(
            &vec![(0u64, GUEST_PAGE_SIZE)],
            HugePageConfig::Hugetlbfs2M,
            None,
            false,
            0
        )
        .unwrap_err(),
        MemoryError::Mmap(22)
    );

    // A cumulative offset past the largest file offset is rejected.
    let backing = vec![0u8; 16];
    assert_eq!(
        create(
            &vec![(0u64, GUEST_PAGE_SIZE)],
            HugePageConfig::Disabled,
            Some(&backing),
            false,
            0x7fff_ffff_ffff_fffe
        )
        .unwrap_err(),
        MemoryError::OffsetTooLarge
    );

    // A region that wraps the top of guest-physical space is rejected.
    assert_eq!(
        create(
            &vec![(u64::MAX - 4, GUEST_PAGE_SIZE)],
            HugePageConfig::Disabled,
            None,
            false,
            0
        )
        .unwrap_err(),
        MemoryError::VmMemoryError
    );
}

#[test]
fn test_hugepage_flags() {
    assert_eq!(HugePageConfig::Disabled.mmap_flags(), 0);
    assert_eq!(HugePageConfig::Hugetlbfs2M.mmap_flags(), 0x5404_0000);
    assert_eq!(HugePageConfig::Hugetlbfs1G.mmap_flags(), 0x7804_0000);
}
