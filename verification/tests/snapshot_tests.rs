use vmm::GUEST_PAGE_SIZE;
use vmm::codec::deserialize_memory_state;
use vmm::codec::serialize_memory_state;
use vmm::codec::MemoryStateCodecError;
use vmm::mapper::HugePageConfig;
use vmm::mapper::anonymous;
use vmm::mapper::file_private;
use vmm::memory::GuestMemoryMmap;
use vmm::snapshot::GuestMemoryRegionState;
use vmm::snapshot::GuestMemoryState;
use vmm::vm::kvmify;

fn make_memory(regions: Vec<(u64, usize)>, track: bool) -> GuestMemoryMmap {
    kvmify(anonymous(&regions, track, HugePageConfig::Disabled).unwrap()).unwrap()
}

fn check_serde(guest_memory: &GuestMemoryMmap) {
    let original_state = guest_memory.describe();
    let snapshot_data = serialize_memory_state(&original_state);
    let restored_state = deserialize_memory_state(&snapshot_data).unwrap();
    assert_eq!(original_state, restored_state);
}

#[test]
fn test_serde() {
    let page_size = GUEST_PAGE_SIZE;
    let region_size = page_size * 3;

    // Test with a single region
    let guest_memory = make_memory(vec![(0, region_size)], false);
    check_serde(&guest_memory);

    // Test with some regions
    let regions = vec![
        (0u64, region_size),                      // pages 0-2
        (region_size as u64, region_size),        // pages 3-5
        (region_size as u64 * 2, region_size),    // pages 6-8
    ];
    let guest_memory = make_memory(regions, true);
    check_serde(&guest_memory);
}

#[test]
fn test_memory_state_serialization_scenario() {
    // Two single-page regions with a gap between them.
    let page_size = GUEST_PAGE_SIZE;
    let guest_memory = make_memory(
        vec![(0, page_size), (page_size as u64 * 2, page_size)],
        false,
    );
    let state = guest_memory.describe();
    let bytes = serialize_memory_state(&state);
    let restored = deserialize_memory_state(&bytes).unwrap();
    assert_eq!(state, restored);
    assert_eq!(restored.regions.len(), 2);
    assert_eq!(restored.regions[0].base_address, 0);
    assert_eq!(restored.regions[0].size, page_size);
    assert_eq!(restored.regions[1].base_address, page_size as u64 * 2);
    assert_eq!(restored.regions[1].size, page_size);
}

#[test]
fn test_deserialize_rejects_malformed_bytes() {
    assert_eq!(
        deserialize_memory_state(&vec![1, 2, 3]).unwrap_err(),
        MemoryStateCodecError::Malformed
    );
    // A count that the bytes cannot back.
    let state = GuestMemoryState {
        regions: vec![GuestMemoryRegionState { base_address: 0, size: 4096 }],
    };
    let mut bytes = serialize_memory_state(&state);
    bytes.pop();
    assert_eq!(
        deserialize_memory_state(&bytes).unwrap_err(),
        MemoryStateCodecError::Malformed
    );
}

#[test]
fn test_describe() {
    let page_size: usize = GUEST_PAGE_SIZE;

    // Two regions of one page each, with a one page gap between them.
    let mem_regions = vec![(0u64, page_size), (page_size as u64 * 2, page_size)];
    let guest_memory = make_memory(mem_regions, true);

    let expected_memory_state = GuestMemoryState {
        regions: vec![
            GuestMemoryRegionState { base_address: 0, size: page_size },
            GuestMemoryRegionState { base_address: page_size as u64 * 2, size: page_size },
        ],
    };

    let actual_memory_state = guest_memory.describe();
    assert_eq!(expected_memory_state, actual_memory_state);

    // Two regions of three pages each, with a one page gap between them.
    let mem_regions = vec![(0u64, page_size * 3), (page_size as u64 * 4, page_size * 3)];
    let guest_memory = make_memory(mem_regions, true);

    let expected_memory_state = GuestMemoryState {
        regions: vec![
            GuestMemoryRegionState { base_address: 0, size: page_size * 3 },
            GuestMemoryRegionState { base_address: page_size as u64 * 4, size: page_size * 3 },
        ],
    };

    let actual_memory_state = guest_memory.describe();
    assert_eq!(expected_memory_state, actual_memory_state);
}

#[test]
fn test_dump() {
    let page_size = GUEST_PAGE_SIZE;

    // Two regions of two pages each, with a one page gap between them.
    let region_1_address = 0u64;
    let region_2_address = page_size as u64 * 3;
    let region_size = page_size * 2;
    let mem_regions = vec![
        (region_1_address, region_size),
        (region_2_address, region_size),
    ];
    let mut guest_memory = make_memory(mem_regions, true);
    // Check that the monitor bitmap is clean.
    for i in 0..guest_memory.num_regions() {
        let r = guest_memory.region_at(i).region();
        assert!(!r.dirty_at(0));
        assert!(!r.dirty_at(1));
    }

    // Fill the first region with 1s and the second with 2s.
    let first_region = vec![1u8; region_size];
    guest_memory.write(&first_region, region_1_address).unwrap();

    let second_region = vec![2u8; region_size];
    guest_memory.write(&second_region, region_2_address).unwrap();

    let memory_state = guest_memory.describe();

    // dump the full memory.
    let memory_file = guest_memory.dump();

    let restored_guest_memory = kvmify(
        file_private(&memory_file, &memory_state.regions(), false, 0).unwrap(),
    )
    .unwrap();

    // Check that the region contents are the same.
    let restored_region = restored_guest_memory.read(region_1_address, region_size).unwrap();
    assert_eq!(first_region, restored_region);

    let restored_region = restored_guest_memory.read(region_2_address, region_size).unwrap();
    assert_eq!(second_region, restored_region);
}

#[test]
fn test_dump_dirty() {
    let page_size = GUEST_PAGE_SIZE;

    // Two regions of two pages each, with a one page gap between them.
    let region_1_address = 0u64;
    let region_2_address = page_size as u64 * 3;
    let region_size = page_size * 2;
    let mem_regions = vec![
        (region_1_address, region_size),
        (region_2_address, region_size),
    ];
    let mut guest_memory = make_memory(mem_regions, true);
    // Check that the monitor bitmap is clean.
    for i in 0..guest_memory.num_regions() {
        let r = guest_memory.region_at(i).region();
        assert!(!r.dirty_at(0));
        assert!(!r.dirty_at(1));
    }

    // Fill the first region with 1s and the second with 2s.
    let first_region = vec![1u8; region_size];
    guest_memory.write(&first_region, region_1_address).unwrap();

    let second_region = vec![2u8; region_size];
    guest_memory.write(&second_region, region_2_address).unwrap();

    let memory_state = guest_memory.describe();

    // Dump only the dirty pages.
    // First region pages: [dirty, clean]
    // Second region pages: [clean, dirty]
    let dirty_bitmap: Vec<Vec<u64>> = vec![vec![0b01], vec![0b10]];

    let mut file = vec![0u8; region_size * 2];
    guest_memory.dump_dirty(&mut file, &dirty_bitmap);
    // The image is persisted, so the monitor bitmaps are reset.
    guest_memory.reset_dirty();

    // We can restore from this because this is the first dirty dump.
    let restored_guest_memory = kvmify(
        file_private(&file, &memory_state.regions(), false, 0).unwrap(),
    )
    .unwrap();

    // Check that the region contents are the same.
    let restored_region = restored_guest_memory.read(region_1_address, region_size).unwrap();
    assert_eq!(first_region, restored_region);

    let restored_region = restored_guest_memory.read(region_2_address, region_size).unwrap();
    assert_eq!(second_region, restored_region);

    // Dirty the memory and dump again
    let mut reader = vec![0u8; region_size * 2];
    let zeros = vec![0u8; page_size];
    let ones = vec![1u8; page_size];
    let twos = vec![2u8; page_size];

    // Monitor bitmap
    // First region pages: [dirty, clean]
    // Second region pages: [clean, clean]
    guest_memory.write(&twos, page_size as u64).unwrap();

    guest_memory.dump_dirty(&mut reader, &dirty_bitmap);

    // Check that only the dirty regions are dumped.
    let expected_first_region = [
        ones.as_slice(),
        twos.as_slice(),
        zeros.as_slice(),
        twos.as_slice(),
    ]
    .concat();
    assert_eq!(expected_first_region, reader);
}

#[test]
fn test_store_dirty_bitmap() {
    let page_size = GUEST_PAGE_SIZE;

    // Two regions of three pages each, with a one page gap between them.
    let region_1_address = 0u64;
    let region_2_address = page_size as u64 * 4;
    let region_size = page_size * 3;
    let mem_regions = vec![
        (region_1_address, region_size),
        (region_2_address, region_size),
    ];
    let mut guest_memory = make_memory(mem_regions, true);

    // Check that the monitor bitmap is clean.
    for i in 0..guest_memory.num_regions() {
        let r = guest_memory.region_at(i).region();
        assert!(!r.dirty_at(0));
        assert!(!r.dirty_at(page_size));
        assert!(!r.dirty_at(page_size * 2));
    }

    let dirty_bitmap: Vec<Vec<u64>> = vec![vec![0b101], vec![0b101]];

    guest_memory.store_dirty_bitmap(&dirty_bitmap);

    // Assert that the bitmap now reports as being dirty matching the dirty bitmap
    for i in 0..guest_memory.num_regions() {
        let r = guest_memory.region_at(i).region();
        assert!(r.dirty_at(0));
        assert!(!r.dirty_at(page_size));
        assert!(r.dirty_at(page_size * 2));
    }
}

#[test]
fn test_mark_and_reset_scenario() {
    // Three regions of three pages each, at consecutive bases.
    let ps = GUEST_PAGE_SIZE;
    let rs = ps * 3;
    let mut guest_memory = make_memory(
        vec![(0, rs), (rs as u64, rs), (rs as u64 * 2, rs)],
        true,
    );

    guest_memory.mark_dirty(ps as u64, ps * 2);
    guest_memory.mark_dirty(ps as u64 * 4, ps * 4);

    let expected: [[bool; 3]; 3] = [
        [false, true, true],
        [false, true, true],
        [true, true, false],
    ];
    for i in 0..3 {
        let r = guest_memory.region_at(i).region();
        for p in 0..3 {
            assert_eq!(r.dirty_at(p * ps), expected[i][p], "region {} page {}", i, p);
        }
    }

    guest_memory.reset_dirty();
    for i in 0..3 {
        let r = guest_memory.region_at(i).region();
        for p in 0..3 {
            assert!(!r.dirty_at(p * ps));
        }
    }
}
