use vmm::GUEST_PAGE_SIZE;
use vmm::bounce::VecReader;
use vmm::initrd::InitrdConfig;
use vmm::initrd::InitrdError;
use vmm::mapper::HugePageConfig;
use vmm::mapper::anonymous;
use vmm::memory::GuestMemoryMmap;
use vmm::vm::kvmify;

fn single_region_mem(mem_size: usize) -> GuestMemoryMmap {
    kvmify(anonymous(&vec![(0u64, mem_size)], false, HugePageConfig::Disabled).unwrap()).unwrap()
}

fn single_region_mem_at(at: u64, mem_size: usize) -> GuestMemoryMmap {
    kvmify(anonymous(&vec![(at, mem_size)], false, HugePageConfig::Disabled).unwrap()).unwrap()
}

fn make_test_bin() -> Vec<u8> {
    let mut fake_bin = Vec::new();
    fake_bin.resize(1_000_000, 0xAAu8);
    fake_bin
}

#[test]
// Test that loading the initrd is successful.
fn test_load_initrd() {
    let image = make_test_bin();

    let mem_size: usize = image.len() * 2 + GUEST_PAGE_SIZE;

    let mut gm = single_region_mem(mem_size);

    let mut reader = VecReader::new(image.clone());
    let initrd = InitrdConfig::from_reader(&mut gm, &mut reader, image.len()).unwrap();
    assert!(gm.address_in_range(initrd.address));
    assert_eq!(initrd.size, image.len());

    // The image landed at the load address.
    let loaded = gm.read(initrd.address, initrd.size).unwrap();
    assert_eq!(loaded, image);
}

#[test]
fn test_load_initrd_no_memory() {
    let mut gm = single_region_mem(79);
    let image = make_test_bin();
    let mut reader = VecReader::new(image.clone());
    let res = InitrdConfig::from_reader(&mut gm, &mut reader, image.len());
    assert!(matches!(res, Err(InitrdError::Address)), "{:?}", res);
}

#[test]
fn test_load_initrd_unaligned() {
    let image = vec![1u8, 2, 3, 4];
    let mut gm = single_region_mem_at(GUEST_PAGE_SIZE as u64 + 1, image.len() * 2);

    let mut reader = VecReader::new(image.clone());
    let res = InitrdConfig::from_reader(&mut gm, &mut reader, image.len());
    assert!(matches!(res, Err(InitrdError::Address)), "{:?}", res);
}

#[test]
fn test_load_initrd_short_image_fails_read() {
    let ps = GUEST_PAGE_SIZE;
    let mut gm = single_region_mem(ps * 4);
    // The reader holds fewer bytes than the initrd is said to be.
    let mut reader = VecReader::new(vec![0xAAu8; ps]);
    let res = InitrdConfig::from_reader(&mut gm, &mut reader, ps * 2);
    assert!(matches!(res, Err(InitrdError::Read)), "{:?}", res);
}
