use vmm::GUEST_PAGE_SIZE;
use vmm::mapper::HugePageConfig;
use vmm::mapper::anonymous;
use vmm::region::KVM_MEM_LOG_DIRTY_PAGES;
use vmm::vm::Vm;
use vmm::vm::VmError;
use vmm::vm::create_vm_retry;
use vmm::vm::kvmify;
use vmm::vm::private_memory_attributes;

/// The slot capacity the host reports, when its virtualization device
/// can be opened here; a fixed capacity otherwise, so the registrar
/// model is exercised either way.
fn host_memslots() -> usize {
    match kvm_ioctls::Kvm::new() {
        Ok(kvm) => kvm.get_nr_memslots(),
        Err(_) => 32,
    }
}

#[test]
fn mod_test_new() {
    let max_memslots = host_memslots();
    let vm = Vm::new(max_memslots);
    assert!(vm.common.guest_memory.is_none());
    assert_eq!(vm.common.max_memslots, max_memslots);
}

#[test]
fn vm_test_new() {
    let vm = Vm::new(host_memslots());
    assert!(vm.common.guest_memory.is_none());
}

#[test]
fn test_memory_init_registers_slots() {
    let ps = GUEST_PAGE_SIZE;
    let regions = anonymous(
        &vec![(0u64, ps), (ps as u64 * 2, ps)],
        true,
        HugePageConfig::Disabled,
    )
    .unwrap();
    let mem = kvmify(regions).unwrap();

    let mut vm = Vm::new(8);
    let descs = vm.memory_init(mem).unwrap();
    assert_eq!(descs.len(), 2);
    assert_eq!(descs[0].slot, 0);
    assert_eq!(descs[1].slot, 1);
    assert_eq!(descs[0].guest_phys_addr, 0);
    assert_eq!(descs[1].guest_phys_addr, ps as u64 * 2);
    assert_eq!(descs[0].memory_size, ps as u64);
    assert_eq!(descs[0].flags, KVM_MEM_LOG_DIRTY_PAGES);
    assert!(vm.common.guest_memory.is_some());
}

#[test]
fn test_too_many_regions() {
    let ps = GUEST_PAGE_SIZE;
    let max_nr_regions = 3usize;

    let mut requests: Vec<(u64, usize)> = Vec::new();
    for i in 0..(max_nr_regions + 1) {
        requests.push((i as u64 * ps as u64, ps));
    }
    let regions = anonymous(&requests, false, HugePageConfig::Disabled).unwrap();
    let mem = kvmify(regions).unwrap();

    let mut vm = Vm::new(max_nr_regions);
    let err = vm.memory_init(mem).unwrap_err();
    assert!(matches!(err, VmError::NotEnoughMemorySlots), "{:?}", err);
    // The failure happens before any slot is planned.
    assert!(vm.common.guest_memory.is_none());
}

#[test]
fn test_create_vm_retry_discipline() {
    let eintr = 4;
    // An interrupted create is retried with exponential backoff...
    assert_eq!(create_vm_retry(1, eintr), Some(1));
    assert_eq!(create_vm_retry(2, eintr), Some(2));
    assert_eq!(create_vm_retry(3, eintr), Some(4));
    assert_eq!(create_vm_retry(4, eintr), Some(8));
    // ...at most five attempts in all...
    assert_eq!(create_vm_retry(5, eintr), None);
    // ...and any other error aborts at once.
    assert_eq!(create_vm_retry(1, 22), None);
}

#[test]
fn test_private_memory_attributes() {
    let ps = GUEST_PAGE_SIZE;
    let regions = anonymous(
        &vec![(0u64, ps), (ps as u64 * 4, ps * 2)],
        false,
        HugePageConfig::Disabled,
    )
    .unwrap();
    let mem = kvmify(regions).unwrap();

    let attrs = private_memory_attributes(&mem);
    assert_eq!(attrs.len(), 2);
    assert_eq!(attrs[0].address, 0);
    assert_eq!(attrs[0].size, ps as u64);
    assert_eq!(attrs[0].attributes, 8);
    assert_eq!(attrs[1].address, ps as u64 * 4);
    assert_eq!(attrs[1].size, ps as u64 * 2);
}
