//! Slot registrar: plans the registration of guest memory regions with
//! the host virtualization interface, enforcing the slot capacity the
//! host reports, and the bounded-retry discipline for creating a VM.

use vstd::prelude::*;

use crate::memory::GuestMemoryMmap;
use crate::memory::GuestRegionCollectionError;
use crate::memory::spec_region_base;
use crate::region::GuestRegionMmap;
use crate::region::KVM_MEM_GUEST_MEMFD;
use crate::region::KVM_MEM_LOG_DIRTY_PAGES;
use crate::region::KvmRegion;

verus! {

/// The `errno` of an interrupted host call.
pub const EINTR: i32 = 4;

/// How often creating a VM is attempted when the host call keeps
/// getting interrupted.
pub const MAX_CREATE_ATTEMPTS: u32 = 5;

/// Attribute flag marking a page range as guest-private.
pub const KVM_MEMORY_ATTRIBUTE_PRIVATE: u64 = 8;

/// Errors raised by the wrappers around the host virtualization
/// interface.
#[derive(Debug, PartialEq, Eq)]
pub enum VmError {
    /// A memory slot could not be registered; carries the `errno`.
    SetUserMemoryRegion(i32),
    /// The VM could not be created; carries the `errno`.
    CreateVm(i32),
    /// The VM file descriptor could not be opened; carries the `errno`.
    VmFd(i32),
    /// An event descriptor could not be created; carries the `errno`.
    EventFd(i32),
    /// A vCPU could not be created; carries the `errno`.
    CreateVcpu(i32),
    /// A guest-private memory file could not be created.
    CreateGuestMemfd(i32),
    /// Page ranges could not be marked private.
    SetMemoryAttributes(i32),
    /// More regions are configured than the host reports memory slots.
    NotEnoughMemorySlots,
}

/// A host memory-slot record: ties a guest-physical range to a slot
/// index, registration flags and an optional private-memory binding.
/// The host virtual address is supplied by the caller that owns the
/// raw mapping.
#[derive(Debug, Clone, Copy, PartialEq, Eq, Structural)]
pub struct KvmSlotDesc {
    /// Slot index, assigned densely from zero.
    pub slot: u32,
    /// Registration flags.
    pub flags: u32,
    /// Guest-physical base address.
    pub guest_phys_addr: u64,
    /// Length of the range in bytes.
    pub memory_size: u64,
    /// File descriptor of the private-memory binding, zero when none.
    pub guest_memfd: u32,
    /// Offset into the private-memory file.
    pub guest_memfd_offset: u64,
}

/// A host attribute record marking a guest-physical range private.
#[derive(Debug, Clone, Copy, PartialEq, Eq, Structural)]
pub struct KvmMemoryAttributes {
    /// Guest-physical base address of the range.
    pub address: u64,
    /// Length of the range in bytes.
    pub size: u64,
    /// The attributes to set.
    pub attributes: u64,
}

/// The slot record under which region `i` of the collection is
/// registered: slot `i`, the region's own flags and private-memory
/// binding, and its guest-physical range.
pub open spec fn spec_slot_desc(r: KvmRegion, i: int) -> KvmSlotDesc {
    KvmSlotDesc {
        slot: i as u32,
        flags: r.spec_flags(),
        guest_phys_addr: spec_region_base(r) as u64,
        memory_size: r.spec_region().spec_size() as u64,
        guest_memfd: r.spec_guest_memfd().0,
        guest_memfd_offset: r.spec_guest_memfd().1,
    }
}

/// Architecture-independent state of a VM: the host-reported slot
/// capacity and the guest memory once it is initialized.
#[derive(Debug)]
pub struct VmCommon {
    /// Largest number of memory slots the host accepts.
    pub max_memslots: usize,
    /// The guest memory, once `memory_init` has accepted it.
    pub guest_memory: Option<GuestMemoryMmap>,
}

/// A virtual machine as the registrar sees it.
#[derive(Debug)]
pub struct Vm {
    /// Architecture-independent parts.
    pub common: VmCommon,
}

impl Vm {
    /// A VM with the given slot capacity and no memory yet.
    pub fn new(max_memslots: usize) -> (r: Vm)
        ensures
            r.common.max_memslots == max_memslots,
            r.common.guest_memory is None,
    {
        Vm { common: VmCommon { max_memslots, guest_memory: None } }
    }

    /// Builds the slot records for every region of `guest_mem`, in
    /// ascending slot order, slots assigned densely from zero.
    pub fn set_kvm_memory_regions(guest_mem: &GuestMemoryMmap) -> (r: Vec<KvmSlotDesc>)
        requires
            guest_mem.wf(),
            guest_mem.spec_len() <= u32::MAX,
        ensures
            r@.len() == guest_mem.spec_len(),
            forall|i: int|
                0 <= i < r@.len() ==> #[trigger] r@[i] == spec_slot_desc(
                    guest_mem.spec_regions()[i],
                    i,
                ),
    {
        let n: usize = guest_mem.num_regions();
        let mut out: Vec<KvmSlotDesc> = Vec::new();
        let mut i: usize = 0;
        while i < n
            invariant
                guest_mem.wf(),
                i <= n,
                n == guest_mem.spec_len(),
                n <= u32::MAX,
                out@.len() == i,
                forall|k: int|
                    0 <= k < i ==> #[trigger] out@[k] == spec_slot_desc(
                        guest_mem.spec_regions()[k],
                        k,
                    ),
            decreases n - i,
        {
            let kr = guest_mem.region_at(i);
            let region = kr.region();
            let (memfd, memfd_offset): (u32, u64) = kr.guest_memfd();
            out.push(
                KvmSlotDesc {
                    slot: i as u32,
                    flags: kr.flags(),
                    guest_phys_addr: region.start_addr(),
                    memory_size: region.len(),
                    guest_memfd: memfd,
                    guest_memfd_offset: memfd_offset,
                },
            );
            i = i + 1;
        }
        out
    }

    /// Accepts the guest memory and plans its registration.  When more
    /// regions are configured than the host reports slots, fails with
    /// `NotEnoughMemorySlots` before planning any registration; the VM
    /// keeps no memory in that case.
    pub fn memory_init(&mut self, guest_mem: GuestMemoryMmap) -> (r: Result<
        Vec<KvmSlotDesc>,
        VmError,
    >)
        requires
            guest_mem.wf(),
            guest_mem.spec_len() <= u32::MAX,
        ensures
            final(self).common.max_memslots == old(self).common.max_memslots,
            match r {
                Ok(descs) => {
                    &&& guest_mem.spec_len() <= old(self).common.max_memslots
                    &&& final(self).common.guest_memory == Some(guest_mem)
                    &&& descs@.len() == guest_mem.spec_len()
                    &&& forall|i: int|
                        0 <= i < descs@.len() ==> #[trigger] descs@[i] == spec_slot_desc(
                            guest_mem.spec_regions()[i],
                            i,
                        )
                },
                Err(e) => {
                    &&& e == VmError::NotEnoughMemorySlots
                    &&& guest_mem.spec_len() > old(self).common.max_memslots
                    &&& final(self).common.guest_memory == old(self).common.guest_memory
                },
            },
    {
        if guest_mem.num_regions() > self.common.max_memslots {
            return Err(VmError::NotEnoughMemorySlots);
        }
        let descs: Vec<KvmSlotDesc> = Self::set_kvm_memory_regions(&guest_mem);
        self.common.guest_memory = Some(guest_mem);
        Ok(descs)
    }

    /// The guest memory; only for use after `memory_init` accepted it.
    pub fn guest_memory(&self) -> (r: &GuestMemoryMmap)
        requires
            self.common.guest_memory is Some,
        ensures
            Some(*r) == self.common.guest_memory,
    {
        match &self.common.guest_memory {
            Some(m) => m,
            None => {
                proof {
                    assert(false);
                }
                unreached()
            },
        }
    }
}

/// Whether a failed VM-create host call is retried: only an
/// interrupted call is, at most `MAX_CREATE_ATTEMPTS` times in all,
/// and the retry backs off exponentially -- 1, 2, 4, 8 microseconds.
pub fn create_vm_retry(attempt: u32, errno: i32) -> (r: Option<u64>)
    requires
        attempt >= 1,
    ensures
        r == if errno == EINTR && attempt < MAX_CREATE_ATTEMPTS {
            Some((1u64 << ((attempt - 1) as u64)) as u64)
        } else {
            None::<u64>
        },
{
    if errno == EINTR && attempt < MAX_CREATE_ATTEMPTS {
        Some(1u64 << ((attempt - 1) as u64))
    } else {
        None
    }
}

/// The slot record for a region backed by a guest-private memory file:
/// the private-memory flag is set and the file is mapped at the
/// region's own guest-physical base.
pub fn memfd_slot_descriptor(slot: u32, region: &GuestRegionMmap, guest_memfd: u32) -> (r:
    KvmSlotDesc)
    requires
        region.wf(),
    ensures
        r == (KvmSlotDesc {
            slot,
            flags: KVM_MEM_GUEST_MEMFD,
            guest_phys_addr: region.spec_base() as u64,
            memory_size: region.spec_size() as u64,
            guest_memfd,
            guest_memfd_offset: region.spec_base() as u64,
        }),
{
    KvmSlotDesc {
        slot,
        flags: KVM_MEM_GUEST_MEMFD,
        guest_phys_addr: region.start_addr(),
        memory_size: region.len(),
        guest_memfd,
        guest_memfd_offset: region.start_addr(),
    }
}

/// The attribute records that mark every region of the guest memory
/// private, in region order.
pub fn private_memory_attributes(guest_mem: &GuestMemoryMmap) -> (r: Vec<KvmMemoryAttributes>)
    requires
        guest_mem.wf(),
    ensures
        r@.len() == guest_mem.spec_len(),
        forall|i: int|
            0 <= i < r@.len() ==> #[trigger] r@[i] == (KvmMemoryAttributes {
                address: spec_region_base(guest_mem.spec_regions()[i]) as u64,
                size: guest_mem.spec_regions()[i].spec_region().spec_size() as u64,
                attributes: KVM_MEMORY_ATTRIBUTE_PRIVATE,
            }),
{
    let n: usize = guest_mem.num_regions();
    let mut out: Vec<KvmMemoryAttributes> = Vec::new();
    let mut i: usize = 0;
    while i < n
        invariant
            guest_mem.wf(),
            i <= n,
            n == guest_mem.spec_len(),
            out@.len() == i,
            forall|k: int|
                0 <= k < i ==> #[trigger] out@[k] == (KvmMemoryAttributes {
                    address: spec_region_base(guest_mem.spec_regions()[k]) as u64,
                    size: guest_mem.spec_regions()[k].spec_region().spec_size() as u64,
                    attributes: KVM_MEMORY_ATTRIBUTE_PRIVATE,
                }),
        decreases n - i,
    {
        let region = guest_mem.region_at(i).region();
        out.push(
            KvmMemoryAttributes {
                address: region.start_addr(),
                size: region.len(),
                attributes: KVM_MEMORY_ATTRIBUTE_PRIVATE,
            },
        );
        i = i + 1;
    }
    out
}

/// Wraps mapped regions for registration, assigning slots densely in
/// order, and assembles them into a collection; the regions must come
/// sorted by guest base and free of overlap.
pub fn kvmify(regions: Vec<GuestRegionMmap>) -> (r: Result<
    GuestMemoryMmap,
    GuestRegionCollectionError,
>)
    requires
        regions@.len() <= u32::MAX,
        forall|i: int| 0 <= i < regions@.len() ==> (#[trigger] regions@[i]).wf(),
    ensures
        match r {
            Ok(m) => {
                &&& m.wf()
                &&& m.spec_len() == regions@.len()
                &&& forall|i: int|
                    0 <= i < m.spec_len() ==> {
                        &&& (#[trigger] m.spec_regions()[i]).spec_region() == regions@[i]
                        &&& m.spec_regions()[i].spec_slot() == i as u32
                        &&& m.spec_regions()[i].spec_flags() == (if regions@[i].spec_dirty()
                            is Some {
                            KVM_MEM_LOG_DIRTY_PAGES
                        } else {
                            0u32
                        })
                        &&& m.spec_regions()[i].spec_guest_memfd() == (0u32, 0u64)
                    }
            },
            Err(e) => match e {
                GuestRegionCollectionError::NoMemoryRegion => regions@.len() == 0,
                GuestRegionCollectionError::UnsortedMemoryRegions => exists|i: int|
                    0 <= i < regions@.len() - 1 && (#[trigger] regions@[i]).spec_base()
                        > regions@[i + 1].spec_base(),
                GuestRegionCollectionError::MemoryRegionOverlap => exists|i: int|
                    0 <= i < regions@.len() - 1 && (#[trigger] regions@[i]).spec_base()
                        + regions@[i].spec_size() > regions@[i + 1].spec_base(),
            },
        },
{
    let ghost orig = regions@;
    let n: usize = regions.len();
    let mut rest: Vec<GuestRegionMmap> = regions;
    let mut wrapped: Vec<KvmRegion> = Vec::new();
    let mut i: usize = 0;
    while i < n
        invariant
            i <= n,
            n == orig.len(),
            n <= u32::MAX,
            rest@ =~= orig.subrange(i as int, n as int),
            wrapped@.len() == i,
            forall|k: int| 0 <= k < orig.len() ==> (#[trigger] orig[k]).wf(),
            forall|k: int|
                0 <= k < i ==> {
                    &&& (#[trigger] wrapped@[k]).spec_region() == orig[k]
                    &&& wrapped@[k].spec_slot() == k as u32
                    &&& wrapped@[k].spec_flags() == (if orig[k].spec_dirty() is Some {
                        KVM_MEM_LOG_DIRTY_PAGES
                    } else {
                        0u32
                    })
                    &&& wrapped@[k].spec_guest_memfd() == (0u32, 0u64)
                    &&& wrapped@[k].wf()
                },
        decreases n - i,
    {
        let region: GuestRegionMmap = rest.remove(0);
        proof {
            assert(region == orig[i as int]);
        }
        let kr = KvmRegion::from_mmap_region(region, i as u32, None);
        wrapped.push(kr);
        proof {
            assert(1u32 | 0u32 == 1u32) by (bit_vector);
            assert(0u32 | 0u32 == 0u32) by (bit_vector);
            assert(rest@ =~= orig.subrange(i + 1, n as int));
        }
        i = i + 1;
    }
    GuestMemoryMmap::from_regions(wrapped)
}

} // verus!
