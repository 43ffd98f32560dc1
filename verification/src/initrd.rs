//! Initrd placement: computes the load address inside the low-memory
//! region and copies the image into guest memory.

use vstd::prelude::*;

use crate::GUEST_PAGE_SIZE;
use crate::bounce::ReadVolatile;
use crate::bounce::read_exact_volatile;
use crate::memory::GuestMemoryMmap;
use crate::memory::spec_contains;
use crate::memory::spec_region_base;
use crate::memory::spec_region_after_write;
use crate::region::GuestMemoryError;

verus! {

/// Errors associated with initrd loading.
#[derive(Debug, PartialEq, Eq)]
pub enum InitrdError {
    /// The initrd address could not be computed.
    Address,
    /// The guest memory cannot hold the initrd at its address.
    Load,
    /// The image's metadata could not be read; carries the `errno`.
    Metadata(i32),
    /// The image could not be read.
    Read,
}

/// Where and how large the initrd is in guest memory.
#[derive(Debug, PartialEq, Eq)]
pub struct InitrdConfig {
    /// Load address of the initrd in guest memory.
    pub address: u64,
    /// Size of the initrd in guest memory.
    pub size: usize,
}

/// The load address of an initrd of `size` bytes: page-aligned, at the
/// top of the region that starts guest-physical address zero.
pub open spec fn spec_initrd_addr(lowmem: int, size: int) -> int {
    ((lowmem - size) / (GUEST_PAGE_SIZE as int)) * (GUEST_PAGE_SIZE as int)
}

/// Computes the initrd load address: the page-aligned top of the
/// region containing guest-physical address zero, leaving room for
/// `size` bytes; fails when no region covers address zero or the
/// region is too small.
pub fn initrd_load_addr(vm_memory: &GuestMemoryMmap, size: usize) -> (r: Option<u64>)
    requires
        vm_memory.wf(),
    ensures
        match r {
            Some(a) => vm_memory.spec_covered(0) && forall|j: int|
                0 <= j < vm_memory.spec_len() && #[trigger] spec_contains(
                    vm_memory.spec_regions()[j],
                    0,
                ) ==> ({
                    let lowmem = vm_memory.spec_regions()[j].spec_region().spec_size();
                    &&& size <= lowmem
                    &&& a == spec_initrd_addr(lowmem, size as int)
                }),
            None => vm_memory.spec_covered(0) ==> exists|j: int|
                0 <= j < vm_memory.spec_len() && #[trigger] spec_contains(
                    vm_memory.spec_regions()[j],
                    0,
                ) && vm_memory.spec_regions()[j].spec_region().spec_size() < size,
        },
{
    match vm_memory.find_region_index(0) {
        None => None,
        Some(i) => {
            let lowmem: usize = vm_memory.region_at(i).region().size();
            if lowmem < size {
                return None;
            }
            proof {
                crate::lemma_mul_le_iff_div(
                    (lowmem - size) as int / (GUEST_PAGE_SIZE as int),
                    (lowmem - size) as int,
                    GUEST_PAGE_SIZE as int,
                );
            }
            let addr: usize = ((lowmem - size) / GUEST_PAGE_SIZE) * GUEST_PAGE_SIZE;
            proof {
                assert forall|j: int|
                    0 <= j < vm_memory.spec_len() && #[trigger] spec_contains(
                        vm_memory.spec_regions()[j],
                        0,
                    ) implies j == i as int by {
                    crate::memory::lemma_region_unique(
                        vm_memory.spec_regions(),
                        j,
                        i as int,
                        0,
                    );
                }
            }
            Some(addr as u64)
        },
    }
}

impl InitrdConfig {
    /// Loads an initrd of `size` bytes from `reader` into guest
    /// memory at the computed load address.  Exactly when no address
    /// can be computed -- no region covers guest-physical address zero,
    /// or the one that does is smaller than the image -- the memory and
    /// the reader are untouched and the error is `Address`; a reader
    /// that cannot deliver `size` bytes gives `Read`, with the memory
    /// untouched.
    #[verifier::rlimit(100)]
    pub fn from_reader<R: ReadVolatile>(
        vm_memory: &mut GuestMemoryMmap,
        reader: &mut R,
        size: usize,
    ) -> (r: Result<InitrdConfig, InitrdError>)
        requires
            old(vm_memory).wf(),
        ensures
            final(vm_memory).wf(),
            final(vm_memory).spec_len() == old(vm_memory).spec_len(),
            match r {
                Ok(cfg) => {
                    &&& cfg.size == size
                    &&& old(vm_memory).spec_covered(0)
                    &&& (forall|j: int|
                        0 <= j < old(vm_memory).spec_len() && #[trigger] spec_contains(
                            old(vm_memory).spec_regions()[j],
                            0,
                        ) ==> ({
                            let lowmem = old(vm_memory).spec_regions()[j].spec_region().spec_size();
                            &&& size <= lowmem
                            &&& cfg.address == spec_initrd_addr(lowmem, size as int)
                        }))
                    &&& size <= old(reader).spec_remaining().len()
                    &&& final(reader).spec_remaining() == old(reader).spec_remaining().skip(
                        size as int,
                    )
                    &&& forall|i: int|
                        0 <= i < old(vm_memory).spec_len() ==> spec_region_after_write(
                            old(vm_memory).spec_regions()[i],
                            #[trigger] final(vm_memory).spec_regions()[i],
                            cfg.address as int,
                            old(reader).spec_remaining().take(size as int),
                            size as int,
                        )
                },
                Err(e) => match e {
                    InitrdError::Address => {
                        &&& *final(vm_memory) == *old(vm_memory)
                        &&& *final(reader) == *old(reader)
                        &&& (old(vm_memory).spec_covered(0) ==> exists|j: int|
                            0 <= j < old(vm_memory).spec_len() && #[trigger] spec_contains(
                                old(vm_memory).spec_regions()[j],
                                0,
                            ) && old(vm_memory).spec_regions()[j].spec_region().spec_size()
                                < size)
                    },
                    InitrdError::Load => {
                        &&& *final(vm_memory) == *old(vm_memory)
                        &&& *final(reader) == *old(reader)
                        &&& size == 0
                        &&& old(vm_memory).spec_covered(0)
                        &&& (forall|j: int|
                            0 <= j < old(vm_memory).spec_len() && #[trigger] spec_contains(
                                old(vm_memory).spec_regions()[j],
                                0,
                            ) ==> size <= old(
                                vm_memory,
                            ).spec_regions()[j].spec_region().spec_size())
                    },
                    InitrdError::Read => {
                        &&& *final(vm_memory) == *old(vm_memory)
                        &&& exists|n: int|
                            0 <= n <= old(reader).spec_remaining().len()
                                && final(reader).spec_remaining()
                                == #[trigger] old(reader).spec_remaining().skip(n)
                        &&& old(vm_memory).spec_covered(0)
                        &&& (forall|j: int|
                            0 <= j < old(vm_memory).spec_len() && #[trigger] spec_contains(
                                old(vm_memory).spec_regions()[j],
                                0,
                            ) ==> size <= old(
                                vm_memory,
                            ).spec_regions()[j].spec_region().spec_size())
                    },
                    _ => false,
                },
            },
    {
        let address: u64 = match initrd_load_addr(vm_memory, size) {
            Some(a) => a,
            None => {
                return Err(InitrdError::Address);
            },
        };
        proof {
            assert(vm_memory.spec_covered(0));
            let j = choose|j: int|
                0 <= j < vm_memory.spec_len() && #[trigger] spec_contains(
                    vm_memory.spec_regions()[j],
                    0,
                );
            assert(spec_contains(vm_memory.spec_regions()[j], 0));
            let region = vm_memory.spec_regions()[j].spec_region();
            assert(spec_region_base(vm_memory.spec_regions()[j]) == 0);
            crate::lemma_mul_le_iff_div(
                (region.spec_size() - size) / (GUEST_PAGE_SIZE as int),
                region.spec_size() - size,
                GUEST_PAGE_SIZE as int,
            );
            assert(address + size <= region.spec_size());
            if address < region.spec_size() {
                assert(spec_contains(vm_memory.spec_regions()[j], address as int));
                assert(vm_memory.spec_covered(address as int));
            }
        }
        match vm_memory.get_slice(address, size) {
            Ok(_) => {},
            Err(e) => {
                proof {
                    if e == GuestMemoryError::InvalidBackendAddress {
                        let j2 = choose|j2: int|
                            0 <= j2 < vm_memory.spec_len() && spec_contains(
                                vm_memory.spec_regions()[j2],
                                address as int,
                            ) && address + size > crate::memory::spec_region_end(
                                vm_memory.spec_regions()[j2],
                            );
                        let j = choose|j: int|
                            0 <= j < vm_memory.spec_len() && spec_contains(
                                vm_memory.spec_regions()[j],
                                0,
                            );
                        crate::memory::lemma_region_unique(
                            vm_memory.spec_regions(),
                            j,
                            j2,
                            address as int,
                        );
                        assert(false);
                    }
                }
                return Err(InitrdError::Load);
            },
        }
        let data: Vec<u8> = match read_exact_volatile(reader, size) {
            Ok(v) => v,
            Err(_) => {
                return Err(InitrdError::Read);
            },
        };
        let ghost mem_before = *vm_memory;
        match vm_memory.write(data.as_slice(), address) {
            Ok(_) => Ok(InitrdConfig { address, size }),
            Err(e) => {
                proof {
                    let a = (match e {
                        GuestMemoryError::InvalidGuestAddress(x) => x,
                        _ => 0u64,
                    });
                    assert(mem_before.spec_covered(0));
                    let j = choose|j: int|
                        0 <= j < mem_before.spec_len() && #[trigger] spec_contains(
                            mem_before.spec_regions()[j],
                            0,
                        );
                    if size > 0 {
                        assert(spec_contains(mem_before.spec_regions()[j], a as int));
                    }
                    assert(false);
                }
                Err(InitrdError::Load)
            },
        }
    }
}

} // verus!
