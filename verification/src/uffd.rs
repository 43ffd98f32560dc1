//! Userspace page-fault handler: per-page lifecycle states for guest
//! memory served from a snapshot file, and the transitions driven by
//! fault and removal events on the fault channel.

use vstd::prelude::*;

use crate::lemma_mul_le_iff_div;
use crate::spec_page_count;

verus! {

/// Errors that are fatal to the fault handler.
#[derive(Debug, PartialEq, Eq)]
pub enum UffdError {
    /// The handshake payload could not be understood.
    MalformedHandshake,
    /// The regions described do not add up to the backing file size.
    SizeMismatch,
    /// An event of a kind the handler does not recognize arrived.
    UnknownEvent,
    /// A fault address lies outside every region.
    AddressOutsideRegions,
    /// The fault channel failed with the given `errno`.
    FaultChannel(i32),
}

/// Lifecycle state of one page served by the fault handler.
#[derive(Debug, Clone, Copy, PartialEq, Eq, Structural)]
pub enum MemPageState {
    /// The page was never touched.
    Uninitialized,
    /// The page holds content from the snapshotted memory file.
    FromFile,
    /// The guest returned the page to the host; its content is gone.
    Removed,
    /// The page was zeroed after a fault on a removed page.
    Anonymous,
}

/// Describes where one guest memory region lives in the monitor's
/// address space and where its contents sit in the backing file.
#[derive(Debug, Clone, Copy, PartialEq, Eq, Structural)]
pub struct GuestRegionUffdMapping {
    /// Base host virtual address the region is mapped at.
    pub base_host_virt_addr: u64,
    /// Region size in bytes.
    pub size: usize,
    /// Offset in the backing file where the region's contents are.
    pub offset: u64,
}

/// What the handler tells the fault channel to do for one fault.
#[derive(Debug, Clone, Copy, PartialEq, Eq, Structural)]
pub enum FaultReply {
    /// Populate `len` bytes at `dst` from the backing file at
    /// `src_offset`.
    Copy {
        /// Host virtual address to populate.
        dst: u64,
        /// Offset of the content in the backing file.
        src_offset: u64,
        /// How many bytes to populate.
        len: usize,
    },
    /// Map `len` bytes of zeroes at `start`.
    Zero {
        /// Host virtual address to zero.
        start: u64,
        /// How many bytes to zero.
        len: usize,
    },
}

/// An event read from the fault channel.
#[derive(Debug, Clone, Copy, PartialEq, Eq, Structural)]
pub enum UffdEvent {
    /// The guest faulted at a host virtual address.
    Pagefault {
        /// The faulting address.
        addr: u64,
    },
    /// The guest returned `[start, end)` to the host.
    Remove {
        /// First address of the removed range.
        start: u64,
        /// One past the last address of the removed range.
        end: u64,
    },
    /// Any other event kind.
    Unsupported,
}

/// The state a page moves to when a fault hits it.
pub open spec fn spec_on_fault(s: MemPageState) -> MemPageState {
    match s {
        MemPageState::Uninitialized => MemPageState::FromFile,
        MemPageState::FromFile => MemPageState::FromFile,
        MemPageState::Removed => MemPageState::Anonymous,
        MemPageState::Anonymous => MemPageState::Anonymous,
    }
}

/// Whether a fault on a page in state `s` is served from the backing
/// file; otherwise the page is zeroed.
pub open spec fn spec_fault_copies(s: MemPageState) -> bool {
    match s {
        MemPageState::Uninitialized => true,
        MemPageState::FromFile => true,
        MemPageState::Removed => false,
        MemPageState::Anonymous => false,
    }
}

/// The state a page moves to when the guest removes it.
pub open spec fn spec_on_remove(s: MemPageState) -> MemPageState {
    MemPageState::Removed
}

/// A positive power of two.
pub open spec fn spec_power_of_two(x: usize) -> bool {
    x > 0 && x & ((x - 1) as usize) == 0
}

/// Whether the handler tracks a page keyed by host virtual address
/// `a` in the region mapped by `m`: the address lies in the region, a
/// whole number of pages past its base.
pub open spec fn spec_has_page_key(m: GuestRegionUffdMapping, ps: int, a: int) -> bool {
    &&& m.base_host_virt_addr <= a < m.base_host_virt_addr + m.size
    &&& (a - m.base_host_virt_addr) % ps == 0
}

/// Sum of the sizes of the first `n` described regions.
pub open spec fn spec_mapping_sizes(ms: Seq<GuestRegionUffdMapping>, n: int) -> int
    decreases n,
{
    if n <= 0 {
        0
    } else {
        spec_mapping_sizes(ms, n - 1) + ms[n - 1].size
    }
}

#[derive(Debug)]
struct MemRegion {
    mapping: GuestRegionUffdMapping,
    page_states: Vec<MemPageState>,
}

/// The fault handler's view of guest memory: one page-state table per
/// region described in the handshake.
#[derive(Debug)]
pub struct UffdPfHandler {
    mem_regions: Vec<MemRegion>,
    page_size: usize,
}

impl UffdPfHandler {
    /// The configured page size.
    pub closed spec fn spec_page_size(&self) -> int {
        self.page_size as int
    }

    /// Number of regions.
    pub closed spec fn spec_len(&self) -> int {
        self.mem_regions@.len() as int
    }

    /// The mapping of region `i`.
    pub closed spec fn spec_mapping(&self, i: int) -> GuestRegionUffdMapping {
        self.mem_regions@[i].mapping
    }

    /// The page states of region `i`.
    pub closed spec fn spec_states(&self, i: int) -> Seq<MemPageState> {
        self.mem_regions@[i].page_states@
    }

    /// The page size is a power of two, every region fits the address
    /// space and its slice of the backing file, and each region has
    /// one state per page.
    pub open spec fn wf(&self) -> bool {
        &&& spec_power_of_two(self.spec_page_size() as usize)
        &&& 1 <= self.spec_page_size()
        &&& forall|i: int|
            0 <= i < self.spec_len() ==> {
                &&& (#[trigger] self.spec_mapping(i)).base_host_virt_addr + self.spec_mapping(
                    i,
                ).size <= u64::MAX as int + 1
                &&& self.spec_mapping(i).offset + self.spec_mapping(i).size <= u64::MAX as int + 1
                &&& self.spec_states(i).len() == spec_page_count(
                    self.spec_mapping(i).size as int,
                    self.spec_page_size(),
                )
            }
    }

    /// Builds the handler state from the handshake: the regions in
    /// order, every page `Uninitialized`.  Regions that leave the
    /// address space or their file slice fail the handshake as
    /// malformed; regions whose sizes do not add up to the backing
    /// file's size fail with `SizeMismatch`.
    pub fn from_mappings(
        mappings: Vec<GuestRegionUffdMapping>,
        backing_size: usize,
        page_size: usize,
    ) -> (r: Result<UffdPfHandler, UffdError>)
        requires
            spec_power_of_two(page_size),
        ensures
            match r {
                Ok(h) => {
                    &&& h.wf()
                    &&& h.spec_page_size() == page_size
                    &&& h.spec_len() == mappings@.len()
                    &&& spec_mapping_sizes(mappings@, mappings@.len() as int)
                        == backing_size as int
                    &&& forall|i: int|
                        0 <= i < h.spec_len() ==> #[trigger] h.spec_mapping(i) == mappings@[i]
                    &&& forall|i: int, q: int|
                        0 <= i < h.spec_len() && 0 <= q < h.spec_states(i).len()
                            ==> #[trigger] h.spec_states(i)[q] == MemPageState::Uninitialized
                },
                Err(e) => match e {
                    UffdError::MalformedHandshake => exists|i: int|
                        0 <= i < mappings@.len() && ((#[trigger] mappings@[i]).base_host_virt_addr
                            + mappings@[i].size > u64::MAX as int + 1 || mappings@[i].offset
                            + mappings@[i].size > u64::MAX as int + 1),
                    UffdError::SizeMismatch => spec_mapping_sizes(
                        mappings@,
                        mappings@.len() as int,
                    ) != backing_size as int,
                    _ => false,
                },
            },
    {
        let n: usize = mappings.len();
        let mut total: usize = 0;
        let mut i: usize = 0;
        while i < n
            invariant
                i <= n,
                n == mappings@.len(),
                total == spec_mapping_sizes(mappings@, i as int),
                forall|k: int|
                    0 <= k < i ==> {
                        &&& (#[trigger] mappings@[k]).base_host_virt_addr + mappings@[k].size
                            <= u64::MAX as int + 1
                        &&& mappings@[k].offset + mappings@[k].size <= u64::MAX as int + 1
                    },
            decreases n - i,
        {
            let m = &mappings[i];
            if m.size > 0 {
                let top: u64 = (m.size - 1) as u64;
                if m.base_host_virt_addr > u64::MAX - top || m.offset > u64::MAX - top {
                    return Err(UffdError::MalformedHandshake);
                }
            }
            if total > usize::MAX - m.size {
                proof {
                    lemma_mapping_sizes_grow(mappings@, i + 1, n as int);
                }
                return Err(UffdError::SizeMismatch);
            }
            total = total + m.size;
            i = i + 1;
        }
        if total != backing_size {
            return Err(UffdError::SizeMismatch);
        }
        let mut regions: Vec<MemRegion> = Vec::new();
        let mut j: usize = 0;
        while j < n
            invariant
                j <= n,
                n == mappings@.len(),
                page_size >= 1,
                regions@.len() == j,
                forall|k: int|
                    0 <= k < n ==> {
                        &&& (#[trigger] mappings@[k]).base_host_virt_addr + mappings@[k].size
                            <= u64::MAX as int + 1
                        &&& mappings@[k].offset + mappings@[k].size <= u64::MAX as int + 1
                    },
                forall|k: int|
                    0 <= k < j ==> {
                        &&& (#[trigger] regions@[k]).mapping == mappings@[k]
                        &&& regions@[k].page_states@.len() == spec_page_count(
                            mappings@[k].size as int,
                            page_size as int,
                        )
                        &&& forall|q: int|
                            0 <= q < regions@[k].page_states@.len()
                                ==> #[trigger] regions@[k].page_states@[q]
                                == MemPageState::Uninitialized
                    },
            decreases n - j,
        {
            let m = mappings[j];
            let pages: usize = if m.size == 0 {
                proof {
                    vstd::arithmetic::div_mod::lemma_basic_div(
                        page_size as int - 1,
                        page_size as int,
                    );
                }
                0
            } else {
                proof {
                    vstd::arithmetic::div_mod::lemma_div_plus_one(
                        m.size - 1,
                        page_size as int,
                    );
                }
                (m.size - 1) / page_size + 1
            };
            let mut states: Vec<MemPageState> = Vec::new();
            let mut q: usize = 0;
            while q < pages
                invariant
                    q <= pages,
                    states@.len() == q,
                    forall|t: int|
                        0 <= t < q ==> #[trigger] states@[t] == MemPageState::Uninitialized,
                decreases pages - q,
            {
                states.push(MemPageState::Uninitialized);
                q = q + 1;
            }
            regions.push(MemRegion { mapping: m, page_states: states });
            j = j + 1;
        }
        Ok(UffdPfHandler { mem_regions: regions, page_size })
    }

    /// Sets every tracked page with address in `[start, end)` -- in
    /// any region -- to `state`; all other pages keep their state.
    pub fn update_mem_state_mappings(&mut self, start: u64, end: u64, state: MemPageState)
        requires
            old(self).wf(),
        ensures
            final(self).wf(),
            spec_states_updated(
                *old(self),
                *final(self),
                start as int,
                end as int,
                state,
            ),
    {
        let n: usize = self.mem_regions.len();
        let mut i: usize = 0;
        while i < n
            invariant
                self.wf(),
                old(self).wf(),
                i <= n,
                n == self.spec_len(),
                self.spec_len() == old(self).spec_len(),
                self.spec_page_size() == old(self).spec_page_size(),
                forall|k: int|
                    0 <= k < n ==> #[trigger] self.spec_mapping(k) == old(self).spec_mapping(k),
                forall|k: int|
                    0 <= k < n ==> #[trigger] self.spec_states(k).len() == old(self).spec_states(
                        k,
                    ).len(),
                forall|k: int, q: int|
                    0 <= k < i && 0 <= q < old(self).spec_states(k).len()
                        ==> #[trigger] self.spec_states(k)[q] == (
                    if start <= old(self).spec_mapping(k).base_host_virt_addr + q * old(
                        self,
                    ).spec_page_size() < end {
                        state
                    } else {
                        old(self).spec_states(k)[q]
                    }),
                forall|k: int, q: int|
                    i <= k < n && 0 <= q < old(self).spec_states(k).len()
                        ==> #[trigger] self.spec_states(k)[q] == old(self).spec_states(k)[q],
            decreases n - i,
        {
            let ghost head = *self;
            let ghost before = self.mem_regions@;
            proof {
                assert(self.spec_mapping(i as int).base_host_virt_addr + self.spec_mapping(
                    i as int,
                ).size <= u64::MAX as int + 1);
                assert(self.spec_states(i as int).len() == spec_page_count(
                    self.spec_mapping(i as int).size as int,
                    self.spec_page_size(),
                ));
            }
            let mut region: MemRegion = self.mem_regions.remove(i);
            let base: u64 = region.mapping.base_host_virt_addr;
            let size: usize = region.mapping.size;
            let pages: usize = region.page_states.len();
            let mut q: usize = 0;
            while q < pages
                invariant
                    q <= pages,
                    i < before.len(),
                    self.spec_page_size() == old(self).spec_page_size(),
                    self.page_size >= 1,
                    pages == region.page_states@.len(),
                    pages == spec_page_count(size as int, self.page_size as int),
                    base as int + size as int <= u64::MAX as int + 1,
                    region.mapping == before[i as int].mapping,
                    base == region.mapping.base_host_virt_addr,
                    size == region.mapping.size,
                    forall|t: int|
                        0 <= t < q ==> #[trigger] region.page_states@[t] == (
                        if start <= base + t * self.page_size < end {
                            state
                        } else {
                            before[i as int].page_states@[t]
                        }),
                    forall|t: int|
                        q <= t < pages ==> #[trigger] region.page_states@[t] == before[
                            i as int].page_states@[t],
                decreases pages - q,
            {
                proof {
                    lemma_page_in_region(q as int, pages as int, size as int,
                    self.page_size as int);
                }
                let page_offset: u64 = (q * self.page_size) as u64;
                let pa: u64 = base + page_offset;
                let in_range: bool = pa >= start && start < end && pa - start < end - start;
                if in_range {
                    region.page_states.set(q, state);
                }
                q = q + 1;
            }
            self.mem_regions.insert(i, region);
            proof {
                assert(self.mem_regions@ =~= before.update(
                    i as int,
                    self.mem_regions@[i as int],
                ));
                assert forall|k: int| 0 <= k < n implies #[trigger] self.spec_mapping(k)
                    == old(self).spec_mapping(k) by {
                    uffd_bridge(head, *old(self), before, k);
                    if k == i as int {
                        assert(self.mem_regions@[k] == region);
                        assert(region.mapping == before[k].mapping);
                    } else {
                        assert(self.mem_regions@[k] == before[k]);
                    }
                }
                assert forall|k: int| 0 <= k < n implies #[trigger] self.spec_states(k).len()
                    == old(self).spec_states(k).len() by {
                    uffd_bridge(head, *old(self), before, k);
                    if k == i as int {
                        assert(self.mem_regions@[k] == region);
                        assert(region.page_states@.len() == pages);
                        assert(before[k].page_states@.len() == pages);
                    } else {
                        assert(self.mem_regions@[k] == before[k]);
                    }
                }
                assert forall|k: int, q: int|
                    i + 1 <= k < n && 0 <= q < old(self).spec_states(k).len()
                        implies #[trigger] self.spec_states(k)[q] == old(self).spec_states(
                    k,
                )[q] by {
                    uffd_bridge(head, *old(self), before, k);
                    assert(head.spec_states(k)[q] == old(self).spec_states(k)[q]);
                    assert(self.mem_regions@[k] == before[k]);
                }
                assert forall|k: int, q: int|
                    0 <= k < i + 1 && 0 <= q < old(self).spec_states(k).len()
                        implies #[trigger] self.spec_states(k)[q] == (
                    if start <= old(self).spec_mapping(k).base_host_virt_addr + q * old(
                        self,
                    ).spec_page_size() < end {
                        state
                    } else {
                        old(self).spec_states(k)[q]
                    }) by {
                    uffd_bridge(head, *old(self), before, k);
                    if k == i as int {
                        assert(self.mem_regions@[k] == region);
                        assert(region.page_states@[q] == (if start <= base + q * self.page_size
                            < end {
                            state
                        } else {
                            before[k].page_states@[q]
                        }));
                        assert(head.spec_states(k)[q] == old(self).spec_states(k)[q]);
                    } else {
                        assert(self.mem_regions@[k] == before[k]);
                        assert(head.spec_states(k)[q] == (
                        if start <= old(self).spec_mapping(k).base_host_virt_addr + q * old(
                            self,
                        ).spec_page_size() < end {
                            state
                        } else {
                            old(self).spec_states(k)[q]
                        }));
                    }
                }
            }
            i = i + 1;
        }
    }
}

/// A page index below the page count addresses bytes inside the
/// region.
proof fn lemma_page_in_region(q: int, pages: int, size: int, ps: int)
    requires
        ps >= 1,
        0 <= q < pages,
        pages == spec_page_count(size, ps),
    ensures
        q * ps < size,
        q * ps >= 0,
{
    lemma_mul_le_iff_div(q, size + ps - 1, ps);
    vstd::arithmetic::mul::lemma_mul_inequality(0, q, ps);
    if q * ps >= size {
        vstd::arithmetic::div_mod::lemma_fundamental_div_mod(size + ps - 1, ps);
        vstd::arithmetic::div_mod::lemma_mod_division_less_than_divisor(size + ps - 1, ps);
        vstd::arithmetic::mul::lemma_mul_inequality(q + 1, pages, ps);
        assert((q + 1) * ps == q * ps + ps) by (nonlinear_arith);
        assert(pages * ps == ps * pages) by (nonlinear_arith);
        assert(false);
    }
}

/// Prefix sums of region sizes grow with the prefix.
proof fn lemma_mapping_sizes_grow(ms: Seq<GuestRegionUffdMapping>, i: int, j: int)
    requires
        0 <= i <= j <= ms.len(),
    ensures
        spec_mapping_sizes(ms, i) <= spec_mapping_sizes(ms, j),
    decreases j - i,
{
    if i < j {
        lemma_mapping_sizes_grow(ms, i, j - 1);
    }
}

} // verus!

use vstd::prelude::*;

verus! {

/// Handler `h2` is handler `h1` with every tracked page whose address
/// lies in `[start, end)` set to `state` and nothing else changed.
pub open spec fn spec_states_updated(
    h1: UffdPfHandler,
    h2: UffdPfHandler,
    start: int,
    end: int,
    state: MemPageState,
) -> bool {
    &&& h2.spec_page_size() == h1.spec_page_size()
    &&& h2.spec_len() == h1.spec_len()
    &&& (forall|i: int|
        0 <= i < h1.spec_len() ==> #[trigger] h2.spec_mapping(i) == h1.spec_mapping(i))
    &&& (forall|i: int|
        0 <= i < h1.spec_len() ==> #[trigger] h2.spec_states(i).len() == h1.spec_states(
            i,
        ).len())
    &&& forall|i: int, q: int|
        0 <= i < h1.spec_len() && 0 <= q < h1.spec_states(i).len()
            ==> #[trigger] h2.spec_states(i)[q] == (
        if start <= h1.spec_mapping(i).base_host_virt_addr + q * h1.spec_page_size() < end {
            state
        } else {
            h1.spec_states(i)[q]
        })
}

/// The host virtual address a fault at `addr` is aligned down to.
pub open spec fn spec_fault_base(addr: int, fault_size: int) -> int {
    addr - addr % fault_size
}

/// One past the last address a fault serves, clamped to the top of
/// the address space.
pub open spec fn spec_fault_end(pb: int, fault_size: int) -> int {
    if pb + fault_size <= u64::MAX as int {
        pb + fault_size
    } else {
        u64::MAX as int
    }
}

/// Handler `h2` is handler `h1` after a page fault at `addr` was
/// served with reply `a` by region `i`: region `i` is the first one
/// tracking the aligned fault address, that page's state decides
/// whether the range is populated from the backing file or zeroed,
/// and every tracked page the range covers moves per the transition
/// table.
pub open spec fn spec_fault_served_by(
    h1: UffdPfHandler,
    h2: UffdPfHandler,
    addr: int,
    fault_size: int,
    a: FaultReply,
    i: int,
) -> bool {
    let ps = h1.spec_page_size() as int;
    let pb = spec_fault_base(addr, fault_size);
    let m = h1.spec_mapping(i);
    let s0 = h1.spec_states(i)[(pb - m.base_host_virt_addr) / ps];
    &&& 0 <= i < h1.spec_len()
    &&& spec_has_page_key(m, ps, pb)
    &&& (forall|j: int| 0 <= j < i ==> !spec_has_page_key(#[trigger] h1.spec_mapping(j), ps, pb))
    &&& a == if spec_fault_copies(s0) {
        FaultReply::Copy {
            dst: pb as u64,
            src_offset: (m.offset + (pb - m.base_host_virt_addr)) as u64,
            len: fault_size as usize,
        }
    } else {
        FaultReply::Zero { start: pb as u64, len: fault_size as usize }
    }
    &&& spec_states_updated(h1, h2, pb, spec_fault_end(pb, fault_size), spec_on_fault(s0))
}

/// Handler `h2` is handler `h1` after one page fault at `addr` was
/// served with result `r`: the first region tracking the aligned
/// fault address decides, from that page's state, whether the range
/// is populated from the backing file or zeroed, and every tracked
/// page the range covers moves per the transition table.  A fault
/// outside every region is fatal and changes nothing.
pub open spec fn spec_fault_served(
    h1: UffdPfHandler,
    h2: UffdPfHandler,
    addr: int,
    fault_size: int,
    r: Result<FaultReply, UffdError>,
) -> bool {
    let ps = h1.spec_page_size() as int;
    let pb = spec_fault_base(addr, fault_size);
    match r {
        Ok(a) => exists|i: int| spec_fault_served_by(h1, h2, addr, fault_size, a, i),
        Err(e) => {
            &&& e == UffdError::AddressOutsideRegions
            &&& h2 == h1
            &&& forall|i: int|
                0 <= i < h1.spec_len() ==> !spec_has_page_key(
                    #[trigger] h1.spec_mapping(i),
                    ps,
                    pb,
                )
        },
    }
}

impl UffdPfHandler {
    /// Serves one page fault: aligns `addr` down to the configured
    /// fault granularity, finds the region tracking that page, and
    /// per the page's state orders a copy from the backing file or a
    /// zero fill, moving every page of the served range along the
    /// transition table.  A fault outside every region is fatal.
    pub fn serve_pf(&mut self, addr: u64, fault_size: usize) -> (r: Result<
        FaultReply,
        UffdError,
    >)
        requires
            old(self).wf(),
            fault_size >= 1,
        ensures
            final(self).wf(),
            spec_fault_served(*old(self), *final(self), addr as int, fault_size as int, r),
    {
        let ps: usize = self.page_size;
        proof {
            vstd::arithmetic::div_mod::lemma_mod_decreases(addr as nat, fault_size as nat);
        }
        let pb: u64 = addr - addr % (fault_size as u64);
        let n: usize = self.mem_regions.len();
        let mut i: usize = 0;
        while i < n
            invariant
                *self == *old(self),
                self.wf(),
                i <= n,
                n == self.spec_len(),
                ps == self.spec_page_size(),
                pb as int == spec_fault_base(addr as int, fault_size as int),
                forall|j: int|
                    0 <= j < i ==> !spec_has_page_key(
                        #[trigger] old(self).spec_mapping(j),
                        ps as int,
                        pb as int,
                    ),
            decreases n - i,
        {
            let m: GuestRegionUffdMapping = self.mem_regions[i].mapping;
            let base: u64 = m.base_host_virt_addr;
            let tracked_here: bool = pb >= base && (pb - base) < m.size as u64 && (pb - base) % (
            ps as u64) == 0;
            if tracked_here {
                let off_in: u64 = pb - base;
                proof {
                    assert(self.spec_mapping(i as int).base_host_virt_addr + self.spec_mapping(
                        i as int,
                    ).size <= u64::MAX as int + 1);
                    assert(self.spec_mapping(i as int).offset + self.spec_mapping(i as int).size
                        <= u64::MAX as int + 1);
                    assert(self.spec_states(i as int).len() == spec_page_count(
                        self.spec_mapping(i as int).size as int,
                        self.spec_page_size(),
                    ));
                    lemma_page_index_in_range(off_in as int, m.size as int, ps as int);
                }
                let q: usize = (off_in / (ps as u64)) as usize;
                let s0: MemPageState = self.mem_regions[i].page_states[q];
                let copies: bool = match s0 {
                    MemPageState::Uninitialized => true,
                    MemPageState::FromFile => true,
                    MemPageState::Removed => false,
                    MemPageState::Anonymous => false,
                };
                let new_state: MemPageState = if copies {
                    MemPageState::FromFile
                } else {
                    MemPageState::Anonymous
                };
                let reply: FaultReply = if copies {
                    FaultReply::Copy { dst: pb, src_offset: m.offset + off_in, len: fault_size }
                } else {
                    FaultReply::Zero { start: pb, len: fault_size }
                };
                let end: u64 = if (fault_size as u64) <= u64::MAX - pb {
                    pb + (fault_size as u64)
                } else {
                    u64::MAX
                };
                let ghost before = *self;
                self.update_mem_state_mappings(pb, end, new_state);
                proof {
                    assert(spec_has_page_key(
                        old(self).spec_mapping(i as int),
                        ps as int,
                        pb as int,
                    ));
                    assert(spec_fault_served_by(
                        *old(self),
                        *self,
                        addr as int,
                        fault_size as int,
                        reply,
                        i as int,
                    ));
                }
                return Ok(reply);
            }
            i = i + 1;
        }
        Err(UffdError::AddressOutsideRegions)
    }

    /// Handles one event from the fault channel: a page fault is
    /// served, a removal moves every page of the range to `Removed`
    /// with no population, and any other event kind is fatal.
    pub fn handle_event(&mut self, event: UffdEvent, fault_size: usize) -> (r: Result<
        Option<FaultReply>,
        UffdError,
    >)
        requires
            old(self).wf(),
            fault_size >= 1,
        ensures
            final(self).wf(),
            match event {
                UffdEvent::Pagefault { addr } => match r {
                    Ok(a) => a is Some && spec_fault_served(
                        *old(self),
                        *final(self),
                        addr as int,
                        fault_size as int,
                        Ok(a.unwrap()),
                    ),
                    Err(e) => spec_fault_served(
                        *old(self),
                        *final(self),
                        addr as int,
                        fault_size as int,
                        Err(e),
                    ),
                },
                UffdEvent::Remove { start, end } => r == Ok::<
                    Option<FaultReply>,
                    UffdError,
                >(None) && spec_states_updated(
                    *old(self),
                    *final(self),
                    start as int,
                    end as int,
                    MemPageState::Removed,
                ),
                UffdEvent::Unsupported => r == Err::<
                    Option<FaultReply>,
                    UffdError,
                >(UffdError::UnknownEvent) && *final(self) == *old(self),
            },
    {
        match event {
            UffdEvent::Pagefault { addr } => {
                match self.serve_pf(addr, fault_size) {
                    Ok(a) => Ok(Some(a)),
                    Err(e) => Err(e),
                }
            },
            UffdEvent::Remove { start, end } => {
                self.update_mem_state_mappings(start, end, MemPageState::Removed);
                Ok(None)
            },
            UffdEvent::Unsupported => Err(UffdError::UnknownEvent),
        }
    }
}

/// An aligned offset inside a region indexes a page inside its state
/// table.
proof fn lemma_page_index_in_range(off: int, size: int, ps: int)
    requires
        ps >= 1,
        0 <= off < size,
    ensures
        0 <= off / ps < spec_page_count(size, ps),
{
    vstd::arithmetic::div_mod::lemma_div_pos_is_pos(off, ps);
    vstd::arithmetic::div_mod::lemma_div_is_ordered(off, size - 1, ps);
    vstd::arithmetic::div_mod::lemma_div_plus_one(size - 1, ps);
}

/// The fault-handler transition table, row by row: a fault populates
/// an untouched or file-backed page from the backing file and leaves
/// it `FromFile`; a fault zeroes a removed or re-faulted page and
/// leaves it `Anonymous`; a removal sends every state to `Removed`.
pub proof fn lemma_transition_table()
    ensures
        spec_on_fault(MemPageState::Uninitialized) == MemPageState::FromFile,
        spec_fault_copies(MemPageState::Uninitialized),
        spec_on_fault(MemPageState::FromFile) == MemPageState::FromFile,
        spec_fault_copies(MemPageState::FromFile),
        spec_on_fault(MemPageState::Removed) == MemPageState::Anonymous,
        !spec_fault_copies(MemPageState::Removed),
        spec_on_fault(MemPageState::Anonymous) == MemPageState::Anonymous,
        !spec_fault_copies(MemPageState::Anonymous),
        forall|s: MemPageState| #[trigger] spec_on_remove(s) == MemPageState::Removed,
{
}

/// A served fault was served by the one region that tracks the
/// aligned fault address: when every other region does not track it,
/// the serving region is pinned.
pub proof fn lemma_fault_served_at(
    h1: UffdPfHandler,
    h2: UffdPfHandler,
    addr: int,
    fault_size: int,
    a: FaultReply,
    i: int,
)
    requires
        spec_fault_served(h1, h2, addr, fault_size, Ok(a)),
        0 <= i < h1.spec_len(),
        forall|j: int|
            0 <= j < h1.spec_len() && j != i ==> !spec_has_page_key(
                #[trigger] h1.spec_mapping(j),
                h1.spec_page_size() as int,
                spec_fault_base(addr, fault_size),
            ),
    ensures
        spec_fault_served_by(h1, h2, addr, fault_size, a, i),
{
    let k = choose|k: int| spec_fault_served_by(h1, h2, addr, fault_size, a, k);
    if k != i {
        assert(spec_has_page_key(
            h1.spec_mapping(k),
            h1.spec_page_size() as int,
            spec_fault_base(addr, fault_size),
        ));
        assert(false);
    }
}

/// Replay of a first fault, a removal and a second fault over two
/// disjoint one-page regions whose pages start untouched, from the
/// contracts alone: the first fault on each page copies that region's
/// slice of the backing file, the removal orders nothing, and the
/// fault after the removal zeroes the page instead of re-reading the
/// file, leaving the removed-and-refaulted page `Anonymous` while the
/// other stays `FromFile`.
pub proof fn lemma_fault_remove_fault_replay(
    h0: UffdPfHandler,
    h1: UffdPfHandler,
    h2: UffdPfHandler,
    h3: UffdPfHandler,
    h4: UffdPfHandler,
    a: u64,
    b: u64,
    ps: usize,
    r1: FaultReply,
    r2: FaultReply,
    r4: FaultReply,
)
    requires
        h0.wf(),
        h0.spec_len() == 2,
        h0.spec_page_size() == ps,
        h0.spec_mapping(0) == (GuestRegionUffdMapping {
            base_host_virt_addr: a,
            size: ps,
            offset: 0,
        }),
        h0.spec_mapping(1) == (GuestRegionUffdMapping {
            base_host_virt_addr: b,
            size: ps,
            offset: ps as u64,
        }),
        a % (ps as u64) == 0,
        b % (ps as u64) == 0,
        a as int + ps <= b as int || b as int + ps <= a as int,
        a as int + ps <= u64::MAX as int,
        b as int + ps <= u64::MAX as int,
        forall|i: int, q: int|
            0 <= i < 2 && 0 <= q < h0.spec_states(i).len() ==> #[trigger] h0.spec_states(i)[q]
                == MemPageState::Uninitialized,
        spec_fault_served(h0, h1, a as int, ps as int, Ok(r1)),
        spec_fault_served(h1, h2, b as int, ps as int, Ok(r2)),
        spec_states_updated(h2, h3, a as int, a as int + ps, MemPageState::Removed),
        spec_fault_served(h3, h4, a as int, ps as int, Ok(r4)),
    ensures
        r1 == (FaultReply::Copy { dst: a, src_offset: 0, len: ps }),
        r2 == (FaultReply::Copy { dst: b, src_offset: ps as u64, len: ps }),
        r4 == (FaultReply::Zero { start: a, len: ps }),
        h4.spec_states(0)[0] == MemPageState::Anonymous,
        h4.spec_states(1)[0] == MemPageState::FromFile,
{
    let psi = ps as int;
    assert(psi >= 1);
    // Each region holds exactly one page.
    vstd::arithmetic::div_mod::lemma_basic_div(psi - 1, psi);
    vstd::arithmetic::div_mod::lemma_div_plus_one(psi - 1, psi);
    assert(spec_page_count(psi, psi) == 1);
    assert(h0.spec_states(0).len() == 1);
    assert(h0.spec_states(1).len() == 1);
    vstd::arithmetic::div_mod::lemma_basic_div(0, psi);
    // Aligned bases are their own fault bases.
    assert(spec_fault_base(a as int, psi) == a as int);
    assert(spec_fault_base(b as int, psi) == b as int);

    // First fault: the first region serves it from the file.
    lemma_fault_served_at(h0, h1, a as int, psi, r1, 0);
    assert(h0.spec_states(0)[0] == MemPageState::Uninitialized);
    assert(r1 == (FaultReply::Copy { dst: a, src_offset: 0, len: ps }));
    assert(h1.spec_states(0)[0] == MemPageState::FromFile);
    assert(h1.spec_states(1)[0] == MemPageState::Uninitialized);

    // Second fault: the second region serves it from the file.
    lemma_fault_served_at(h1, h2, b as int, psi, r2, 1);
    assert(r2 == (FaultReply::Copy { dst: b, src_offset: ps as u64, len: ps }));
    assert(h2.spec_states(0)[0] == MemPageState::FromFile);
    assert(h2.spec_states(1)[0] == MemPageState::FromFile);

    // The removal marks the first page and orders nothing.
    assert(h3.spec_states(0)[0] == MemPageState::Removed);
    assert(h3.spec_states(1)[0] == MemPageState::FromFile);

    // Refault on the removed page: zeroed, not re-read.
    lemma_fault_served_at(h3, h4, a as int, psi, r4, 0);
    assert(r4 == (FaultReply::Zero { start: a, len: ps }));
    assert(h4.spec_states(0)[0] == MemPageState::Anonymous);
    assert(h4.spec_states(1)[0] == MemPageState::FromFile);
}


/// Ties a loop-head snapshot of the handler to the facts the loop
/// invariants state about it.
proof fn uffd_bridge(
    head: UffdPfHandler,
    orig: UffdPfHandler,
    before: Seq<MemRegion>,
    k: int,
)
    requires
        head.mem_regions@ == before,
        0 <= k < before.len(),
    ensures
        head.spec_mapping(k) == before[k].mapping,
        head.spec_states(k) == before[k].page_states@,
{
}

} // verus!
