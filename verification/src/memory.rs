//! Ordered collection of guest memory regions, addressable by guest
//! physical address.

use vstd::prelude::*;

use crate::region::GuestMemoryError;
use crate::region::GuestRegionMmap;
use crate::region::KvmRegion;

verus! {

/// Error raised when assembling a collection of regions.
#[derive(Debug, PartialEq, Eq)]
pub enum GuestRegionCollectionError {
    /// No region was supplied.
    NoMemoryRegion,
    /// Two regions overlap in guest-physical space.
    MemoryRegionOverlap,
    /// The regions were not supplied in ascending base order.
    UnsortedMemoryRegions,
}

/// First guest-physical address of the region.
pub open spec fn spec_region_base(r: KvmRegion) -> int {
    r.spec_region().spec_base()
}

/// One past the last guest-physical address of the region.
pub open spec fn spec_region_end(r: KvmRegion) -> int {
    r.spec_region().spec_base() + r.spec_region().spec_size()
}

/// Whether guest-physical address `a` falls inside the region.
pub open spec fn spec_contains(r: KvmRegion, a: int) -> bool {
    spec_region_base(r) <= a < spec_region_end(r)
}

/// An ordered set of non-overlapping guest memory regions.
#[derive(Debug)]
pub struct GuestMemoryMmap {
    regions: Vec<KvmRegion>,
}

impl GuestMemoryMmap {
    /// The regions, in ascending guest-physical order.
    pub closed spec fn spec_regions(&self) -> Seq<KvmRegion> {
        self.regions@
    }

    /// Number of regions.
    pub open spec fn spec_len(&self) -> int {
        self.spec_regions().len() as int
    }

    /// Every region is well formed, and each region ends at or before
    /// the next one starts.
    pub open spec fn wf(&self) -> bool {
        &&& forall|i: int| 0 <= i < self.spec_len() ==> (#[trigger] self.spec_regions()[i]).wf()
        &&& forall|i: int|
            0 <= i < self.spec_len() - 1 ==> spec_region_end(#[trigger] self.spec_regions()[i])
                <= spec_region_base(self.spec_regions()[i + 1])
    }

    /// Whether some region covers guest-physical address `a`.
    pub open spec fn spec_covered(&self, a: int) -> bool {
        exists|j: int|
            0 <= j < self.spec_len() && #[trigger] spec_contains(self.spec_regions()[j], a)
    }

    /// An empty collection; regions are added through `from_regions`.
    pub fn new_empty() -> (r: GuestMemoryMmap)
        ensures
            r.wf(),
            r.spec_len() == 0,
    {
        GuestMemoryMmap { regions: Vec::new() }
    }

    /// Assembles a collection from regions sorted by base address.
    /// Fails with `NoMemoryRegion` when no region is given, with
    /// `UnsortedMemoryRegions` when a region starts before the one
    /// preceding it, and with `MemoryRegionOverlap` when consecutive
    /// regions overlap.
    pub fn from_regions(regions: Vec<KvmRegion>) -> (r: Result<
        GuestMemoryMmap,
        GuestRegionCollectionError,
    >)
        requires
            forall|i: int| 0 <= i < regions@.len() ==> (#[trigger] regions@[i]).wf(),
        ensures
            match r {
                Ok(m) => {
                    &&& m.spec_regions() == regions@
                    &&& m.wf()
                    &&& regions@.len() > 0
                },
                Err(e) => match e {
                    GuestRegionCollectionError::NoMemoryRegion => regions@.len() == 0,
                    GuestRegionCollectionError::UnsortedMemoryRegions => exists|i: int|
                        0 <= i < regions@.len() - 1 && spec_region_base(
                            #[trigger] regions@[i],
                        ) > spec_region_base(regions@[i + 1]),
                    GuestRegionCollectionError::MemoryRegionOverlap => exists|i: int|
                        0 <= i < regions@.len() - 1 && spec_region_end(
                            #[trigger] regions@[i],
                        ) > spec_region_base(regions@[i + 1]),
                },
            },
    {
        if regions.len() == 0 {
            return Err(GuestRegionCollectionError::NoMemoryRegion);
        }
        let n: usize = regions.len();
        let mut i: usize = 0;
        while i + 1 < n
            invariant
                n == regions@.len(),
                i < n,
                forall|k: int| 0 <= k < regions@.len() ==> (#[trigger] regions@[k]).wf(),
                forall|k: int|
                    0 <= k < i ==> spec_region_end(#[trigger] regions@[k]) <= spec_region_base(
                        regions@[k + 1],
                    ),
            decreases n - i,
        {
            let prev = &regions[i];
            let next = &regions[i + 1];
            if prev.region().start_addr() > next.region().start_addr() {
                return Err(GuestRegionCollectionError::UnsortedMemoryRegions);
            }
            if prev.region().last_addr() >= next.region().start_addr() {
                return Err(GuestRegionCollectionError::MemoryRegionOverlap);
            }
            i = i + 1;
        }
        Ok(GuestMemoryMmap { regions })
    }

    /// Takes the region at position `i` out of the collection.
    pub(crate) fn regions_remove(&mut self, i: usize) -> (r: KvmRegion)
        requires
            i < old(self).spec_len(),
        ensures
            r == old(self).spec_regions()[i as int],
            final(self).spec_regions() == old(self).spec_regions().remove(i as int),
    {
        self.regions.remove(i)
    }

    /// Puts a region back at position `i`.
    pub(crate) fn regions_insert(&mut self, i: usize, kr: KvmRegion)
        requires
            i <= old(self).spec_len(),
        ensures
            final(self).spec_regions() == old(self).spec_regions().insert(i as int, kr),
    {
        self.regions.insert(i, kr)
    }

    /// Number of regions.
    pub fn num_regions(&self) -> (r: usize)
        ensures
            r == self.spec_len(),
    {
        self.regions.len()
    }

    /// The region at position `index`.
    pub fn region_at(&self, index: usize) -> (r: &KvmRegion)
        requires
            index < self.spec_len(),
        ensures
            *r == self.spec_regions()[index as int],
    {
        &self.regions[index]
    }

    /// Position of the region covering guest-physical address `addr`,
    /// when one exists.
    pub fn find_region_index(&self, addr: u64) -> (r: Option<usize>)
        requires
            self.wf(),
        ensures
            match r {
                Some(i) => i < self.spec_len() && spec_contains(
                    self.spec_regions()[i as int],
                    addr as int,
                ),
                None => !self.spec_covered(addr as int),
            },
    {
        let n: usize = self.regions.len();
        let mut i: usize = 0;
        while i < n
            invariant
                self.wf(),
                n == self.spec_len(),
                i <= n,
                forall|k: int|
                    0 <= k < i ==> !spec_contains(#[trigger] self.spec_regions()[k], addr as int),
            decreases n - i,
        {
            let region = self.regions[i].region();
            if region.start_addr() <= addr && addr <= region.last_addr() {
                return Some(i);
            }
            i = i + 1;
        }
        None
    }

    /// Whether guest-physical address `addr` is covered by a region.
    pub fn address_in_range(&self, addr: u64) -> (r: bool)
        requires
            self.wf(),
        ensures
            r == self.spec_covered(addr as int),
    {
        self.find_region_index(addr).is_some()
    }

    /// Length of the longest prefix of `[addr, addr + len)` whose every
    /// address is covered by a region.
    pub fn covered_prefix(&self, addr: u64, len: usize) -> (w: usize)
        requires
            self.wf(),
        ensures
            w <= len,
            forall|k: int| 0 <= k < w ==> #[trigger] self.spec_covered(addr + k),
            w < len ==> !self.spec_covered(addr + w),
    {
        let mut w: usize = 0;
        loop
            invariant
                self.wf(),
                w <= len,
                forall|k: int| 0 <= k < w ==> #[trigger] self.spec_covered(addr + k),
            ensures
                w <= len,
                forall|k: int| 0 <= k < w ==> #[trigger] self.spec_covered(addr + k),
                w < len ==> !self.spec_covered(addr + w),
            decreases len - w,
        {
            if w == len {
                return w;
            }
            if addr > u64::MAX - (w as u64) {
                proof {
                    assert forall|j: int|
                        0 <= j < self.spec_len() implies !spec_contains(
                        self.spec_regions()[j],
                        addr + w,
                    ) by {
                        assert(self.spec_regions()[j].wf());
                    }
                }
                return w;
            }
            let a: u64 = addr + (w as u64);
            match self.find_region_index(a) {
                None => {
                    return w;
                },
                Some(i) => {
                    let region = self.regions[i].region();
                    let within: u64 = a - region.start_addr();
                    let room: u64 = region.len() - within;
                    let take: usize = if room < (len - w) as u64 {
                        room as usize
                    } else {
                        len - w
                    };
                    proof {
                        assert forall|k: int| 0 <= k < w + take implies #[trigger] self.spec_covered(
                            addr + k,
                        ) by {
                            if k >= w {
                                assert(spec_contains(self.spec_regions()[i as int], addr + k));
                            }
                        }
                    }
                    w = w + take;
                },
            }
        }
    }

    /// Writes `src` into guest memory starting at guest-physical
    /// address `addr`.  The longest covered prefix of the range is
    /// written, with the touched pages marked dirty; when the range
    /// runs into an uncovered address the bytes already written stay,
    /// and the error names the first address no region covers.
    #[verifier::rlimit(80)]
    pub fn write(&mut self, src: &[u8], addr: u64) -> (r: Result<usize, GuestMemoryError>)
        requires
            old(self).wf(),
            addr as int + src@.len() <= u64::MAX as int + 1,
        ensures
            final(self).wf(),
            final(self).spec_len() == old(self).spec_len(),
            ({
                let w = (match r {
                    Ok(n) => n as int,
                    Err(e) => match e {
                        GuestMemoryError::InvalidGuestAddress(a) => a - addr,
                        _ => 0,
                    },
                });
                &&& 0 <= w <= src@.len()
                &&& (forall|k: int| 0 <= k < w ==> #[trigger] old(self).spec_covered(addr + k))
                &&& forall|i: int|
                    0 <= i < old(self).spec_len() ==> spec_region_after_write(
                        old(self).spec_regions()[i],
                        #[trigger] final(self).spec_regions()[i],
                        addr as int,
                        src@,
                        w,
                    )
            }),
            match r {
                Ok(n) => n == src@.len(),
                Err(e) => match e {
                    GuestMemoryError::InvalidGuestAddress(a) => {
                        &&& addr <= a
                        &&& (a - addr < src@.len() || (src@.len() == 0 && a == addr))
                        &&& !old(self).spec_covered(a as int)
                    },
                    _ => false,
                },
            },
    {
        let w: usize = self.covered_prefix(addr, src.len());
        let n: usize = self.regions.len();
        let mut i: usize = 0;
        while i < n
            invariant
                self.wf(),
                n == self.spec_len(),
                self.spec_len() == old(self).spec_len(),
                i <= n,
                w <= src@.len(),
                addr as int + src@.len() <= u64::MAX as int + 1,
                forall|j: int|
                    0 <= j < i ==> spec_region_after_write(
                        old(self).spec_regions()[j],
                        #[trigger] self.spec_regions()[j],
                        addr as int,
                        src@,
                        w as int,
                    ),
                forall|j: int|
                    i <= j < n ==> #[trigger] self.spec_regions()[j] == old(self).spec_regions()[j],
            decreases n - i,
        {
            let base: u64 = self.regions[i].region().start_addr();
            let size: usize = self.regions[i].region().size();
            let (lo, hi): (usize, usize) = clamp_to_region(base, size, addr, w);
            if lo < hi {
                let src_start: usize = if addr >= base {
                    0
                } else {
                    (base - addr) as usize
                };
                let ghost before_regions = self.regions@;
                let mut kr: KvmRegion = self.regions.remove(i);
                kr.write_at(lo, src, src_start, hi - lo);
                self.regions.insert(i, kr);
                proof {
                    assert(self.regions@ =~= before_regions.update(
                        i as int,
                        self.regions@[i as int],
                    ));
                }
            } else {
                proof {
                    let r1 = old(self).spec_regions()[i as int];
                    assert(r1.spec_region().spec_bytes() =~= GuestRegionMmap::spec_written(
                        r1.spec_region().spec_bytes(),
                        lo as int,
                        src@,
                        spec_region_base(r1) + lo - addr,
                        hi - lo,
                    ));
                }
            }
            i = i + 1;
        }
        if w == src.len() {
            if src.len() == 0 {
                let covered = self.address_in_range(addr);
                proof {
                    assert forall|j: int| 0 <= j < self.spec_len() implies (spec_contains(
                        self.spec_regions()[j],
                        addr as int,
                    ) == spec_contains(old(self).spec_regions()[j], addr as int)) by {
                        assert(spec_region_after_write(
                            old(self).spec_regions()[j],
                            self.spec_regions()[j],
                            addr as int,
                            src@,
                            w as int,
                        ));
                    }
                    if self.spec_covered(addr as int) {
                        let j = choose|j: int|
                            0 <= j < self.spec_len() && spec_contains(
                                self.spec_regions()[j],
                                addr as int,
                            );
                        assert(spec_contains(old(self).spec_regions()[j], addr as int));
                    }
                    if old(self).spec_covered(addr as int) {
                        let j = choose|j: int|
                            0 <= j < self.spec_len() && spec_contains(
                                old(self).spec_regions()[j],
                                addr as int,
                            );
                        assert(spec_contains(self.spec_regions()[j], addr as int));
                    }
                }
                if covered {
                    Ok(0)
                } else {
                    Err(GuestMemoryError::InvalidGuestAddress(addr))
                }
            } else {
                Ok(w)
            }
        } else {
            Err(GuestMemoryError::InvalidGuestAddress(addr + (w as u64)))
        }
    }

    /// Copies `count` bytes out of guest memory starting at
    /// guest-physical address `addr`; fails with `InvalidGuestAddress`
    /// naming the first uncovered address when the range is not fully
    /// covered.
    pub fn read(&self, addr: u64, count: usize) -> (r: Result<Vec<u8>, GuestMemoryError>)
        requires
            self.wf(),
            addr as int + count <= u64::MAX as int + 1,
        ensures
            match r {
                Ok(v) => {
                    &&& v@.len() == count
                    &&& (forall|k: int| 0 <= k < count ==> #[trigger] self.spec_covered(addr + k))
                    &&& forall|j: int, k: int|
                        0 <= j < self.spec_len() && 0 <= k < count && #[trigger] spec_contains(
                            self.spec_regions()[j],
                            addr + k,
                        ) ==> v@[k] == self.spec_regions()[j].spec_region().spec_bytes()[addr + k
                            - spec_region_base(self.spec_regions()[j])]
                },
                Err(e) => match e {
                    GuestMemoryError::InvalidGuestAddress(a) => {
                        &&& addr <= a
                        &&& (a - addr < count || (count == 0 && a == addr))
                        &&& !self.spec_covered(a as int)
                        &&& forall|k: int| addr <= k < a ==> #[trigger] self.spec_covered(k)
                    },
                    _ => false,
                },
            },
    {
        let w: usize = self.covered_prefix(addr, count);
        if w < count {
            proof {
                assert forall|k: int| addr <= k < addr + w implies #[trigger] self.spec_covered(
                    k,
                ) by {
                    assert(self.spec_covered(addr + (k - addr)));
                }
            }
            return Err(GuestMemoryError::InvalidGuestAddress(addr + (w as u64)));
        }
        if count == 0 {
            if !self.address_in_range(addr) {
                return Err(GuestMemoryError::InvalidGuestAddress(addr));
            }
            let v: Vec<u8> = Vec::new();
            return Ok(v);
        }
        let mut v: Vec<u8> = Vec::new();
        let mut k: usize = 0;
        while k < count
            invariant
                self.wf(),
                k <= count,
                addr as int + count <= u64::MAX as int + 1,
                forall|q: int| 0 <= q < count ==> #[trigger] self.spec_covered(addr + q),
                v@.len() == k,
                forall|j: int, q: int|
                    0 <= j < self.spec_len() && 0 <= q < k && #[trigger] spec_contains(
                        self.spec_regions()[j],
                        addr + q,
                    ) ==> v@[q] == self.spec_regions()[j].spec_region().spec_bytes()[addr + q
                        - spec_region_base(self.spec_regions()[j])],
            decreases count - k,
        {
            let a: u64 = addr + (k as u64);
            match self.find_region_index(a) {
                Some(idx) => {
                    let region = self.regions[idx].region();
                    proof {
                        assert(a as int == addr + k);
                        assert(spec_contains(self.spec_regions()[idx as int], addr + k));
                    }
                    let start: u64 = region.start_addr();
                    let rsize: usize = region.size();
                    let off64: u64 = a - start;
                    proof {
                        assert(off64 < rsize);
                    }
                    let off: usize = off64 as usize;
                    v.push(region.byte_at(off));
                    proof {
                        assert(off as int == addr + k - spec_region_base(
                            self.spec_regions()[idx as int],
                        ));
                        assert forall|j: int, q: int|
                            0 <= j < self.spec_len() && 0 <= q < k + 1 && #[trigger] spec_contains(
                                self.spec_regions()[j],
                                addr + q,
                            ) implies v@[q] == self.spec_regions()[j].spec_region().spec_bytes()[
                            addr + q - spec_region_base(self.spec_regions()[j])] by {
                            if q == k {
                                lemma_region_unique(
                                    self.spec_regions(),
                                    j,
                                    idx as int,
                                    addr + q,
                                );
                            }
                        }
                    }
                },
                None => {
                    proof {
                        assert(self.spec_covered(addr + k));
                        assert(false);
                    }
                    return Err(GuestMemoryError::InvalidBackendAddress);
                },
            }
            k = k + 1;
        }
        Ok(v)
    }

    /// Copies out the `count` bytes at guest-physical address `addr`
    /// from the single region containing `addr`; fails with
    /// `InvalidGuestAddress` when no region contains `addr` and with
    /// `InvalidBackendAddress` when the range leaves that region.
    pub fn get_slice(&self, addr: u64, count: usize) -> (r: Result<Vec<u8>, GuestMemoryError>)
        requires
            self.wf(),
        ensures
            match r {
                Ok(v) => self.spec_covered(addr as int) && forall|j: int|
                    0 <= j < self.spec_len() && spec_contains(
                        #[trigger] self.spec_regions()[j],
                        addr as int,
                    ) ==> ({
                        let region = self.spec_regions()[j].spec_region();
                        let off = addr - spec_region_base(self.spec_regions()[j]);
                        &&& off + count <= region.spec_size()
                        &&& v@ == region.spec_bytes().subrange(off, off + count)
                    }),
                Err(e) => match e {
                    GuestMemoryError::InvalidGuestAddress(a) => a == addr && !self.spec_covered(
                        addr as int,
                    ),
                    GuestMemoryError::InvalidBackendAddress => exists|j: int|
                        0 <= j < self.spec_len() && spec_contains(
                            #[trigger] self.spec_regions()[j],
                            addr as int,
                        ) && addr + count > spec_region_end(self.spec_regions()[j]),
                },
            },
    {
        match self.find_region_index(addr) {
            None => Err(GuestMemoryError::InvalidGuestAddress(addr)),
            Some(idx) => {
                let region = self.regions[idx].region();
                proof {
                    assert(spec_contains(self.spec_regions()[idx as int], addr as int));
                }
                let start: u64 = region.start_addr();
                let rsize: usize = region.size();
                let off64: u64 = addr - start;
                proof {
                    assert(off64 < rsize);
                }
                let off: usize = off64 as usize;
                match region.get_slice(off, count) {
                    Ok(v) => {
                        proof {
                            assert forall|j: int|
                                0 <= j < self.spec_len() && spec_contains(
                                    self.spec_regions()[j],
                                    addr as int,
                                ) implies j == idx as int by {
                                lemma_region_unique(self.spec_regions(), j, idx as int, addr as int);
                            }
                        }
                        Ok(v)
                    },
                    Err(_) => Err(GuestMemoryError::InvalidBackendAddress),
                }
            },
        }
    }

    /// Marks the pages of every address in `[addr, addr + len)` dirty
    /// in each region the range touches, clamped to that region; gaps
    /// between regions do not cut the marking short, and bytes, bases,
    /// sizes and slots do not change.
    pub fn mark_dirty(&mut self, addr: u64, len: usize)
        requires
            old(self).wf(),
            addr as int + len <= u64::MAX as int + 1,
        ensures
            final(self).wf(),
            final(self).spec_len() == old(self).spec_len(),
            forall|i: int|
                0 <= i < old(self).spec_len() ==> spec_region_after_mark(
                    old(self).spec_regions()[i],
                    #[trigger] final(self).spec_regions()[i],
                    addr as int,
                    len as int,
                ),
    {
        let n: usize = self.regions.len();
        let mut i: usize = 0;
        while i < n
            invariant
                self.wf(),
                n == self.spec_len(),
                self.spec_len() == old(self).spec_len(),
                i <= n,
                addr as int + len <= u64::MAX as int + 1,
                forall|j: int|
                    0 <= j < i ==> spec_region_after_mark(
                        old(self).spec_regions()[j],
                        #[trigger] self.spec_regions()[j],
                        addr as int,
                        len as int,
                    ),
                forall|j: int|
                    i <= j < n ==> #[trigger] self.spec_regions()[j] == old(self).spec_regions()[j],
            decreases n - i,
        {
            let base: u64 = self.regions[i].region().start_addr();
            let size: usize = self.regions[i].region().size();
            let (lo, hi): (usize, usize) = clamp_to_region(base, size, addr, len);
            let ghost before_regions = self.regions@;
            let mut kr: KvmRegion = self.regions.remove(i);
            kr.mark_dirty(lo, hi - lo);
            self.regions.insert(i, kr);
            proof {
                assert(self.regions@ =~= before_regions.update(i as int, self.regions@[i as int]));
            }
            i = i + 1;
        }
    }
}



/// In a sorted, disjoint sequence of regions, an earlier region ends at
/// or before a later one starts.
pub proof fn lemma_region_pair_ordered(s: Seq<KvmRegion>, i: int, j: int)
    requires
        forall|k: int| 0 <= k < s.len() ==> (#[trigger] s[k]).wf(),
        forall|k: int|
            0 <= k < s.len() - 1 ==> spec_region_end(#[trigger] s[k]) <= spec_region_base(
                s[k + 1],
            ),
        0 <= i < j < s.len(),
    ensures
        spec_region_end(s[i]) <= spec_region_base(s[j]),
    decreases j - i,
{
    if i + 1 < j {
        lemma_region_pair_ordered(s, i + 1, j);
    }
}

/// No guest-physical address lies in two distinct regions of a sorted,
/// disjoint sequence.
pub proof fn lemma_region_unique(s: Seq<KvmRegion>, i: int, j: int, a: int)
    requires
        forall|k: int| 0 <= k < s.len() ==> (#[trigger] s[k]).wf(),
        forall|k: int|
            0 <= k < s.len() - 1 ==> spec_region_end(#[trigger] s[k]) <= spec_region_base(
                s[k + 1],
            ),
        0 <= i < s.len(),
        0 <= j < s.len(),
        spec_contains(s[i], a),
        spec_contains(s[j], a),
    ensures
        i == j,
{
    if i < j {
        lemma_region_pair_ordered(s, i, j);
    }
    if j < i {
        lemma_region_pair_ordered(s, j, i);
    }
}

/// Region `after` is region `before` once a write of `w` bytes of `src`
/// at guest-physical address `addr` has been applied: the overlap of
/// `[addr, addr + w)` with the region carries the matching bytes of
/// `src` and its pages are marked dirty; everything else is unchanged.
pub open spec fn spec_region_after_write(
    before: KvmRegion,
    after: KvmRegion,
    addr: int,
    src: Seq<u8>,
    w: int,
) -> bool {
    let base = spec_region_base(before);
    let size = before.spec_region().spec_size();
    let lo = crate::spec_clamp(addr - base, size);
    let hi = crate::spec_clamp(addr + w - base, size);
    &&& after.spec_slot() == before.spec_slot()
    &&& after.spec_flags() == before.spec_flags()
    &&& after.spec_guest_memfd() == before.spec_guest_memfd()
    &&& after.spec_region().spec_base() == base
    &&& after.spec_region().spec_size() == size
    &&& after.spec_region().spec_file_offset() == before.spec_region().spec_file_offset()
    &&& after.spec_region().spec_bytes() == GuestRegionMmap::spec_written(
        before.spec_region().spec_bytes(),
        lo,
        src,
        base + lo - addr,
        hi - lo,
    )
    &&& crate::region::spec_marked(
        before.spec_region().spec_dirty(),
        after.spec_region().spec_dirty(),
        lo,
        hi - lo,
    )
}

/// Region `after` is region `before` with the pages overlapping the
/// intersection of `[addr, addr + w)` and the region marked dirty; the
/// bytes and everything else are unchanged.
pub open spec fn spec_region_after_mark(
    before: KvmRegion,
    after: KvmRegion,
    addr: int,
    w: int,
) -> bool {
    let base = spec_region_base(before);
    let size = before.spec_region().spec_size();
    let lo = crate::spec_clamp(addr - base, size);
    let hi = crate::spec_clamp(addr + w - base, size);
    &&& after.spec_slot() == before.spec_slot()
    &&& after.spec_flags() == before.spec_flags()
    &&& after.spec_guest_memfd() == before.spec_guest_memfd()
    &&& after.spec_region().spec_base() == base
    &&& after.spec_region().spec_size() == size
    &&& after.spec_region().spec_file_offset() == before.spec_region().spec_file_offset()
    &&& after.spec_region().spec_bytes() == before.spec_region().spec_bytes()
    &&& crate::region::spec_marked(
        before.spec_region().spec_dirty(),
        after.spec_region().spec_dirty(),
        lo,
        hi - lo,
    )
}


/// Clamped bounds, as offsets into a region at `base` of `size` bytes,
/// of the intersection with `[addr, addr + w)`.
fn clamp_to_region(base: u64, size: usize, addr: u64, w: usize) -> (r: (usize, usize))
    requires
        base as int + size as int <= u64::MAX as int + 1,
    ensures
        r.0 == crate::spec_clamp(addr - base, size as int),
        r.1 == crate::spec_clamp(addr + w - base, size as int),
        r.0 <= r.1 <= size,
{
    let lo: usize = if addr <= base {
        0
    } else {
        let d: u64 = addr - base;
        if d >= size as u64 {
            size
        } else {
            d as usize
        }
    };
    let hi: usize = if addr >= base {
        let d: u64 = addr - base;
        let e: u64 = if d > u64::MAX - (w as u64) {
            u64::MAX
        } else {
            d + (w as u64)
        };
        if e >= size as u64 {
            size
        } else {
            e as usize
        }
    } else {
        let before: u64 = base - addr;
        if (w as u64) <= before {
            0
        } else {
            let e: u64 = (w as u64) - before;
            if e >= size as u64 {
                size
            } else {
                e as usize
            }
        }
    };
    (lo, hi)
}

/// In a well-formed collection the regions do not overlap: of any two
/// regions in order, the first ends at or before the second starts.
pub proof fn lemma_collection_regions_disjoint(m: GuestMemoryMmap, i: int, j: int)
    requires
        m.wf(),
        0 <= i < j < m.spec_len(),
    ensures
        spec_region_end(m.spec_regions()[i]) <= spec_region_base(m.spec_regions()[j]),
{
    lemma_region_pair_ordered(m.spec_regions(), i, j);
}

} // verus!
