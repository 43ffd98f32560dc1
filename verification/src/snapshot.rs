//! Snapshot support: the persisted memory-state descriptor, full
//! memory dumps, and dirty-page bookkeeping across dumps.

use vstd::prelude::*;

use crate::GUEST_PAGE_SIZE;
use crate::memory::GuestMemoryMmap;
use crate::memory::spec_region_base;
use crate::region::GuestRegionMmap;
use crate::region::KvmRegion;

verus! {

/// State of one guest memory region as persisted across snapshots.
#[derive(Debug, Clone, PartialEq, Eq)]
pub struct GuestMemoryRegionState {
    /// Base guest-physical address of the region.
    pub base_address: u64,
    /// Region size in bytes.
    pub size: usize,
}

/// Describes guest memory regions and their snapshot file mappings: an
/// ordered list of base addresses and sizes.
#[derive(Debug, PartialEq, Eq)]
pub struct GuestMemoryState {
    /// List of regions.
    pub regions: Vec<GuestMemoryRegionState>,
}

impl Default for GuestMemoryState {
    /// A descriptor with no regions.
    fn default() -> (r: GuestMemoryState)
        ensures
            r.regions@.len() == 0,
    {
        GuestMemoryState { regions: Vec::new() }
    }
}

impl GuestMemoryState {
    /// The `(base, size)` pairs of the descriptor, in order, as
    /// understood by the region-creation functions.
    pub fn regions(&self) -> (r: Vec<(u64, usize)>)
        ensures
            r@.len() == self.regions@.len(),
            forall|i: int|
                0 <= i < r@.len() ==> #[trigger] r@[i] == (
                self.regions@[i].base_address,
                self.regions@[i].size,
                ),
    {
        let mut out: Vec<(u64, usize)> = Vec::new();
        let n: usize = self.regions.len();
        let mut i: usize = 0;
        while i < n
            invariant
                i <= n,
                n == self.regions@.len(),
                out@.len() == i,
                forall|k: int|
                    0 <= k < i ==> #[trigger] out@[k] == (
                    self.regions@[k].base_address,
                    self.regions@[k].size,
                    ),
            decreases n - i,
        {
            let entry = &self.regions[i];
            out.push((entry.base_address, entry.size));
            i = i + 1;
        }
        out
    }
}

/// Sum of the sizes of the first `n` regions: the offset of region `n`
/// in a dumped memory image.
pub open spec fn spec_size_prefix(s: Seq<KvmRegion>, n: int) -> int
    decreases n,
{
    if n <= 0 {
        0
    } else {
        spec_size_prefix(s, n - 1) + s[n - 1].spec_region().spec_size()
    }
}

/// Concatenation of the bytes of the first `n` regions.
pub open spec fn spec_dump_prefix(s: Seq<KvmRegion>, n: int) -> Seq<u8>
    decreases n,
{
    if n <= 0 {
        Seq::empty()
    } else {
        spec_dump_prefix(s, n - 1) + s[n - 1].spec_region().spec_bytes()
    }
}

/// The dumped image of the first `n` regions is as long as their sizes
/// add up to.
pub proof fn lemma_dump_prefix_len(s: Seq<KvmRegion>, n: int)
    ensures
        spec_dump_prefix(s, n).len() == if n <= 0 {
            0
        } else {
            spec_size_prefix(s, n)
        },
    decreases n,
{
    if n > 0 {
        lemma_dump_prefix_len(s, n - 1);
    }
}

impl GuestMemoryMmap {
    /// Describes the collection as a memory-state descriptor: one entry
    /// per region, in order, with its base address and size.
    pub fn describe(&self) -> (r: GuestMemoryState)
        requires
            self.wf(),
        ensures
            r.regions@.len() == self.spec_len(),
            forall|i: int|
                0 <= i < self.spec_len() ==> {
                    &&& (#[trigger] r.regions@[i]).base_address == spec_region_base(
                        self.spec_regions()[i],
                    )
                    &&& r.regions@[i].size == self.spec_regions()[i].spec_region().spec_size()
                },
    {
        let mut regions: Vec<GuestMemoryRegionState> = Vec::new();
        let n: usize = self.num_regions();
        let mut i: usize = 0;
        while i < n
            invariant
                self.wf(),
                i <= n,
                n == self.spec_len(),
                regions@.len() == i,
                forall|k: int|
                    0 <= k < i ==> {
                        &&& (#[trigger] regions@[k]).base_address == spec_region_base(
                            self.spec_regions()[k],
                        )
                        &&& regions@[k].size == self.spec_regions()[k].spec_region().spec_size()
                    },
            decreases n - i,
        {
            let region = self.region_at(i).region();
            regions.push(
                GuestMemoryRegionState { base_address: region.start_addr(), size: region.size() },
            );
            i = i + 1;
        }
        GuestMemoryState { regions }
    }

    /// Dumps all guest memory as the concatenation of the regions'
    /// bytes, in region order, with no gaps.
    pub fn dump(&self) -> (img: Vec<u8>)
        requires
            self.wf(),
        ensures
            img@ == spec_dump_prefix(self.spec_regions(), self.spec_len()),
    {
        let mut img: Vec<u8> = Vec::new();
        let n: usize = self.num_regions();
        let mut i: usize = 0;
        while i < n
            invariant
                self.wf(),
                i <= n,
                n == self.spec_len(),
                img@ == spec_dump_prefix(self.spec_regions(), i as int),
            decreases n - i,
        {
            let region = self.region_at(i).region();
            let mut chunk: Vec<u8> = match region.get_slice(0, region.size()) {
                Ok(v) => v,
                Err(_) => {
                    proof {
                        assert(false);
                    }
                    Vec::new()
                },
            };
            proof {
                assert(chunk@ =~= region.spec_bytes());
            }
            img.append(&mut chunk);
            i = i + 1;
        }
        img
    }

    /// Clears every region's dirty bitmap.
    pub fn reset_dirty(&mut self)
        requires
            old(self).wf(),
        ensures
            final(self).wf(),
            final(self).spec_len() == old(self).spec_len(),
            forall|i: int|
                0 <= i < old(self).spec_len() ==> spec_region_reset(
                    old(self).spec_regions()[i],
                    #[trigger] final(self).spec_regions()[i],
                ),
    {
        let n: usize = self.num_regions();
        let mut i: usize = 0;
        while i < n
            invariant
                self.wf(),
                i <= n,
                n == self.spec_len(),
                self.spec_len() == old(self).spec_len(),
                forall|j: int|
                    0 <= j < i ==> spec_region_reset(
                        old(self).spec_regions()[j],
                        #[trigger] self.spec_regions()[j],
                    ),
                forall|j: int|
                    i <= j < n ==> #[trigger] self.spec_regions()[j] == old(self).spec_regions()[j],
            decreases n - i,
        {
            let ghost before_regions = self.spec_regions();
            let mut kr: KvmRegion = self.regions_remove(i);
            kr.reset_dirty();
            self.regions_insert(i, kr);
            proof {
                assert(self.spec_regions() =~= before_regions.update(
                    i as int,
                    self.spec_regions()[i as int],
                ));
            }
            i = i + 1;
        }
    }
}

/// Region `after` is region `before` with its dirty bitmap cleared;
/// everything else is unchanged.
pub open spec fn spec_region_reset(before: KvmRegion, after: KvmRegion) -> bool {
    &&& after.spec_slot() == before.spec_slot()
    &&& after.spec_flags() == before.spec_flags()
    &&& after.spec_guest_memfd() == before.spec_guest_memfd()
    &&& after.spec_region().spec_base() == before.spec_region().spec_base()
    &&& after.spec_region().spec_size() == before.spec_region().spec_size()
    &&& after.spec_region().spec_file_offset() == before.spec_region().spec_file_offset()
    &&& after.spec_region().spec_bytes() == before.spec_region().spec_bytes()
    &&& match (before.spec_region().spec_dirty(), after.spec_region().spec_dirty()) {
        (Some(d1), Some(d2)) => d2.len() == d1.len() && forall|p: int| 0 <= p < d2.len() ==> !d2[p],
        (None, None) => true,
        _ => false,
    }
}


/// Whether bit `p` is set in a hypervisor-reported dirty bitmap laid
/// out as 64-bit words, one bit per page.
pub open spec fn spec_kvm_bit(words: Seq<u64>, p: int) -> bool {
    0 <= p && p / 64 < words.len() && crate::bitmap::word_bit(words[p / 64], (p % 64) as u64)
}

/// Page `p` of a region is dirty for an incremental dump when either
/// the hypervisor bitmap or the region's own bitmap reports it.
pub open spec fn spec_page_dirty(r: KvmRegion, words: Seq<u64>, p: int) -> bool {
    spec_kvm_bit(words, p) || match r.spec_region().spec_dirty() {
        Some(d) => 0 <= p < d.len() && d[p],
        None => false,
    }
}

/// Reads bit `p` of a hypervisor-reported dirty bitmap; bits past the
/// supplied words read as clean.
fn kvm_bit_at(words: &Vec<u64>, p: usize) -> (r: bool)
    ensures
        r == spec_kvm_bit(words@, p as int),
{
    let w: usize = p / 64;
    if w < words.len() {
        proof {
            vstd::arithmetic::div_mod::lemma_mod_division_less_than_divisor(p as int, 64);
        }
        (words[w] >> ((p % 64) as u64)) & 1u64 == 1u64
    } else {
        false
    }
}

/// The prefix sums of region sizes grow monotonically.
pub proof fn lemma_size_prefix_mono(s: Seq<KvmRegion>, i: int, j: int)
    requires
        forall|k: int| 0 <= k < s.len() ==> (#[trigger] s[k]).wf(),
        0 <= i <= j <= s.len(),
    ensures
        spec_size_prefix(s, i) <= spec_size_prefix(s, j),
    decreases j - i,
{
    if i < j {
        lemma_size_prefix_mono(s, i, j - 1);
        assert(s[j - 1].wf());
    }
}

/// Writes the dirty pages of one region into a memory image at
/// `offset`: a byte whose page is dirty takes the region's value, and
/// every other byte of the image keeps its old value.
fn dump_region_dirty(kr: &KvmRegion, words: &Vec<u64>, image: &mut Vec<u8>, offset: usize)
    requires
        kr.wf(),
        offset + kr.spec_region().spec_size() <= old(image)@.len(),
    ensures
        final(image)@.len() == old(image)@.len(),
        forall|pos: int|
            #![trigger final(image)@[pos]]
            0 <= pos < old(image)@.len() ==> final(image)@[pos] == if offset <= pos < offset
                + kr.spec_region().spec_size() && spec_page_dirty(
                *kr,
                words@,
                (pos - offset) / (GUEST_PAGE_SIZE as int),
            ) {
                kr.spec_region().spec_bytes()[pos - offset]
            } else {
                old(image)@[pos]
            },
{
    let size: usize = kr.region().size();
    let img_len: usize = image.len();
    let mut k: usize = 0;
    while k < size
        invariant
            kr.wf(),
            size == kr.spec_region().spec_size(),
            k <= size,
            offset + size <= image@.len(),
            img_len == image@.len(),
            image@.len() == old(image)@.len(),
            forall|pos: int|
                #![trigger image@[pos]]
                0 <= pos < image@.len() ==> image@[pos] == if offset <= pos < offset + k
                    && spec_page_dirty(
                    *kr,
                    words@,
                    (pos - offset) / (GUEST_PAGE_SIZE as int),
                ) {
                    kr.spec_region().spec_bytes()[pos - offset]
                } else {
                    old(image)@[pos]
                },
        decreases size - k,
    {
        let region = kr.region();
        let page: usize = k / GUEST_PAGE_SIZE;
        let dirty: bool = kvm_bit_at(words, page) || region.dirty_at(k);
        if dirty {
            image.set(offset + k, region.byte_at(k));
        }
        k = k + 1;
    }
}

impl GuestMemoryMmap {
    /// Folds a hypervisor-reported dirty bitmap, one word vector per
    /// slot, into the regions' own bitmaps: each region consults the
    /// entry at its slot index, a page becomes dirty when either side
    /// reported it, and nothing else changes.
    pub fn store_dirty_bitmap(&mut self, dirty_bitmap: &Vec<Vec<u64>>)
        requires
            old(self).wf(),
            forall|i: int|
                0 <= i < old(self).spec_len() ==> (#[trigger] old(
                    self,
                ).spec_regions()[i]).spec_slot() < dirty_bitmap@.len(),
        ensures
            final(self).wf(),
            final(self).spec_len() == old(self).spec_len(),
            forall|i: int|
                0 <= i < old(self).spec_len() ==> spec_region_stored(
                    old(self).spec_regions()[i],
                    #[trigger] final(self).spec_regions()[i],
                    dirty_bitmap@[old(self).spec_regions()[i].spec_slot() as int]@,
                ),
    {
        let n: usize = self.num_regions();
        let mut i: usize = 0;
        while i < n
            invariant
                self.wf(),
                i <= n,
                n == self.spec_len(),
                self.spec_len() == old(self).spec_len(),
                forall|k: int|
                    0 <= k < n ==> (#[trigger] old(self).spec_regions()[k]).spec_slot()
                        < dirty_bitmap@.len(),
                forall|j: int|
                    0 <= j < i ==> spec_region_stored(
                        old(self).spec_regions()[j],
                        #[trigger] self.spec_regions()[j],
                        dirty_bitmap@[old(self).spec_regions()[j].spec_slot() as int]@,
                    ),
                forall|j: int|
                    i <= j < n ==> #[trigger] self.spec_regions()[j] == old(self).spec_regions()[j],
            decreases n - i,
        {
            let ghost before_regions = self.spec_regions();
            let mut kr: KvmRegion = self.regions_remove(i);
            let ghost kr0 = kr;
            let slot: usize = kr.slot() as usize;
            let words = &dirty_bitmap[slot];
            let pages: usize = crate::page_count(kr.region().size());
            let size: usize = kr.region().size();
            let mut p: usize = 0;
            while p < pages
                invariant
                    kr.wf(),
                    p <= pages,
                    size == kr.spec_region().spec_size(),
                    size == kr0.spec_region().spec_size(),
                    pages == crate::spec_page_count(size as int, GUEST_PAGE_SIZE as int),
                    kr.spec_slot() == kr0.spec_slot(),
                    kr.spec_flags() == kr0.spec_flags(),
                    kr.spec_guest_memfd() == kr0.spec_guest_memfd(),
                    kr.spec_region().spec_base() == kr0.spec_region().spec_base(),
                    kr.spec_region().spec_bytes() == kr0.spec_region().spec_bytes(),
                    kr.spec_region().spec_file_offset() == kr0.spec_region().spec_file_offset(),
                    match (kr0.spec_region().spec_dirty(), kr.spec_region().spec_dirty()) {
                        (Some(d1), Some(d2)) => d2.len() == d1.len() && forall|q: int|
                            0 <= q < d2.len() ==> d2[q] == (d1[q] || (q < p && spec_kvm_bit(
                                words@,
                                q,
                            ))),
                        (None, None) => true,
                        _ => false,
                    },
                decreases pages - p,
            {
                if kvm_bit_at(words, p) {
                    proof {
                        crate::lemma_mul_le_iff_div(
                            p as int + 1,
                            size as int + GUEST_PAGE_SIZE - 1,
                            GUEST_PAGE_SIZE as int,
                        );
                    }
                    kr.mark_dirty(p * GUEST_PAGE_SIZE, 1);
                }
                p = p + 1;
            }
            self.regions_insert(i, kr);
            proof {
                assert(self.spec_regions() =~= before_regions.update(
                    i as int,
                    self.spec_regions()[i as int],
                ));
            }
            i = i + 1;
        }
    }

    /// Writes every page that the hypervisor bitmap (one word vector
    /// per slot) or a region's own bitmap reports dirty into `image`,
    /// each region at the offset given by the sizes of the regions
    /// before it; clean bytes of the image keep their old value.  No
    /// bitmap changes here: once the image is persisted the caller
    /// clears the monitor bitmaps with `reset_dirty`, or, when
    /// persisting failed, folds the hypervisor bitmap into them with
    /// `store_dirty_bitmap` so the next attempt still dumps these
    /// pages.
    pub fn dump_dirty(&self, image: &mut Vec<u8>, dirty_bitmap: &Vec<Vec<u64>>)
        requires
            self.wf(),
            old(image)@.len() == spec_size_prefix(self.spec_regions(), self.spec_len()),
            forall|i: int|
                0 <= i < self.spec_len() ==> (#[trigger] self.spec_regions()[i]).spec_slot()
                    < dirty_bitmap@.len(),
        ensures
            final(image)@.len() == old(image)@.len(),
            forall|i: int, pos: int|
                #![trigger spec_size_prefix(self.spec_regions(), i), final(image)@[pos]]
                0 <= i < self.spec_len() && spec_size_prefix(self.spec_regions(), i) <= pos
                    < spec_size_prefix(self.spec_regions(), i)
                    + self.spec_regions()[i].spec_region().spec_size() ==> final(image)@[pos]
                    == if spec_page_dirty(
                    self.spec_regions()[i],
                    dirty_bitmap@[self.spec_regions()[i].spec_slot() as int]@,
                    (pos - spec_size_prefix(self.spec_regions(), i)) / (GUEST_PAGE_SIZE as int),
                ) {
                    self.spec_regions()[i].spec_region().spec_bytes()[pos - spec_size_prefix(
                        self.spec_regions(),
                        i,
                    )]
                } else {
                    old(image)@[pos]
                },
    {
        let n: usize = self.num_regions();
        let img_len: usize = image.len();
        let mut offset: usize = 0;
        let mut i: usize = 0;
        while i < n
            invariant
                self.wf(),
                i <= n,
                n == self.spec_len(),
                forall|k: int|
                    0 <= k < n ==> (#[trigger] self.spec_regions()[k]).spec_slot()
                        < dirty_bitmap@.len(),
                offset == spec_size_prefix(self.spec_regions(), i as int),
                img_len == image@.len(),
                image@.len() == old(image)@.len(),
                old(image)@.len() == spec_size_prefix(self.spec_regions(), n as int),
                forall|j: int, pos: int|
                    #![trigger spec_size_prefix(self.spec_regions(), j), image@[pos]]
                    0 <= j < i && spec_size_prefix(self.spec_regions(), j) <= pos
                        < spec_size_prefix(self.spec_regions(), j)
                        + self.spec_regions()[j].spec_region().spec_size() ==> image@[pos] == if
                        spec_page_dirty(
                        self.spec_regions()[j],
                        dirty_bitmap@[self.spec_regions()[j].spec_slot() as int]@,
                        (pos - spec_size_prefix(self.spec_regions(), j)) / (
                        GUEST_PAGE_SIZE as int),
                    ) {
                        self.spec_regions()[j].spec_region().spec_bytes()[pos - spec_size_prefix(
                            self.spec_regions(),
                            j,
                        )]
                    } else {
                        old(image)@[pos]
                    },
                forall|pos: int|
                    #![trigger image@[pos]]
                    offset <= pos < image@.len() ==> image@[pos] == old(image)@[pos],
            decreases n - i,
        {
            proof {
                lemma_size_prefix_mono(self.spec_regions(), i as int, n as int);
                lemma_size_prefix_mono(self.spec_regions(), i + 1, n as int);
            }
            let ghost img_before = image@;
            let kr: &KvmRegion = self.region_at(i);
            let size: usize = kr.region().size();
            let slot: usize = kr.slot() as usize;
            dump_region_dirty(kr, &dirty_bitmap[slot], image, offset);
            proof {
                assert forall|j: int, pos: int|
                    #![trigger spec_size_prefix(self.spec_regions(), j), image@[pos]]
                    0 <= j < i + 1 && spec_size_prefix(self.spec_regions(), j) <= pos
                        < spec_size_prefix(self.spec_regions(), j)
                        + self.spec_regions()[j].spec_region().spec_size() implies image@[pos]
                    == (if spec_page_dirty(
                        self.spec_regions()[j],
                        dirty_bitmap@[self.spec_regions()[j].spec_slot() as int]@,
                        (pos - spec_size_prefix(self.spec_regions(), j)) / (
                        GUEST_PAGE_SIZE as int),
                    ) {
                        self.spec_regions()[j].spec_region().spec_bytes()[pos - spec_size_prefix(
                            self.spec_regions(),
                            j,
                        )]
                    } else {
                        old(image)@[pos]
                    }) by {
                    if j < i {
                        lemma_size_prefix_mono(self.spec_regions(), 0, j);
                        lemma_size_prefix_mono(self.spec_regions(), j + 1, i as int);
                        assert(spec_size_prefix(self.spec_regions(), j + 1) == spec_size_prefix(
                            self.spec_regions(),
                            j,
                        ) + self.spec_regions()[j].spec_region().spec_size());
                        assert(pos < offset);
                        assert(0 <= pos < img_before.len());
                        assert(image@[pos] == img_before[pos]);
                    } else {
                        assert(img_before[pos] == old(image)@[pos]);
                    }
                }
            }
            offset = offset + size;
            i = i + 1;
        }
    }
}

/// Region `after` is region `before` with the pages reported by the
/// hypervisor bitmap folded into its own bitmap; everything else is
/// unchanged.
pub open spec fn spec_region_stored(
    before: KvmRegion,
    after: KvmRegion,
    words: Seq<u64>,
) -> bool {
    &&& after.spec_slot() == before.spec_slot()
    &&& after.spec_flags() == before.spec_flags()
    &&& after.spec_guest_memfd() == before.spec_guest_memfd()
    &&& after.spec_region().spec_base() == before.spec_region().spec_base()
    &&& after.spec_region().spec_size() == before.spec_region().spec_size()
    &&& after.spec_region().spec_file_offset() == before.spec_region().spec_file_offset()
    &&& after.spec_region().spec_bytes() == before.spec_region().spec_bytes()
    &&& match (before.spec_region().spec_dirty(), after.spec_region().spec_dirty()) {
        (Some(d1), Some(d2)) => d2.len() == d1.len() && forall|p: int|
            0 <= p < d2.len() ==> d2[p] == (d1[p] || spec_kvm_bit(words, p)),
        (None, None) => true,
        _ => false,
    }
}


/// In a dumped image, byte `k` of region `i` sits at the region's
/// offset plus `k`.
pub proof fn lemma_dump_prefix_index(s: Seq<KvmRegion>, n: int, i: int, k: int)
    requires
        0 <= i < n <= s.len(),
        0 <= k < s[i].spec_region().spec_size(),
        forall|t: int| 0 <= t < s.len() ==> (#[trigger] s[t]).wf(),
    ensures
        spec_size_prefix(s, i) + k < spec_dump_prefix(s, n).len(),
        spec_dump_prefix(s, n)[spec_size_prefix(s, i) + k] == s[i].spec_region().spec_bytes()[k],
    decreases n,
{
    lemma_dump_prefix_len(s, n - 1);
    lemma_dump_prefix_len(s, n);
    lemma_size_prefix_mono(s, 0, i);
    if i == n - 1 {
    } else {
        lemma_dump_prefix_index(s, n - 1, i, k);
        lemma_size_prefix_mono(s, i + 1, n - 1);
        assert(s[i].wf());
    }
}

/// The sizes the descriptor records add up like the regions they came
/// from.
proof fn lemma_descriptor_sizes(reqs: Seq<(u64, usize)>, s: Seq<KvmRegion>, n: int)
    requires
        reqs.len() == s.len(),
        0 <= n <= s.len(),
        forall|t: int|
            0 <= t < s.len() ==> (#[trigger] reqs[t]).1 as int == s[t].spec_region().spec_size(),
    ensures
        crate::mapper::spec_req_sizes(reqs, n) == spec_size_prefix(s, n),
    decreases n,
{
    if n > 0 {
        lemma_descriptor_sizes(reqs, s, n - 1);
    }
}

/// Restoring guest memory from a full dump reproduces every region's
/// bytes: regions rebuilt from the dumped image at the offsets the
/// memory-state descriptor gives hold exactly the bytes the dumped
/// memory held, at the same guest bases, so every read agrees.
pub proof fn lemma_dump_restore_round_trip(
    m: GuestMemoryMmap,
    reqs: Seq<(u64, usize)>,
    restored: Seq<GuestRegionMmap>,
    track_dirty_pages: bool,
)
    requires
        m.wf(),
        reqs.len() == m.spec_len(),
        forall|i: int|
            0 <= i < m.spec_len() ==> (#[trigger] reqs[i]).0 as int == spec_region_base(
                m.spec_regions()[i],
            ) && reqs[i].1 as int == m.spec_regions()[i].spec_region().spec_size(),
        restored.len() == m.spec_len(),
        forall|i: int|
            0 <= i < restored.len() ==> crate::mapper::spec_created_region(
                #[trigger] restored[i],
                reqs[i],
                Some(spec_dump_prefix(m.spec_regions(), m.spec_len())),
                track_dirty_pages,
                crate::mapper::spec_req_sizes(reqs, i),
            ),
    ensures
        forall|i: int|
            0 <= i < m.spec_len() ==> {
                &&& (#[trigger] restored[i]).spec_base() == spec_region_base(m.spec_regions()[i])
                &&& restored[i].spec_bytes() == m.spec_regions()[i].spec_region().spec_bytes()
            },
{
    let s = m.spec_regions();
    let n = m.spec_len();
    let img = spec_dump_prefix(s, n);
    assert forall|i: int| 0 <= i < n implies {
        &&& (#[trigger] restored[i]).spec_base() == spec_region_base(s[i])
        &&& restored[i].spec_bytes() == s[i].spec_region().spec_bytes()
    } by {
        assert(crate::mapper::spec_created_region(
            restored[i],
            reqs[i],
            Some(img),
            track_dirty_pages,
            crate::mapper::spec_req_sizes(reqs, i),
        ));
        lemma_descriptor_sizes(reqs, s, i);
        let off = spec_size_prefix(s, i);
        assert forall|k: int|
            0 <= k < s[i].spec_region().spec_size()
                implies restored[i].spec_bytes()[k] == s[i].spec_region().spec_bytes()[k] by {
            lemma_dump_prefix_index(s, n, i, k);
        }
        assert(restored[i].spec_bytes() =~= s[i].spec_region().spec_bytes());
    }
}

} // verus!
