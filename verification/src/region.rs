//! A guest memory region: a contiguous guest-physical range together
//! with the bytes of its host mapping, an optional dirty bitmap and an
//! optional backing-file offset, plus the slot-flavoured wrapper handed
//! to the host virtualization interface.

use vstd::prelude::*;

use crate::GUEST_PAGE_SIZE;
use crate::bitmap::DirtyBitmap;
use crate::page_overlaps_range;
use crate::spec_page_count;

verus! {

/// Region flag: the host interface logs dirty pages for this slot.
pub const KVM_MEM_LOG_DIRTY_PAGES: u32 = 1;

/// Region flag: the slot is backed by a guest-private memory file.
pub const KVM_MEM_GUEST_MEMFD: u32 = 4;

/// Error raised by region-level and collection-level accesses.
#[derive(Debug, PartialEq, Eq)]
pub enum GuestMemoryError {
    /// The guest-physical address is not covered by any region.
    InvalidGuestAddress(u64),
    /// The requested range leaves the region.
    InvalidBackendAddress,
}

/// A contiguous range of guest physical memory and its backing bytes.
#[derive(Debug)]
pub struct GuestRegionMmap {
    start: u64,
    bytes: Vec<u8>,
    bitmap: Option<DirtyBitmap>,
    file_offset: Option<u64>,
}

impl GuestRegionMmap {
    /// Guest physical address of the first byte.
    pub closed spec fn spec_base(&self) -> int {
        self.start as int
    }

    /// Length of the region in bytes.
    pub open spec fn spec_size(&self) -> int {
        self.spec_bytes().len() as int
    }

    /// The bytes of the host mapping.
    pub closed spec fn spec_bytes(&self) -> Seq<u8> {
        self.bytes@
    }

    /// The dirty bitmap, page-granular, when tracking is on.
    pub closed spec fn spec_dirty(&self) -> Option<Seq<bool>> {
        match self.bitmap {
            Some(ref b) => Some(b@),
            None => None,
        }
    }

    /// Offset into the backing file, when the region is file-backed.
    pub closed spec fn spec_file_offset(&self) -> Option<u64> {
        self.file_offset
    }

    /// Internal soundness of the attached bitmap.
    pub closed spec fn inv(&self) -> bool {
        match self.bitmap {
            Some(ref b) => b.wf(),
            None => true,
        }
    }

    /// A region is non-empty, fits in the guest-physical address space,
    /// and its bitmap, when present, has one bit per page.
    pub open spec fn wf(&self) -> bool {
        &&& self.spec_size() > 0
        &&& 0 <= self.spec_base()
        &&& self.spec_base() + self.spec_size() <= u64::MAX as int + 1
        &&& match self.spec_dirty() {
            Some(d) => d.len() == spec_page_count(self.spec_size(), GUEST_PAGE_SIZE as int),
            None => true,
        }
        &&& self.inv()
    }

    /// Builds a region from its parts; fails when the range is empty or
    /// would wrap around the top of the guest-physical address space.
    pub fn new(
        bytes: Vec<u8>,
        start: u64,
        bitmap: Option<DirtyBitmap>,
        file_offset: Option<u64>,
    ) -> (r: Result<GuestRegionMmap, GuestMemoryError>)
        requires
            match bitmap {
                Some(b) => b.wf() && b@.len() == spec_page_count(
                    bytes@.len() as int,
                    GUEST_PAGE_SIZE as int,
                ),
                None => true,
            },
        ensures
            match r {
                Ok(region) => {
                    &&& region.wf()
                    &&& region.spec_base() == start as int
                    &&& region.spec_bytes() == bytes@
                    &&& region.spec_dirty() == match bitmap {
                        Some(b) => Some(b@),
                        None => None::<Seq<bool>>,
                    }
                    &&& region.spec_file_offset() == file_offset
                },
                Err(e) => {
                    &&& e == GuestMemoryError::InvalidGuestAddress(start)
                    &&& (bytes@.len() == 0 || start as int + bytes@.len() as int > u64::MAX as int
                        + 1)
                },
            },
    {
        if bytes.len() == 0 {
            return Err(GuestMemoryError::InvalidGuestAddress(start));
        }
        let size_minus_one: u64 = (bytes.len() - 1) as u64;
        if start > u64::MAX - size_minus_one {
            return Err(GuestMemoryError::InvalidGuestAddress(start));
        }
        Ok(GuestRegionMmap { start, bytes, bitmap, file_offset })
    }

    /// Length of the region in bytes.
    pub fn len(&self) -> (r: u64)
        ensures
            r as int == self.spec_size(),
    {
        self.bytes.len() as u64
    }

    /// Length of the region as a byte count.
    pub fn size(&self) -> (r: usize)
        ensures
            r as int == self.spec_size(),
    {
        self.bytes.len()
    }

    /// Guest physical address of the first byte.
    pub fn start_addr(&self) -> (r: u64)
        ensures
            r as int == self.spec_base(),
    {
        self.start
    }

    /// Guest physical address of the last byte.
    pub fn last_addr(&self) -> (r: u64)
        requires
            self.wf(),
        ensures
            r as int == self.spec_base() + self.spec_size() - 1,
    {
        self.start + (self.bytes.len() - 1) as u64
    }

    /// Offset into the backing file, when the region is file-backed.
    pub fn file_offset(&self) -> (r: Option<u64>)
        ensures
            r == self.spec_file_offset(),
    {
        self.file_offset
    }

    /// Whether the region tracks dirty pages.
    pub fn has_bitmap(&self) -> (r: bool)
        ensures
            r == (self.spec_dirty() is Some),
    {
        self.bitmap.is_some()
    }

    /// Whether the page at byte offset `offset` is dirty; clean when no
    /// bitmap is attached or the offset is past the region.
    pub fn dirty_at(&self, offset: usize) -> (r: bool)
        requires
            self.wf(),
        ensures
            r == match self.spec_dirty() {
                Some(d) => offset as int / (GUEST_PAGE_SIZE as int) < d.len() && d[offset as int
                    / (GUEST_PAGE_SIZE as int)],
                None => false,
            },
    {
        match self.bitmap {
            Some(ref b) => b.dirty_at(offset),
            None => false,
        }
    }

    /// The byte at offset `offset`.
    pub fn byte_at(&self, offset: usize) -> (r: u8)
        requires
            offset < self.spec_size(),
        ensures
            r == self.spec_bytes()[offset as int],
    {
        self.bytes[offset]
    }

    /// Copies out `count` bytes starting at byte offset `offset`; fails
    /// when the range leaves the region.
    pub fn get_slice(&self, offset: usize, count: usize) -> (r: Result<
        Vec<u8>,
        GuestMemoryError,
    >)
        ensures
            match r {
                Ok(v) => {
                    &&& offset + count <= self.spec_size()
                    &&& v@ == self.spec_bytes().subrange(offset as int, offset + count)
                },
                Err(e) => {
                    &&& e == GuestMemoryError::InvalidBackendAddress
                    &&& offset + count > self.spec_size()
                },
            },
    {
        if count > self.bytes.len() || offset > self.bytes.len() - count {
            return Err(GuestMemoryError::InvalidBackendAddress);
        }
        let n: usize = self.bytes.len();
        let mut v: Vec<u8> = Vec::new();
        let mut i: usize = 0;
        while i < count
            invariant
                i <= count,
                offset + count <= n,
                n == self.bytes@.len(),
                v@.len() == i,
                forall|k: int| 0 <= k < i ==> v@[k] == self.bytes@[offset + k],
            decreases count - i,
        {
            v.push(self.bytes[offset + i]);
            i = i + 1;
        }
        assert(v@ =~= self.bytes@.subrange(offset as int, offset + count));
        Ok(v)
    }

    /// The bytes after writing `src[src_start .. src_start + count]` at
    /// byte offset `offset`.
    pub open spec fn spec_written(
        bytes: Seq<u8>,
        offset: int,
        src: Seq<u8>,
        src_start: int,
        count: int,
    ) -> Seq<u8> {
        bytes.map(
            |k: int, b: u8|
                if offset <= k < offset + count {
                    src[src_start + (k - offset)]
                } else {
                    b
                },
        )
    }

    /// Writes `count` bytes of `src`, starting at `src_start`, into the
    /// region at byte offset `offset`, and marks the touched pages
    /// dirty when a bitmap is attached.
    pub fn write_at(&mut self, offset: usize, src: &[u8], src_start: usize, count: usize)
        requires
            old(self).wf(),
            offset + count <= old(self).spec_size(),
            src_start + count <= src@.len(),
        ensures
            final(self).wf(),
            final(self).spec_base() == old(self).spec_base(),
            final(self).spec_size() == old(self).spec_size(),
            final(self).spec_file_offset() == old(self).spec_file_offset(),
            final(self).spec_bytes() == Self::spec_written(
                old(self).spec_bytes(),
                offset as int,
                src@,
                src_start as int,
                count as int,
            ),
            spec_marked(old(self).spec_dirty(), final(self).spec_dirty(), offset as int,
            count as int),
    {
        let region_len: usize = self.bytes.len();
        let src_len: usize = src.len();
        let mut i: usize = 0;
        while i < count
            invariant
                i <= count,
                self.wf(),
                offset + count <= region_len,
                region_len == self.spec_size(),
                src_start + count <= src_len,
                src_len == src@.len(),
                self.spec_base() == old(self).spec_base(),
                self.spec_size() == old(self).spec_size(),
                self.spec_file_offset() == old(self).spec_file_offset(),
                self.spec_dirty() == old(self).spec_dirty(),
                forall|k: int|
                    0 <= k < self.spec_size() ==> self.spec_bytes()[k] == if offset <= k < offset
                        + i {
                        src@[src_start + (k - offset)]
                    } else {
                        old(self).spec_bytes()[k]
                    },
            decreases count - i,
        {
            self.bytes.set(offset + i, src[src_start + i]);
            i = i + 1;
        }
        if count > 0 {
            let taken: Option<DirtyBitmap> = self.bitmap.take();
            match taken {
                Some(mut b) => {
                    b.mark_dirty(offset, count);
                    self.bitmap = Some(b);
                },
                None => {},
            }
        }
        assert(self.spec_bytes() =~= Self::spec_written(
            old(self).spec_bytes(),
            offset as int,
            src@,
            src_start as int,
            count as int,
        ));
    }

    /// Marks the pages overlapping `[offset, offset + len)` dirty when a
    /// bitmap is attached; the bytes do not change.
    pub fn mark_dirty(&mut self, offset: usize, len: usize)
        requires
            old(self).wf(),
        ensures
            final(self).wf(),
            final(self).spec_base() == old(self).spec_base(),
            final(self).spec_bytes() == old(self).spec_bytes(),
            final(self).spec_file_offset() == old(self).spec_file_offset(),
            spec_marked(old(self).spec_dirty(), final(self).spec_dirty(), offset as int,
            len as int),
    {
        let taken: Option<DirtyBitmap> = self.bitmap.take();
        match taken {
            Some(mut b) => {
                b.mark_dirty(offset, len);
                self.bitmap = Some(b);
            },
            None => {},
        }
    }

    /// Clears the dirty bitmap when one is attached; the bytes do not
    /// change.
    pub fn reset_dirty(&mut self)
        requires
            old(self).wf(),
        ensures
            final(self).wf(),
            final(self).spec_base() == old(self).spec_base(),
            final(self).spec_bytes() == old(self).spec_bytes(),
            final(self).spec_file_offset() == old(self).spec_file_offset(),
            match (old(self).spec_dirty(), final(self).spec_dirty()) {
                (Some(d1), Some(d2)) => d2.len() == d1.len() && forall|p: int|
                    0 <= p < d2.len() ==> !d2[p],
                (None, None) => true,
                _ => false,
            },
    {
        let taken: Option<DirtyBitmap> = self.bitmap.take();
        match taken {
            Some(mut b) => {
                b.reset();
                self.bitmap = Some(b);
            },
            None => {},
        }
    }
}

/// The dirty view `after` is `before` with every page overlapping
/// `[offset, offset + len)` set; absent bitmaps stay absent.
pub open spec fn spec_marked(
    before: Option<Seq<bool>>,
    after: Option<Seq<bool>>,
    offset: int,
    len: int,
) -> bool {
    match (before, after) {
        (Some(d1), Some(d2)) => {
            &&& d2.len() == d1.len()
            &&& forall|p: int|
                0 <= p < d2.len() ==> d2[p] == (d1[p] || (len > 0 && page_overlaps_range(
                    p,
                    offset,
                    len,
                )))
        },
        (None, None) => true,
        _ => false,
    }
}

/// A region paired with the slot index and flags under which it is
/// registered with the host virtualization interface.
#[derive(Debug)]
pub struct KvmRegion {
    slot: u32,
    flags: u32,
    guest_memfd: u32,
    guest_memfd_offset: u64,
    region: GuestRegionMmap,
}

impl KvmRegion {
    /// The wrapped region.
    pub closed spec fn spec_region(&self) -> GuestRegionMmap {
        self.region
    }

    /// Slot index under which the region is registered.
    pub closed spec fn spec_slot(&self) -> u32 {
        self.slot
    }

    /// Flags under which the region is registered.
    pub closed spec fn spec_flags(&self) -> u32 {
        self.flags
    }

    /// Descriptor of the private-memory binding: file and offset.
    pub closed spec fn spec_guest_memfd(&self) -> (u32, u64) {
        (self.guest_memfd, self.guest_memfd_offset)
    }

    pub open spec fn wf(&self) -> bool {
        self.spec_region().wf()
    }

    /// Wraps a mapped region for registration under `slot`: the
    /// dirty-logging flag is set exactly when the region carries a
    /// bitmap, and the private-memory flag exactly when a
    /// private-memory file is bound.
    pub fn from_mmap_region(region: GuestRegionMmap, slot: u32, guest_memfd: Option<(u32, u64)>)
        -> (r: KvmRegion)
        requires
            region.wf(),
        ensures
            r.wf(),
            r.spec_region() == region,
            r.spec_slot() == slot,
            r.spec_flags() == (if region.spec_dirty() is Some {
                KVM_MEM_LOG_DIRTY_PAGES
            } else {
                0u32
            }) | (if guest_memfd is Some {
                KVM_MEM_GUEST_MEMFD
            } else {
                0u32
            }),
            r.spec_guest_memfd() == match guest_memfd {
                Some(fo) => fo,
                None => (0u32, 0u64),
            },
    {
        let dirty_flag: u32 = if region.has_bitmap() {
            KVM_MEM_LOG_DIRTY_PAGES
        } else {
            0
        };
        let memfd_flag: u32 = if guest_memfd.is_some() {
            KVM_MEM_GUEST_MEMFD
        } else {
            0
        };
        let (guest_memfd_fd, guest_memfd_offset): (u32, u64) = match guest_memfd {
            Some(fo) => fo,
            None => (0u32, 0u64),
        };
        KvmRegion {
            slot,
            flags: dirty_flag | memfd_flag,
            guest_memfd: guest_memfd_fd,
            guest_memfd_offset,
            region,
        }
    }

    /// Slot index under which the region is registered.
    pub fn slot(&self) -> (r: u32)
        ensures
            r == self.spec_slot(),
    {
        self.slot
    }

    /// Flags under which the region is registered.
    pub fn flags(&self) -> (r: u32)
        ensures
            r == self.spec_flags(),
    {
        self.flags
    }

    /// Descriptor of the private-memory binding: file and offset.
    pub fn guest_memfd(&self) -> (r: (u32, u64))
        ensures
            r == self.spec_guest_memfd(),
    {
        (self.guest_memfd, self.guest_memfd_offset)
    }

    /// The wrapped region.
    pub fn region(&self) -> (r: &GuestRegionMmap)
        ensures
            *r == self.spec_region(),
    {
        &self.region
    }

    /// Copies out `count` bytes of the wrapped region starting at byte
    /// offset `offset`; fails when the range leaves the region.
    pub fn get_slice(&self, offset: usize, count: usize) -> (r: Result<
        Vec<u8>,
        GuestMemoryError,
    >)
        ensures
            match r {
                Ok(v) => {
                    &&& offset + count <= self.spec_region().spec_size()
                    &&& v@ == self.spec_region().spec_bytes().subrange(
                        offset as int,
                        offset + count,
                    )
                },
                Err(e) => {
                    &&& e == GuestMemoryError::InvalidBackendAddress
                    &&& offset + count > self.spec_region().spec_size()
                },
            },
    {
        self.region.get_slice(offset, count)
    }

    /// Writes into the wrapped region; slot, flags and the
    /// private-memory binding do not change.
    pub fn write_at(&mut self, offset: usize, src: &[u8], src_start: usize, count: usize)
        requires
            old(self).wf(),
            offset + count <= old(self).spec_region().spec_size(),
            src_start + count <= src@.len(),
        ensures
            final(self).wf(),
            final(self).spec_slot() == old(self).spec_slot(),
            final(self).spec_flags() == old(self).spec_flags(),
            final(self).spec_guest_memfd() == old(self).spec_guest_memfd(),
            final(self).spec_region().spec_base() == old(self).spec_region().spec_base(),
            final(self).spec_region().spec_size() == old(self).spec_region().spec_size(),
            final(self).spec_region().spec_file_offset() == old(
                self,
            ).spec_region().spec_file_offset(),
            final(self).spec_region().spec_bytes() == GuestRegionMmap::spec_written(
                old(self).spec_region().spec_bytes(),
                offset as int,
                src@,
                src_start as int,
                count as int,
            ),
            spec_marked(
                old(self).spec_region().spec_dirty(),
                final(self).spec_region().spec_dirty(),
                offset as int,
                count as int,
            ),
    {
        self.region.write_at(offset, src, src_start, count);
    }

    /// Marks pages of the wrapped region dirty; slot, flags and the
    /// private-memory binding do not change.
    pub fn mark_dirty(&mut self, offset: usize, len: usize)
        requires
            old(self).wf(),
        ensures
            final(self).wf(),
            final(self).spec_slot() == old(self).spec_slot(),
            final(self).spec_flags() == old(self).spec_flags(),
            final(self).spec_guest_memfd() == old(self).spec_guest_memfd(),
            final(self).spec_region().spec_base() == old(self).spec_region().spec_base(),
            final(self).spec_region().spec_bytes() == old(self).spec_region().spec_bytes(),
            final(self).spec_region().spec_file_offset() == old(
                self,
            ).spec_region().spec_file_offset(),
            spec_marked(
                old(self).spec_region().spec_dirty(),
                final(self).spec_region().spec_dirty(),
                offset as int,
                len as int,
            ),
    {
        self.region.mark_dirty(offset, len);
    }

    /// Clears the wrapped region's dirty bitmap; slot, flags and the
    /// private-memory binding do not change.
    pub fn reset_dirty(&mut self)
        requires
            old(self).wf(),
        ensures
            final(self).wf(),
            final(self).spec_slot() == old(self).spec_slot(),
            final(self).spec_flags() == old(self).spec_flags(),
            final(self).spec_guest_memfd() == old(self).spec_guest_memfd(),
            final(self).spec_region().spec_base() == old(self).spec_region().spec_base(),
            final(self).spec_region().spec_bytes() == old(self).spec_region().spec_bytes(),
            final(self).spec_region().spec_file_offset() == old(
                self,
            ).spec_region().spec_file_offset(),
            match (old(self).spec_region().spec_dirty(), final(self).spec_region().spec_dirty()) {
                (Some(d1), Some(d2)) => d2.len() == d1.len() && forall|p: int|
                    0 <= p < d2.len() ==> !d2[p],
                (None, None) => true,
                _ => false,
            },
    {
        self.region.reset_dirty();
    }
}


/// Every dirty bitmap attached to a region has exactly one bit per
/// page of the region: `ceil(length / page_size)` bits.
pub proof fn lemma_bitmap_one_bit_per_page(r: GuestRegionMmap)
    requires
        r.wf(),
        r.spec_dirty() is Some,
    ensures
        r.spec_dirty().unwrap().len() == spec_page_count(r.spec_size(), GUEST_PAGE_SIZE as int),
{
}

} // verus!
