//! Region mapper: turns `(guest base, length)` requests into guest
//! memory regions backed by anonymous zero pages or by the bytes of a
//! backing file, with optional dirty tracking and cumulative file
//! offsets.

use vstd::prelude::*;

use crate::GUEST_PAGE_SIZE;
use crate::bitmap::DirtyBitmap;
use crate::region::GuestRegionMmap;
use crate::spec_page_count;

verus! {

/// Largest file offset the host mapping interface accepts.
pub const MAX_FILE_OFFSET: u64 = 0x7fff_ffff_ffff_ffff;

/// The `errno` the host mapping call raises for an unusable length.
pub const EINVAL: i32 = 22;

/// Hugepage setting for guest memory mappings.
#[derive(Debug, Clone, Copy, PartialEq, Eq, Structural)]
pub enum HugePageConfig {
    /// Ordinary pages.
    Disabled,
    /// 2 MiB hugetlbfs pages.
    Hugetlbfs2M,
    /// 1 GiB hugetlbfs pages.
    Hugetlbfs1G,
}

impl HugePageConfig {
    /// The hugepage size in bytes that region lengths must align to;
    /// 1 for ordinary pages.
    pub open spec fn spec_alignment(self) -> int {
        match self {
            HugePageConfig::Disabled => 1,
            HugePageConfig::Hugetlbfs2M => 0x20_0000,
            HugePageConfig::Hugetlbfs1G => 0x4000_0000,
        }
    }

    /// The flags this setting adds to the host mapping call: the
    /// hugetlb flag together with the encoded hugepage size.
    pub fn mmap_flags(&self) -> (r: i32)
        ensures
            r == match *self {
                HugePageConfig::Disabled => 0i32,
                HugePageConfig::Hugetlbfs2M => 0x5404_0000i32,
                HugePageConfig::Hugetlbfs1G => 0x7804_0000i32,
            },
    {
        match *self {
            HugePageConfig::Disabled => 0,
            HugePageConfig::Hugetlbfs2M => 0x5404_0000,
            HugePageConfig::Hugetlbfs1G => 0x7804_0000,
        }
    }

    /// Whether `size` is a whole number of pages of this setting.
    pub fn is_aligned(&self, size: usize) -> (r: bool)
        ensures
            r == (size as int % self.spec_alignment() == 0),
    {
        match *self {
            HugePageConfig::Disabled => true,
            HugePageConfig::Hugetlbfs2M => size % 0x20_0000 == 0,
            HugePageConfig::Hugetlbfs1G => size % 0x4000_0000 == 0,
        }
    }
}

/// Errors raised while building guest memory.
#[derive(Debug, PartialEq, Eq)]
pub enum MemoryError {
    /// The host page size could not be read.
    PageSize(i32),
    /// Guest memory could not be written out.
    WriteMemory(crate::region::GuestMemoryError),
    /// The raw mapping could not be built.
    MmapRegionError,
    /// The region could not be placed at its guest base.
    VmMemoryError,
    /// A private-memory file could not be created.
    Memfd,
    /// The private-memory file could not be resized.
    MemfdSetLen(i32),
    /// The accumulated file offset leaves the range the host mapping
    /// interface accepts.
    OffsetTooLarge,
    /// The host mapping call failed with the given `errno`.
    Mmap(i32),
    /// A guest-private memory file could not be created.
    GuestMemfd(i32),
    /// Page ranges could not be marked private.
    SetMemoryAttributes(i32),
}

/// Sum of the first `n` requested sizes.
pub open spec fn spec_req_sizes(regions: Seq<(u64, usize)>, n: int) -> int
    decreases n,
{
    if n <= 0 {
        0
    } else {
        spec_req_sizes(regions, n - 1) + regions[n - 1].1
    }
}

/// The bytes a file-backed region maps: the file's bytes from `off`,
/// extended with zeroes where the file ends short.
pub open spec fn spec_file_window(f: Seq<u8>, off: int, size: int) -> Seq<u8> {
    Seq::new(
        size as nat,
        |k: int|
            if off + k < f.len() {
                f[off + k]
            } else {
                0u8
            },
    )
}

/// Every request can be mapped: lengths are positive and hugepage
/// aligned, regions fit below the top of guest-physical space, and
/// every cumulative file offset stays within what the host mapping
/// interface accepts.
pub open spec fn spec_create_ok(
    regions: Seq<(u64, usize)>,
    offset: int,
    huge_pages: HugePageConfig,
) -> bool {
    forall|i: int|
        0 <= i < regions.len() ==> {
            &&& (#[trigger] regions[i]).1 > 0
            &&& regions[i].1 as int % huge_pages.spec_alignment() == 0
            &&& regions[i].0 + regions[i].1 <= u64::MAX as int + 1
            &&& offset + spec_req_sizes(regions, i + 1) < MAX_FILE_OFFSET as int
        }
}

/// The region built for request `i`: its guest base and length are as
/// requested, its bytes come from the file window at the cumulative
/// offset (or are zero for anonymous memory), and it carries a clean
/// bitmap of one bit per page exactly when dirty tracking is on.
pub open spec fn spec_created_region(
    region: GuestRegionMmap,
    req: (u64, usize),
    file: Option<Seq<u8>>,
    track_dirty_pages: bool,
    off: int,
) -> bool {
    &&& region.spec_base() == req.0
    &&& region.spec_size() == req.1
    &&& region.spec_bytes() == match file {
        Some(f) => spec_file_window(f, off, req.1 as int),
        None => Seq::new(req.1 as nat, |k: int| 0u8),
    }
    &&& match region.spec_dirty() {
        Some(d) => track_dirty_pages && d.len() == spec_page_count(
            req.1 as int,
            GUEST_PAGE_SIZE as int,
        ) && forall|p: int| 0 <= p < d.len() ==> !d[p],
        None => !track_dirty_pages,
    }
    &&& region.spec_file_offset() == match file {
        Some(f) => Some(off as u64),
        None => None::<u64>,
    }
}

/// Builds one region's bytes.
fn build_bytes(file: Option<&Vec<u8>>, off: u64, size: usize) -> (r: Vec<u8>)
    ensures
        r@ == match file {
            Some(f) => spec_file_window(f@, off as int, size as int),
            None => Seq::new(size as nat, |k: int| 0u8),
        },
{
    let mut bytes: Vec<u8> = Vec::new();
    match file {
        Some(f) => {
            let flen: usize = f.len();
            let mut k: usize = 0;
            while k < size
                invariant
                    k <= size,
                    flen == f@.len(),
                    bytes@.len() == k,
                    forall|q: int|
                        0 <= q < k ==> #[trigger] bytes@[q] == if off + q < f@.len() {
                            f@[off + q]
                        } else {
                            0u8
                        },
                decreases size - k,
            {
                let b: u8 = if (k as u64) <= u64::MAX - off && off + (k as u64) < flen as u64 {
                    f[(off + (k as u64)) as usize]
                } else {
                    0
                };
                bytes.push(b);
                k = k + 1;
            }
            proof {
                assert(bytes@ =~= spec_file_window(f@, off as int, size as int));
            }
        },
        None => {
            let mut k: usize = 0;
            while k < size
                invariant
                    k <= size,
                    bytes@.len() == k,
                    forall|q: int| 0 <= q < k ==> #[trigger] bytes@[q] == 0u8,
                decreases size - k,
            {
                bytes.push(0u8);
                k = k + 1;
            }
            proof {
                assert(bytes@ =~= Seq::new(size as nat, |k: int| 0u8));
            }
        },
    }
    bytes
}

/// Builds one region per request, in order.  A request of length zero
/// (or of a length no whole number of hugepages fills) fails the host
/// mapping call with `Mmap(EINVAL)`; a cumulative file offset at or
/// past `MAX_FILE_OFFSET` fails with `OffsetTooLarge`; a region
/// reaching past the top of guest-physical space fails with
/// `VmMemoryError`.  File-backed regions map consecutive file windows
/// starting at `offset`; anonymous regions map zeroes.
pub fn create(
    regions: &Vec<(u64, usize)>,
    huge_pages: HugePageConfig,
    file: Option<&Vec<u8>>,
    track_dirty_pages: bool,
    offset: u64,
) -> (r: Result<Vec<GuestRegionMmap>, MemoryError>)
    requires
        offset < MAX_FILE_OFFSET,
    ensures
        match r {
            Ok(v) => {
                &&& spec_create_ok(regions@, offset as int, huge_pages)
                &&& v@.len() == regions@.len()
                &&& forall|i: int|
                    0 <= i < v@.len() ==> spec_created_region(
                        #[trigger] v@[i],
                        regions@[i],
                        match file {
                            Some(f) => Some(f@),
                            None => None,
                        },
                        track_dirty_pages,
                        offset + spec_req_sizes(regions@, i),
                    )
                &&& forall|i: int| 0 <= i < v@.len() ==> (#[trigger] v@[i]).wf()
            },
            Err(e) => {
                &&& !spec_create_ok(regions@, offset as int, huge_pages)
                &&& match e {
                    MemoryError::Mmap(code) => code == EINVAL && exists|i: int|
                        0 <= i < regions@.len() && ((#[trigger] regions@[i]).1 == 0
                            || regions@[i].1 as int % huge_pages.spec_alignment() != 0),
                    MemoryError::OffsetTooLarge => exists|i: int|
                        0 <= i < regions@.len() && offset + #[trigger] spec_req_sizes(
                            regions@,
                            i + 1,
                        ) >= MAX_FILE_OFFSET as int,
                    MemoryError::VmMemoryError => exists|i: int|
                        0 <= i < regions@.len() && (#[trigger] regions@[i]).0 + regions@[i].1
                            > u64::MAX as int + 1,
                    _ => false,
                }
            },
        },
{
    let n: usize = regions.len();
    let mut out: Vec<GuestRegionMmap> = Vec::new();
    let mut cur: u64 = offset;
    let mut i: usize = 0;
    while i < n
        invariant
            i <= n,
            n == regions@.len(),
            offset < MAX_FILE_OFFSET,
            cur == offset + spec_req_sizes(regions@, i as int),
            cur < MAX_FILE_OFFSET,
            out@.len() == i,
            forall|j: int|
                0 <= j < i ==> {
                    &&& (#[trigger] regions@[j]).1 > 0
                    &&& regions@[j].1 as int % huge_pages.spec_alignment() == 0
                    &&& regions@[j].0 + regions@[j].1 <= u64::MAX as int + 1
                    &&& offset + spec_req_sizes(regions@, j + 1) < MAX_FILE_OFFSET as int
                },
            forall|j: int|
                0 <= j < i ==> spec_created_region(
                    #[trigger] out@[j],
                    regions@[j],
                    match file {
                        Some(f) => Some(f@),
                        None => None,
                    },
                    track_dirty_pages,
                    offset + spec_req_sizes(regions@, j),
                ),
            forall|j: int| 0 <= j < i ==> (#[trigger] out@[j]).wf(),
        decreases n - i,
    {
        let (start, size): (u64, usize) = regions[i];
        if size == 0 || !huge_pages.is_aligned(size) {
            return Err(MemoryError::Mmap(EINVAL));
        }
        if size as u64 >= MAX_FILE_OFFSET - cur {
            return Err(MemoryError::OffsetTooLarge);
        }
        let bytes: Vec<u8> = build_bytes(file, cur, size);
        let bitmap: Option<DirtyBitmap> = if track_dirty_pages {
            Some(DirtyBitmap::with_len(size))
        } else {
            None
        };
        let file_offset: Option<u64> = match file {
            Some(_) => Some(cur),
            None => None,
        };
        match GuestRegionMmap::new(bytes, start, bitmap, file_offset) {
            Ok(region) => {
                out.push(region);
            },
            Err(_) => {
                return Err(MemoryError::VmMemoryError);
            },
        }
        cur = cur + size as u64;
        i = i + 1;
    }
    Ok(out)
}

/// Creates file-backed, shared guest memory regions: windows of the
/// file from offset zero onward.
pub fn file_shared(
    file: &Vec<u8>,
    regions: &Vec<(u64, usize)>,
    track_dirty_pages: bool,
    huge_pages: HugePageConfig,
) -> (r: Result<Vec<GuestRegionMmap>, MemoryError>)
    ensures
        match r {
            Ok(v) => {
                &&& spec_create_ok(regions@, 0, huge_pages)
                &&& v@.len() == regions@.len()
                &&& forall|i: int|
                    0 <= i < v@.len() ==> spec_created_region(
                        #[trigger] v@[i],
                        regions@[i],
                        Some(file@),
                        track_dirty_pages,
                        spec_req_sizes(regions@, i),
                    )
                &&& forall|i: int| 0 <= i < v@.len() ==> (#[trigger] v@[i]).wf()
            },
            Err(_) => !spec_create_ok(regions@, 0, huge_pages),
        },
{
    create(regions, huge_pages, Some(file), track_dirty_pages, 0)
}

/// Creates anonymous guest memory regions, all zeroes.
pub fn anonymous(
    regions: &Vec<(u64, usize)>,
    track_dirty_pages: bool,
    huge_pages: HugePageConfig,
) -> (r: Result<Vec<GuestRegionMmap>, MemoryError>)
    ensures
        match r {
            Ok(v) => {
                &&& spec_create_ok(regions@, 0, huge_pages)
                &&& v@.len() == regions@.len()
                &&& forall|i: int|
                    0 <= i < v@.len() ==> spec_created_region(
                        #[trigger] v@[i],
                        regions@[i],
                        None,
                        track_dirty_pages,
                        spec_req_sizes(regions@, i),
                    )
                &&& forall|i: int| 0 <= i < v@.len() ==> (#[trigger] v@[i]).wf()
            },
            Err(_) => !spec_create_ok(regions@, 0, huge_pages),
        },
{
    create(regions, huge_pages, None, track_dirty_pages, 0)
}

/// Recreates private, file-backed guest memory regions from a dumped
/// image, starting at the given offset into it.
pub fn file_private(
    file: &Vec<u8>,
    regions: &Vec<(u64, usize)>,
    track_dirty_pages: bool,
    offset: u64,
) -> (r: Result<Vec<GuestRegionMmap>, MemoryError>)
    requires
        offset < MAX_FILE_OFFSET,
    ensures
        match r {
            Ok(v) => {
                &&& spec_create_ok(regions@, offset as int, HugePageConfig::Disabled)
                &&& v@.len() == regions@.len()
                &&& forall|i: int|
                    0 <= i < v@.len() ==> spec_created_region(
                        #[trigger] v@[i],
                        regions@[i],
                        Some(file@),
                        track_dirty_pages,
                        offset + spec_req_sizes(regions@, i),
                    )
                &&& forall|i: int| 0 <= i < v@.len() ==> (#[trigger] v@[i]).wf()
            },
            Err(_) => !spec_create_ok(regions@, offset as int, HugePageConfig::Disabled),
        },
{
    create(regions, HugePageConfig::Disabled, Some(file), track_dirty_pages, offset)
}


/// Regions built by the mapper from positive, page-multiple requests
/// all have a positive, page-multiple length.
pub proof fn lemma_created_regions_page_multiples(
    regions: Seq<(u64, usize)>,
    built: Seq<GuestRegionMmap>,
    file: Option<Seq<u8>>,
    track_dirty_pages: bool,
    offset: int,
    huge_pages: HugePageConfig,
)
    requires
        spec_create_ok(regions, offset, huge_pages),
        forall|i: int|
            0 <= i < regions.len() ==> (#[trigger] regions[i]).1 as int % (
            GUEST_PAGE_SIZE as int) == 0,
        built.len() == regions.len(),
        forall|i: int|
            0 <= i < built.len() ==> spec_created_region(
                #[trigger] built[i],
                regions[i],
                file,
                track_dirty_pages,
                offset + spec_req_sizes(regions, i),
            ),
    ensures
        forall|i: int|
            0 <= i < built.len() ==> (#[trigger] built[i]).spec_size() > 0 && built[
                i].spec_size() % (GUEST_PAGE_SIZE as int) == 0,
{
    assert forall|i: int|
        0 <= i < built.len() implies (#[trigger] built[i]).spec_size() > 0 && built[
        i].spec_size() % (GUEST_PAGE_SIZE as int) == 0 by {
        assert(spec_created_region(
            built[i],
            regions[i],
            file,
            track_dirty_pages,
            offset + spec_req_sizes(regions, i),
        ));
        assert(regions[i].1 > 0);
    }
}

} // verus!
