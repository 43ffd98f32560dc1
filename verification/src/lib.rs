//! Guest-memory plane of a lightweight virtual-machine monitor.
//!
//! The crate models guest physical memory as an ordered collection of
//! regions, each carrying its bytes, an optional dirty bitmap and an
//! optional backing-file offset.  On top of that model it implements
//! region mapping, dirty-page tracking, full and incremental snapshot
//! dumps, restoration, bounce-buffered transfers, memory-slot
//! registration plans for the host virtualization interface, initrd
//! placement, and the page-state machine of a userspace fault handler.
//! The host-facing system calls themselves (mmap, ioctl, sockets) live
//! outside this crate; everything here is plain data and is verified.

use vstd::prelude::*;

pub mod bitmap;
pub mod bounce;
pub mod codec;
pub mod initrd;
pub mod mapper;
pub mod memory;
pub mod region;
pub mod snapshot;
pub mod uffd;
pub mod vm;

verus! {

use vstd::arithmetic::div_mod::lemma_div_plus_one;
use vstd::arithmetic::div_mod::lemma_fundamental_div_mod;
use vstd::arithmetic::div_mod::lemma_mod_division_less_than_divisor;
use vstd::arithmetic::mul::lemma_mul_inequality;

/// Size in bytes of one guest page.
pub const GUEST_PAGE_SIZE: usize = 4096;

/// Number of pages needed to cover `len` bytes: `ceil(len / page_size)`.
pub open spec fn spec_page_count(len: int, page_size: int) -> int
    recommends
        page_size > 0,
{
    (len + page_size - 1) / page_size
}

/// Number of pages needed to cover `len` bytes of guest memory.
pub fn page_count(len: usize) -> (r: usize)
    ensures
        r == spec_page_count(len as int, GUEST_PAGE_SIZE as int),
{
    if len == 0 {
        0
    } else {
        proof {
            lemma_div_plus_one(len - 1, GUEST_PAGE_SIZE as int);
        }
        (len - 1) / GUEST_PAGE_SIZE + 1
    }
}

/// Page `p` covers bytes `[p * GUEST_PAGE_SIZE, (p + 1) * GUEST_PAGE_SIZE)`;
/// this holds when that span intersects `[start, start + len)`.
pub open spec fn page_overlaps_range(p: int, start: int, len: int) -> bool {
    p * (GUEST_PAGE_SIZE as int) < start + len && start < (p + 1) * (GUEST_PAGE_SIZE as int)
}

/// For a positive divisor, comparing against a quotient is the same as
/// comparing the scaled value against the dividend.
pub proof fn lemma_mul_le_iff_div(p: int, q: int, d: int)
    requires
        d > 0,
    ensures
        (p <= q / d) <==> (p * d <= q),
{
    lemma_fundamental_div_mod(q, d);
    lemma_mod_division_less_than_divisor(q, d);
    if p <= q / d {
        lemma_mul_inequality(p, q / d, d);
        assert((q / d) * d == d * (q / d)) by (nonlinear_arith);
    }
    if p * d <= q && p > q / d {
        lemma_mul_inequality(q / d + 1, p, d);
        assert((q / d + 1) * d == d * (q / d) + d) by (nonlinear_arith);
    }
}

/// The page range walked when marking `[start, start + len)` dirty --
/// from `start / page_size` while `p * page_size` stays below the end --
/// is exactly the set of pages overlapping that byte range.
pub proof fn lemma_page_overlap_iff(p: int, start: int, len: int)
    ensures
        page_overlaps_range(p, start, len) <==> (start / (GUEST_PAGE_SIZE as int) <= p && p * (
        GUEST_PAGE_SIZE as int) < start + len),
{
    lemma_mul_le_iff_div(p + 1, start, GUEST_PAGE_SIZE as int);
}

/// `x` clamped into `[0, size]`.
pub open spec fn spec_clamp(x: int, size: int) -> int {
    if x < 0 {
        0
    } else if x > size {
        size
    } else {
        x
    }
}

} // verus!
