//! Dirty-page bitmap owned by the monitor: one bit per guest page,
//! packed into 64-bit words, with a page-granular view.

use vstd::prelude::*;

use crate::GUEST_PAGE_SIZE;
use crate::lemma_mul_le_iff_div;
use crate::lemma_page_overlap_iff;
use crate::page_overlaps_range;
use crate::spec_page_count;

verus! {

use vstd::arithmetic::div_mod::lemma_div_is_ordered;
use vstd::arithmetic::div_mod::lemma_div_plus_one;
use vstd::arithmetic::div_mod::lemma_div_pos_is_pos;
use vstd::arithmetic::div_mod::lemma_fundamental_div_mod;
use vstd::arithmetic::div_mod::lemma_mod_division_less_than_divisor;

/// True when bit `j` of word `w` is set.
pub open spec fn word_bit(w: u64, j: u64) -> bool
    recommends
        j < 64,
{
    (w >> j) & 1u64 == 1u64
}

proof fn lemma_set_bit(w: u64, b: u64, k: u64)
    requires
        b < 64,
        k < 64,
    ensures
        word_bit(w | (1u64 << b), k) == (word_bit(w, k) || k == b),
{
    assert((((w | (1u64 << b)) >> k) & 1u64 == 1u64) == ((((w >> k) & 1u64) == 1u64) || k == b))
        by (bit_vector)
        requires
            b < 64,
            k < 64,
    ;
}

proof fn lemma_zero_word(j: u64)
    requires
        j < 64,
    ensures
        !word_bit(0u64, j),
{
    assert((0u64 >> j) & 1u64 != 1u64) by (bit_vector);
}

/// A page index below `pages` selects a word index below
/// `ceil(pages / 64)`.
proof fn lemma_word_index(p: int, pages: int)
    requires
        0 <= p < pages,
    ensures
        0 <= p / 64 < spec_page_count(pages, 64),
{
    lemma_div_pos_is_pos(p, 64);
    lemma_div_is_ordered(p, pages - 1, 64);
    lemma_div_plus_one(pages - 1, 64);
}

/// Monitor-owned record of which guest pages were written since the
/// last reset.  Bit `p` of the view covers bytes
/// `[p * GUEST_PAGE_SIZE, (p + 1) * GUEST_PAGE_SIZE)` of the region the
/// bitmap belongs to.
#[derive(Debug)]
pub struct DirtyBitmap {
    words: Vec<u64>,
    pages: usize,
}

impl View for DirtyBitmap {
    type V = Seq<bool>;

    closed spec fn view(&self) -> Seq<bool> {
        Seq::new(self.pages as nat, |i: int| word_bit(self.words@[i / 64], (i % 64) as u64))
    }
}

impl DirtyBitmap {
    /// One word for each group of 64 pages, and a page count small
    /// enough that every page index scales to a byte offset.
    pub closed spec fn wf(&self) -> bool {
        &&& self.words@.len() == spec_page_count(self.pages as int, 64)
        &&& self.pages as int <= usize::MAX as int / (GUEST_PAGE_SIZE as int) + 1
    }

    /// Creates a bitmap covering `byte_size` bytes, all pages clean.
    pub fn with_len(byte_size: usize) -> (r: DirtyBitmap)
        ensures
            r.wf(),
            r@.len() == spec_page_count(byte_size as int, GUEST_PAGE_SIZE as int),
            forall|p: int| #![trigger r@[p]] 0 <= p < r@.len() ==> !r@[p],
    {
        let pages: usize = crate::page_count(byte_size);
        proof {
            lemma_div_is_ordered(
                byte_size as int + GUEST_PAGE_SIZE - 1,
                usize::MAX as int + GUEST_PAGE_SIZE - 1,
                GUEST_PAGE_SIZE as int,
            );
            lemma_div_plus_one(usize::MAX as int - 1, GUEST_PAGE_SIZE as int);
        }
        let nwords: usize = if pages == 0 {
            0
        } else {
            (pages - 1) / 64 + 1
        };
        proof {
            if pages > 0 {
                lemma_div_plus_one(pages as int - 1, 64);
            }
        }
        let mut words: Vec<u64> = Vec::new();
        let mut i: usize = 0;
        while i < nwords
            invariant
                i <= nwords,
                words@.len() == i,
                forall|k: int| 0 <= k < i ==> words@[k] == 0u64,
            decreases nwords - i,
        {
            words.push(0u64);
            i = i + 1;
        }
        let r = DirtyBitmap { words, pages };
        assert forall|p: int| 0 <= p < r@.len() implies !r@[p] by {
            lemma_word_index(p, pages as int);
            lemma_mod_division_less_than_divisor(p, 64);
            lemma_zero_word((p % 64) as u64);
        }
        r
    }

    /// Number of pages the bitmap covers.
    pub fn bit_count(&self) -> (r: usize)
        ensures
            r == self@.len(),
    {
        self.pages
    }

    /// Whether the page holding byte `byte_offset` is dirty; offsets
    /// past the covered range read as clean.
    pub fn dirty_at(&self, byte_offset: usize) -> (r: bool)
        requires
            self.wf(),
        ensures
            r == (byte_offset as int / (GUEST_PAGE_SIZE as int) < self@.len()
                && self@[byte_offset as int / (GUEST_PAGE_SIZE as int)]),
    {
        let page: usize = byte_offset / GUEST_PAGE_SIZE;
        if page < self.pages {
            proof {
                lemma_word_index(page as int, self.pages as int);
                lemma_mod_division_less_than_divisor(page as int, 64);
            }
            (self.words[page / 64] >> ((page % 64) as u64)) & 1u64 == 1u64
        } else {
            false
        }
    }

    /// Marks one page dirty; page indexes past the covered range are
    /// ignored.
    fn set_page(&mut self, page: usize)
        requires
            old(self).wf(),
        ensures
            final(self).wf(),
            final(self)@.len() == old(self)@.len(),
            forall|p: int| #![trigger final(self)@[p]]
                0 <= p < final(self)@.len() ==> final(self)@[p] == (old(self)@[p] || p == page),
    {
        if page < self.pages {
            proof {
                lemma_word_index(page as int, self.pages as int);
                lemma_mod_division_less_than_divisor(page as int, 64);
            }
            let w: usize = page / 64;
            let b: u64 = (page % 64) as u64;
            let updated: u64 = self.words[w] | (1u64 << b);
            self.words.set(w, updated);
            assert forall|p: int| 0 <= p < self@.len() implies self@[p] == (old(self)@[p] || p
                == page) by {
                lemma_mod_division_less_than_divisor(p, 64);
                if p / 64 == w as int {
                    lemma_set_bit(old(self).words@[w as int], b, (p % 64) as u64);
                    if p != page {
                        lemma_fundamental_div_mod(p, 64);
                        lemma_fundamental_div_mod(page as int, 64);
                    }
                }
            }
        }
    }

    /// Marks every page overlapping `[byte_offset, byte_offset + len)`
    /// dirty; all other pages keep their state.  With `len == 0` nothing
    /// changes.
    pub fn mark_dirty(&mut self, byte_offset: usize, len: usize)
        requires
            old(self).wf(),
        ensures
            final(self).wf(),
            final(self)@.len() == old(self)@.len(),
            forall|p: int| #![trigger final(self)@[p]]
                0 <= p < final(self)@.len() ==> final(self)@[p] == (old(self)@[p] || (len > 0
                    && page_overlaps_range(p, byte_offset as int, len as int))),
    {
        if len == 0 {
            return ;
        }
        let first: usize = byte_offset / GUEST_PAGE_SIZE;
        let saturated: bool = len - 1 > usize::MAX - byte_offset;
        let last_byte: usize = if saturated {
            usize::MAX
        } else {
            byte_offset + (len - 1)
        };
        let last: usize = last_byte / GUEST_PAGE_SIZE;
        proof {
            lemma_div_is_ordered(last_byte as int, usize::MAX as int, GUEST_PAGE_SIZE as int);
        }
        let mut page: usize = first;
        while page <= last
            invariant
                self.wf(),
                self@.len() == old(self)@.len(),
                first <= page <= last + 1,
                last < usize::MAX,
                forall|p: int|
                    0 <= p < self@.len() ==> self@[p] == (old(self)@[p] || (first <= p < page)),
            decreases last + 1 - page,
        {
            self.set_page(page);
            page = page + 1;
        }
        assert forall|p: int| 0 <= p < self@.len() implies self@[p] == (old(self)@[p] || (len > 0
            && page_overlaps_range(p, byte_offset as int, len as int))) by {
            lemma_page_overlap_iff(p, byte_offset as int, len as int);
            if saturated {
                lemma_mul_le_iff_div(p, usize::MAX as int, GUEST_PAGE_SIZE as int);
            } else {
                lemma_mul_le_iff_div(p, byte_offset + len - 1, GUEST_PAGE_SIZE as int);
            }
        }
    }

    /// Clears every page.
    pub fn reset(&mut self)
        requires
            old(self).wf(),
        ensures
            final(self).wf(),
            final(self)@.len() == old(self)@.len(),
            forall|p: int| #![trigger final(self)@[p]]
                0 <= p < final(self)@.len() ==> !final(self)@[p],
    {
        let n: usize = self.words.len();
        let mut i: usize = 0;
        while i < n
            invariant
                i <= n,
                n == self.words@.len(),
                self.pages == old(self).pages,
                self.wf(),
                forall|k: int| 0 <= k < i ==> self.words@[k] == 0u64,
            decreases n - i,
        {
            self.words.set(i, 0u64);
            i = i + 1;
        }
        assert forall|p: int| 0 <= p < self@.len() implies !self@[p] by {
            lemma_word_index(p, self.pages as int);
            lemma_mod_division_less_than_divisor(p, 64);
            lemma_zero_word((p % 64) as u64);
        }
    }
}

} // verus!
