//! Ranges of physical memory, and how the coalescer cuts one into the
//! fewest aligned pages.
use vstd::prelude::*;

use crate::address::PAGE_SIZE;
use crate::level::{largest_fit, BigPage, PageLevel};

verus! {

/// What a range of physical memory holds.
#[derive(Clone, Copy, Debug, PartialEq, Eq, Structural)]
pub enum PhysicalAddressKind {
    /// Nothing yet: free memory.
    Usable,
    /// Reserved by the firmware.
    Reserved,
    /// Memory-mapped device registers.
    Mmio,
    /// Executable RAM.
    Executable,
    /// Read-only RAM.
    ReadOnly,
    /// Read-write RAM.
    ReadWrite,
}

/// `addr` rounded up to a page boundary.
pub open spec fn page_end(addr: u64) -> int {
    if addr % PAGE_SIZE == 0 {
        addr as int
    } else {
        addr + PAGE_SIZE - addr % PAGE_SIZE
    }
}

/// Position of page `i` plus its size: where it ends.
pub open spec fn page_limit(pages: Seq<BigPage>, i: int) -> int {
    pages[i].spec_position() + pages[i].spec_size()
}

/// `pages` cuts `[start, end)` into consecutive pieces, each the largest
/// page that fits where it starts and within what remains.
pub open spec fn tiles(pages: Seq<BigPage>, start: int, end: int) -> bool {
    &&& (pages.len() == 0 <==> start == end)
    &&& pages.len() > 0 ==> pages[0].spec_position() == start
    &&& pages.len() > 0 ==> page_limit(pages, pages.len() - 1) == end
    &&& forall|i: int|
        0 <= i < pages.len() - 1 ==> #[trigger] pages[i + 1].spec_position() == page_limit(pages, i)
    &&& forall|i: int|
        0 <= i < pages.len() ==> #[trigger] pages[i] == BigPage::spec_new(
            largest_fit(pages[i].spec_position(), (end - pages[i].spec_position()) as u64),
            pages[i].spec_position(),
        )
    &&& forall|i: int|
        0 <= i < pages.len() ==> #[trigger] pages[i].spec_position() % pages[i].spec_size() == 0
            && start <= pages[i].spec_position() && page_limit(pages, i) <= end
}

/// Address `a` lies in page `i` of `pages`.
pub open spec fn in_page(pages: Seq<BigPage>, i: int, a: int) -> bool {
    pages[i].spec_position() <= a < page_limit(pages, i)
}

/// Address `a` lies in some page of `pages`.
pub open spec fn covered(pages: Seq<BigPage>, a: int) -> bool {
    exists|i: int| 0 <= i < pages.len() && #[trigger] in_page(pages, i, a)
}

proof fn lemma_tiles_ordered(pages: Seq<BigPage>, start: int, end: int, i: int, j: int)
    requires
        tiles(pages, start, end),
        0 <= i < j < pages.len(),
    ensures
        page_limit(pages, i) <= pages[j].spec_position(),
    decreases j - i,
{
    if j == i + 1 {
        assert(pages[i + 1].spec_position() == page_limit(pages, i));
    } else {
        lemma_tiles_ordered(pages, start, end, i, j - 1);
        let p = j - 1;
        assert(page_limit(pages, i) <= pages[p].spec_position());
        assert(pages[p].spec_size() > 0);
        assert(pages[p].spec_position() < page_limit(pages, p));
        assert(pages[p + 1].spec_position() == page_limit(pages, p));
        assert(page_limit(pages, i) <= pages[j].spec_position());
    }
}

proof fn lemma_tiles_cover_prefix(pages: Seq<BigPage>, start: int, end: int, k: int, a: int)
    requires
        tiles(pages, start, end),
        0 <= k < pages.len(),
        start <= a < page_limit(pages, k),
    ensures
        exists|i: int| 0 <= i <= k && #[trigger] in_page(pages, i, a),
    decreases k,
{
    if a >= pages[k].spec_position() {
        assert(in_page(pages, k, a));
    } else {
        let p = k - 1;
        assert(pages[p + 1].spec_position() == page_limit(pages, p));
        lemma_tiles_cover_prefix(pages, start, end, k - 1, a);
        let i = choose|i: int| 0 <= i <= k - 1 && #[trigger] in_page(pages, i, a);
        assert(0 <= i <= k && in_page(pages, i, a));
    }
}

/// Pages that tile `[start, end)` neither overlap nor leave a gap: each
/// ends at or before the next begins, every address of the range lies in
/// one of them, and each is aligned to its own size.
pub proof fn lemma_tiles_partition(pages: Seq<BigPage>, start: int, end: int)
    requires
        tiles(pages, start, end),
    ensures
        forall|i: int, j: int|
            0 <= i < j < pages.len() ==> #[trigger] page_limit(pages, i) <= #[trigger] pages[j].spec_position(),
        forall|a: int| start <= a < end ==> #[trigger] covered(pages, a),
        forall|i: int| 0 <= i < pages.len() ==> #[trigger] pages[i].spec_position() % pages[i].spec_size() == 0,
{
    assert forall|i: int, j: int|
        0 <= i < j < pages.len() implies #[trigger] page_limit(pages, i) <= #[trigger] pages[j].spec_position() by {
        lemma_tiles_ordered(pages, start, end, i, j);
    }
    assert forall|a: int| start <= a < end implies #[trigger] covered(pages, a) by {
        lemma_tiles_cover_prefix(pages, start, end, pages.len() - 1, a);
    }
}

/// A range of physical memory with what it holds.
#[derive(Clone, Copy, Debug)]
pub struct PhysicalAddressRange {
    pub kind: PhysicalAddressKind,
    pub description: &'static str,
    pub start: u64,
    pub end: u64,
}

impl PhysicalAddressRange {
    /// The range `range` holding `kind`.
    pub fn new(range: core::ops::Range<u64>, kind: PhysicalAddressKind, description: &'static str) -> (r: Self)
        ensures
            r.start == range.start,
            r.end == range.end,
            r.kind == kind,
            r.description == description,
    {
        PhysicalAddressRange { kind, start: range.start, end: range.end, description }
    }

    /// The range as `start..end`.
    pub fn as_range(&self) -> (r: core::ops::Range<u64>)
        ensures
            r.start == self.start,
            r.end == self.end,
    {
        self.start..self.end
    }

    /// The numbers of the 4 KiB pages at `start`, `start + 4096`, ... below
    /// `end`.
    pub fn page_numbers(&self) -> (r: Vec<u64>)
        ensures
            forall|k: int| 0 <= k < r@.len() ==> #[trigger] r@[k] == (self.start + k * PAGE_SIZE) / PAGE_SIZE as int,
            r@.len() > 0 ==> self.start + (r@.len() - 1) * PAGE_SIZE < self.end,
            self.start + r@.len() * PAGE_SIZE >= self.end,
    {
        let mut r: Vec<u64> = Vec::new();
        if self.start >= self.end {
            return r;
        }
        let mut current: u64 = self.start;
        loop
            invariant
                self.start <= current < self.end,
                current == self.start + r@.len() * PAGE_SIZE,
                forall|k: int| 0 <= k < r@.len() ==> #[trigger] r@[k] == (self.start + k * PAGE_SIZE) / PAGE_SIZE as int,
                r@.len() > 0 ==> self.start + (r@.len() - 1) * PAGE_SIZE < self.end,
            decreases self.end - current,
        {
            r.push(current / PAGE_SIZE);
            if self.end - current <= PAGE_SIZE {
                return r;
            }
            current = current + PAGE_SIZE;
        }
    }

    /// The pages that cut `[start, page_end(end))` into the fewest pieces:
    /// each is the largest page aligned to its own size that fits in what
    /// remains.
    #[verifier::spinoff_prover]
    #[verifier::rlimit(60)]
    pub fn big_pages(&self) -> (r: Vec<BigPage>)
        requires
            self.start % PAGE_SIZE == 0,
            self.start <= self.end,
            self.end <= u64::MAX - (PAGE_SIZE - 1),
        ensures
            tiles(r@, self.start as int, page_end(self.end)),
    {
        let end: u64 = if self.end % PAGE_SIZE == 0 {
            self.end
        } else {
            self.end + (PAGE_SIZE - self.end % PAGE_SIZE)
        };
        assert(end % PAGE_SIZE == 0);
        let mut r: Vec<BigPage> = Vec::new();
        let mut current: u64 = self.start;
        while current < end
            invariant
                end == page_end(self.end),
                end % PAGE_SIZE == 0,
                current % PAGE_SIZE == 0,
                self.start <= current <= end,
                r@.len() == 0 ==> current == self.start,
                r@.len() > 0 ==> r@[0].spec_position() == self.start,
                r@.len() > 0 ==> page_limit(r@, r@.len() - 1) == current,
                forall|i: int|
                    0 <= i < r@.len() - 1 ==> #[trigger] r@[i + 1].spec_position() == page_limit(r@, i),
                forall|i: int|
                    0 <= i < r@.len() ==> #[trigger] r@[i] == BigPage::spec_new(
                        largest_fit(r@[i].spec_position(), (end - r@[i].spec_position()) as u64),
                        r@[i].spec_position(),
                    ),
                forall|i: int|
                    0 <= i < r@.len() ==> #[trigger] r@[i].spec_position() % r@[i].spec_size() == 0
                        && self.start <= r@[i].spec_position() && page_limit(r@, i) <= current,
            decreases end - current,
        {
            let page = BigPage::page_for(current, end - current);
            assert(page.spec_size() % PAGE_SIZE == 0);
            r.push(page);
            current = current + page.size();
        }
        r
    }
}

} // verus!
