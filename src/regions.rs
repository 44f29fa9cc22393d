//! Kinds of memory and plain address ranges with the set difference the
//! layout code needs.
use vstd::prelude::*;

verus! {

/// What a range of memory holds, and so how it should be mapped.
#[derive(Clone, Copy, Debug, PartialEq, Eq, Structural)]
pub enum RegionKind {
    /// Nothing is known; stays unmapped.
    Unknown,
    /// Reserved by the firmware; stays unmapped.
    Reserved,
    /// Device registers; mapped read-write without caching.
    Mmio,
    /// Kernel code; mapped executable and read-only.
    Executable,
    /// Kernel read-only sections.
    Readonly,
    /// Writable kernel memory or free memory.
    Writable,
    /// Writable and executable memory.
    ExecutableWritable,
}

/// The addresses `start..end`, never empty.
#[derive(Clone, Copy, Debug, PartialEq, Eq, Structural)]
pub struct MemoryRange {
    pub start: u64,
    pub end: u64,
}

impl MemoryRange {
    /// The range `start..end`; `start` must be below `end`.
    pub fn new(start: u64, end: u64) -> (r: MemoryRange)
        requires
            start < end,
        ensures
            r.start == start,
            r.end == end,
    {
        MemoryRange { start, end }
    }

    /// What is left of `self` once `other` is taken out: the part below
    /// `other` and the part above it, each `None` when empty.
    pub fn subtract_overlap(&self, other: &MemoryRange) -> (r: (Option<MemoryRange>, Option<MemoryRange>))
        requires
            self.start < self.end,
        ensures
            r == (part_below(*self, *other), part_above(*self, *other)),
    {
        if other.start >= other.end {
            return (Some(*self), None);
        }
        let below = if self.start < other.start {
            Some(MemoryRange { start: self.start, end: if self.end < other.start { self.end } else { other.start } })
        } else {
            None
        };
        let above = if other.end < self.end {
            Some(MemoryRange { start: if self.start > other.end { self.start } else { other.end }, end: self.end })
        } else {
            None
        };
        (below, above)
    }
}

/// The addresses of `s` below `o`; all of `s` when `o` is empty.
pub open spec fn part_below(s: MemoryRange, o: MemoryRange) -> Option<MemoryRange> {
    if o.start >= o.end {
        Some(s)
    } else if s.start < o.start {
        Some(MemoryRange { start: s.start, end: if s.end < o.start { s.end } else { o.start } })
    } else {
        None
    }
}

/// The addresses of `s` above a non-empty `o`.
pub open spec fn part_above(s: MemoryRange, o: MemoryRange) -> Option<MemoryRange> {
    if o.start < o.end && o.end < s.end {
        Some(MemoryRange { start: if s.start > o.end { s.start } else { o.end }, end: s.end })
    } else {
        None
    }
}

/// Address `a` lies in `r`.
pub open spec fn contains(r: MemoryRange, a: int) -> bool {
    r.start <= a < r.end
}

/// The two parts are non-empty, and together hold exactly the addresses of
/// `s` that are not in `o`.
pub proof fn lemma_subtract_overlap(s: MemoryRange, o: MemoryRange, a: int)
    requires
        s.start < s.end,
    ensures
        part_below(s, o) is Some ==> part_below(s, o).unwrap().start < part_below(s, o).unwrap().end,
        part_above(s, o) is Some ==> part_above(s, o).unwrap().start < part_above(s, o).unwrap().end,
        (contains(s, a) && !contains(o, a)) <==> ((part_below(s, o) is Some && contains(part_below(s, o).unwrap(), a))
            || (part_above(s, o) is Some && contains(part_above(s, o).unwrap(), a))),
{
}

} // verus!
