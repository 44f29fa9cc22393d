//! The registry of memory regions that must appear in the address space:
//! sorted by start address, pairwise non-overlapping, never empty ranges.
use vstd::prelude::*;

use crate::address::{PhysicalAddress, VirtualAddress};
use crate::permission::Permission;

verus! {

/// A range of virtual addresses with the rights to map it with.
#[derive(Clone, Copy, Debug)]
pub struct Region {
    pub address: VirtualAddress,
    /// The physical address the region maps to; `None` maps it to itself.
    pub maps_to: Option<PhysicalAddress>,
    /// One past the last address.
    pub end: VirtualAddress,
    pub desc: &'static str,
    pub perms: Permission,
}

/// Whether `[a.start, a.end)` and `[b.start, b.end)` share an address.
pub open spec fn regions_overlap(a: Region, b: Region) -> bool {
    a.address.0 < b.end.0 && a.end.0 > b.address.0
}

/// Each region is non-empty and ends at or before the next one starts.
pub open spec fn sorted_disjoint(s: Seq<Region>) -> bool {
    &&& forall|i: int| 0 <= i < s.len() ==> #[trigger] s[i].address.0 < s[i].end.0
    &&& forall|i: int, j: int| 0 <= i < j < s.len() ==> #[trigger] s[i].end.0 <= #[trigger] s[j].address.0
}

/// The identity-mapped region `[start, end)`.
pub open spec fn region_for(start: u64, end: u64, desc: &'static str, perms: Permission) -> Region {
    Region { address: VirtualAddress(start), maps_to: None, end: VirtualAddress(end), desc, perms }
}

/// Whether `region` is non-empty and overlaps no region of `s`.
pub open spec fn admits(s: Seq<Region>, region: Region) -> bool {
    region.address.0 < region.end.0 && forall|i: int| 0 <= i < s.len() ==> !regions_overlap(#[trigger] s[i], region)
}

/// Where a region starting at `a` goes so that `s` stays sorted: every
/// region before it starts below `a`, none from it on does.
pub open spec fn is_insertion_point(s: Seq<Region>, a: u64, k: int) -> bool {
    &&& 0 <= k <= s.len()
    &&& forall|i: int| 0 <= i < k ==> #[trigger] s[i].address.0 < a
    &&& forall|i: int| k <= i < s.len() ==> #[trigger] s[i].address.0 >= a
}

/// The place where a region starting at `a` goes in the sorted `s`.
pub open spec fn insertion_point(s: Seq<Region>, a: u64) -> int {
    choose|k: int| is_insertion_point(s, a, k)
}

/// What adding `region` makes of `s`: `s` with the region in its place if
/// it is admitted, else `s` itself.
pub open spec fn add_spec(s: Seq<Region>, region: Region) -> Seq<Region> {
    if admits(s, region) {
        s.insert(insertion_point(s, region.address.0), region)
    } else {
        s
    }
}

impl Region {
    /// First address.
    pub fn start(&self) -> (r: VirtualAddress)
        ensures
            r == self.address,
    {
        self.address
    }

    /// One past the last address.
    pub fn end(&self) -> (r: VirtualAddress)
        ensures
            r == self.end,
    {
        self.end
    }

    /// Number of bytes in the region.
    pub fn len(&self) -> (r: VirtualAddress)
        requires
            self.address.0 <= self.end.0,
        ensures
            r.0 == self.end.0 - self.address.0,
    {
        VirtualAddress(self.end.0 - self.address.0)
    }

    /// Whether the two regions share an address.
    pub fn overlaps(&self, other: &Region) -> (r: bool)
        ensures
            r == regions_overlap(*self, *other),
    {
        self.address.0 < other.end.0 && self.end.0 > other.address.0
    }
}

/// The regions that the address space must hold.
pub struct MemoryRegions {
    regions: Vec<Region>,
}

impl View for MemoryRegions {
    type V = Seq<Region>;

    closed spec fn view(&self) -> Seq<Region> {
        self.regions@
    }
}

proof fn lemma_insertion_point(s: Seq<Region>, a: u64, k: int)
    requires
        is_insertion_point(s, a, k),
    ensures
        insertion_point(s, a) == k,
{
    let c = insertion_point(s, a);
    assert(is_insertion_point(s, a, c));
    if c < k {
        assert(s[c].address.0 < a);
    } else if c > k {
        assert(s[k].address.0 < a);
    }
}

proof fn lemma_insertion_point_exists(s: Seq<Region>, a: u64)
    requires
        sorted_disjoint(s),
    ensures
        exists|k: int| is_insertion_point(s, a, k),
    decreases s.len(),
{
    if s.len() == 0 {
        assert(is_insertion_point(s, a, 0));
    } else {
        let p = s.drop_last();
        assert(sorted_disjoint(p)) by {
            assert forall|i: int, j: int| 0 <= i < j < p.len() implies #[trigger] p[i].end.0 <= #[trigger] p[j].address.0 by {
                assert(s[i].end.0 <= s[j].address.0);
            }
        }
        lemma_insertion_point_exists(p, a);
        let k = choose|k: int| is_insertion_point(p, a, k);
        let last = s.len() - 1;
        if s[last].address.0 < a {
            assert forall|i: int| 0 <= i < s.len() implies #[trigger] s[i].address.0 < a by {
                if i < last {
                    assert(s[i].address.0 < s[i].end.0);
                    assert(s[i].end.0 <= s[last].address.0);
                }
            }
            assert(is_insertion_point(s, a, s.len() as int));
        } else {
            assert forall|i: int| 0 <= i < k implies #[trigger] s[i].address.0 < a by {
                assert(s[i] == p[i]);
            }
            assert forall|i: int| k <= i < s.len() implies #[trigger] s[i].address.0 >= a by {
                if i < last {
                    assert(s[i] == p[i]);
                }
            }
            assert(is_insertion_point(s, a, k));
        }
    }
}

/// Adding a region, admitted or not, keeps the regions sorted, non-empty
/// and pairwise disjoint.
pub proof fn lemma_add_keeps_order(s: Seq<Region>, region: Region)
    requires
        sorted_disjoint(s),
    ensures
        sorted_disjoint(add_spec(s, region)),
{
    if admits(s, region) {
        lemma_insertion_point_exists(s, region.address.0);
        let k = insertion_point(s, region.address.0);
        let t = s.insert(k, region);
        assert forall|i: int| 0 <= i < t.len() implies #[trigger] t[i].address.0 < t[i].end.0 by {
            if i < k {
                assert(t[i] == s[i]);
            } else if i > k {
                assert(t[i] == s[i - 1]);
            }
        }
        assert forall|i: int, j: int| 0 <= i < j < t.len() implies #[trigger] t[i].end.0 <= #[trigger] t[j].address.0 by {
            if j < k {
                assert(t[i] == s[i] && t[j] == s[j]);
            } else if i > k {
                assert(t[i] == s[i - 1] && t[j] == s[j - 1]);
            } else if i == k {
                assert(t[j] == s[j - 1]);
                assert(!regions_overlap(s[j - 1], region));
                assert(s[j - 1].address.0 >= region.address.0);
            } else {
                assert(t[i] == s[i]);
                assert(!regions_overlap(s[i], region));
                assert(s[i].address.0 < region.address.0);
                if j > k {
                    assert(t[j] == s[j - 1]);
                    assert(s[i].end.0 <= s[j - 1].address.0);
                }
            }
        }
    }
}

/// Whatever regions are added in turn to a sorted, disjoint set, the set
/// stays sorted by start address, non-empty and pairwise disjoint; a region
/// that is not admitted leaves it as it was.
pub proof fn lemma_add_all_keeps_order(s: Seq<Region>, candidates: Seq<Region>)
    requires
        sorted_disjoint(s),
    ensures
        sorted_disjoint(add_all(s, candidates)),
        forall|r: Region| !admits(s, r) ==> #[trigger] add_spec(s, r) == s,
    decreases candidates.len(),
{
    if candidates.len() > 0 {
        lemma_add_all_keeps_order(s, candidates.drop_last());
        lemma_add_keeps_order(add_all(s, candidates.drop_last()), candidates.last());
    }
}

/// After any successful `add` the regions are sorted by start address and
/// no two of them overlap.
pub proof fn lemma_regions_sorted_disjoint(m: &MemoryRegions)
    requires
        m.wf(),
    ensures
        forall|i: int, j: int| 0 <= i < j < m@.len() ==> #[trigger] m@[i].address.0 < #[trigger] m@[j].address.0,
        forall|i: int, j: int|
            0 <= i < m@.len() && 0 <= j < m@.len() && i != j ==> !regions_overlap(#[trigger] m@[i], #[trigger] m@[j]),
{
    assert forall|i: int, j: int| 0 <= i < j < m@.len() implies #[trigger] m@[i].address.0 < #[trigger] m@[j].address.0 by {
        assert(m@[i].address.0 < m@[i].end.0);
        assert(m@[i].end.0 <= m@[j].address.0);
    }
    assert forall|i: int, j: int|
        0 <= i < m@.len() && 0 <= j < m@.len() && i != j implies !regions_overlap(#[trigger] m@[i], #[trigger] m@[j]) by {
        if i < j {
            assert(m@[i].end.0 <= m@[j].address.0);
        } else {
            assert(m@[j].end.0 <= m@[i].address.0);
        }
    }
}

/// What adding each region of `candidates` in turn makes of `s`.
pub open spec fn add_all(s: Seq<Region>, candidates: Seq<Region>) -> Seq<Region>
    decreases candidates.len(),
{
    if candidates.len() == 0 {
        s
    } else {
        add_spec(add_all(s, candidates.drop_last()), candidates.last())
    }
}

/// Address ranges of the kernel image, as the linker placed them.
pub struct LinkerInfo {
    pub image: core::ops::Range<u64>,
    pub text: core::ops::Range<u64>,
    pub rodata: core::ops::Range<u64>,
    pub data: core::ops::Range<u64>,
    pub bss: core::ops::Range<u64>,
    pub tdata: core::ops::Range<u64>,
    pub tbss: core::ops::Range<u64>,
}

/// The register window of a device, with its name.
pub struct DeviceRange {
    pub name: &'static str,
    pub reg: core::ops::Range<u64>,
}

/// What the hardware description and the boot code tell about memory: the
/// devices, the firmware-reserved ranges, the stack guard page (inside the
/// kernel's bss) and the heap.
pub struct BootMemory {
    pub uart: DeviceRange,
    pub clint: DeviceRange,
    pub plic: DeviceRange,
    pub rtc: DeviceRange,
    pub reserved_memory: Vec<core::ops::Range<u64>>,
    pub stack_guard: core::ops::Range<u64>,
    pub heap: core::ops::Range<u64>,
}

/// The regions a kernel's address space starts with, in the order they are
/// added: the null page, the devices, the reserved ranges, the kernel's
/// sections around the stack guard, and the heap.
pub open spec fn initial_regions(hw: &BootMemory, image: &LinkerInfo) -> Seq<Region> {
    seq![
        region_for(0, 0x1_0000, "NULL", Permission { bits: 0 }),
        region_for(hw.uart.reg.start, hw.uart.reg.end, hw.uart.name, Permission { bits: 3 }),
        region_for(hw.clint.reg.start, hw.clint.reg.end, hw.clint.name, Permission { bits: 0 }),
        region_for(hw.plic.reg.start, hw.plic.reg.end, hw.plic.name, Permission { bits: 3 }),
        region_for(hw.rtc.reg.start, hw.rtc.reg.end, hw.rtc.name, Permission { bits: 3 }),
    ] + hw.reserved_memory@.map_values(|r: core::ops::Range<u64>| region_for(r.start, r.end, "Reserved", Permission { bits: 0 }))
        + seq![
        region_for(image.text.start, image.text.end, "Kernel text", Permission { bits: 5 }),
        region_for(image.rodata.start, image.rodata.end, "Kernel rodata", Permission { bits: 1 }),
        region_for(image.data.start, image.data.end, "Kernel data", Permission { bits: 3 }),
        region_for(image.bss.start, hw.stack_guard.start, "Kernel bss", Permission { bits: 3 }),
        region_for(hw.stack_guard.start, hw.stack_guard.end, "Stack guard", Permission { bits: 0 }),
        region_for(hw.stack_guard.end, image.bss.end, "Kernel stack", Permission { bits: 3 }),
        region_for(image.tdata.start, image.tdata.end, "Kernel thread template data", Permission { bits: 1 }),
        region_for(image.tbss.start, image.tbss.end, "Kernel thread template bss", Permission { bits: 1 }),
        region_for(hw.heap.start, hw.heap.end, "Kernel heap", Permission { bits: 3 }),
    ]
}

fn push_region(v: &mut Vec<Region>, start: u64, end: u64, desc: &'static str, perms: Permission)
    ensures
        final(v)@ == old(v)@.push(region_for(start, end, desc, perms)),
{
    v.push(Region { address: VirtualAddress(start), maps_to: None, end: VirtualAddress(end), desc, perms });
}

impl MemoryRegions {
    /// The regions are sorted, non-empty and pairwise disjoint.
    pub open spec fn wf(&self) -> bool {
        sorted_disjoint(self@)
    }

    /// An empty registry.
    pub fn new() -> (r: MemoryRegions)
        ensures
            r@ == Seq::<Region>::empty(),
            r.wf(),
    {
        MemoryRegions { regions: Vec::new() }
    }

    /// Number of regions.
    pub fn len(&self) -> (r: usize)
        ensures
            r == self@.len(),
    {
        self.regions.len()
    }

    /// The region at `index`, in address order.
    pub fn get(&self, index: usize) -> (r: Region)
        requires
            index < self@.len(),
        ensures
            r == self@[index as int],
    {
        self.regions[index]
    }

    /// Adds the regions every kernel address space starts with (see
    /// `initial_regions`), each as `add` does; those that overlap one added
    /// before are left out.
    pub fn add_inital_memory(&mut self, hwinfo: &BootMemory, image: &LinkerInfo)
        requires
            old(self).wf(),
            forall|i: int|
                0 <= i < initial_regions(hwinfo, image).len() ==> (#[trigger] initial_regions(hwinfo, image)[i]).address.0
                    <= initial_regions(hwinfo, image)[i].end.0,
        ensures
            final(self).wf(),
            final(self)@ == add_all(old(self)@, initial_regions(hwinfo, image)),
    {
        let mut c: Vec<Region> = Vec::new();
        push_region(&mut c, 0, 0x1_0000, "NULL", Permission::none());
        push_region(&mut c, hwinfo.uart.reg.start, hwinfo.uart.reg.end, hwinfo.uart.name, Permission::rw());
        push_region(&mut c, hwinfo.clint.reg.start, hwinfo.clint.reg.end, hwinfo.clint.name, Permission::none());
        push_region(&mut c, hwinfo.plic.reg.start, hwinfo.plic.reg.end, hwinfo.plic.name, Permission::rw());
        push_region(&mut c, hwinfo.rtc.reg.start, hwinfo.rtc.reg.end, hwinfo.rtc.name, Permission::rw());
        let ghost head = c@;
        let mut j: usize = 0;
        while j < hwinfo.reserved_memory.len()
            invariant
                j <= hwinfo.reserved_memory@.len(),
                c@ == head + hwinfo.reserved_memory@.take(j as int).map_values(
                    |r: core::ops::Range<u64>| region_for(r.start, r.end, "Reserved", Permission { bits: 0 }),
                ),
            decreases hwinfo.reserved_memory@.len() - j,
        {
            let r = &hwinfo.reserved_memory[j];
            push_region(&mut c, r.start, r.end, "Reserved", Permission::none());
            proof {
                assert(hwinfo.reserved_memory@.take(j + 1) == hwinfo.reserved_memory@.take(j as int).push(
                    hwinfo.reserved_memory@[j as int],
                ));
            }
            j = j + 1;
        }
        proof {
            assert(hwinfo.reserved_memory@.take(j as int) == hwinfo.reserved_memory@);
        }
        push_region(&mut c, image.text.start, image.text.end, "Kernel text", Permission::rx());
        push_region(&mut c, image.rodata.start, image.rodata.end, "Kernel rodata", Permission::r());
        push_region(&mut c, image.data.start, image.data.end, "Kernel data", Permission::rw());
        push_region(&mut c, image.bss.start, hwinfo.stack_guard.start, "Kernel bss", Permission::rw());
        push_region(&mut c, hwinfo.stack_guard.start, hwinfo.stack_guard.end, "Stack guard", Permission::none());
        push_region(&mut c, hwinfo.stack_guard.end, image.bss.end, "Kernel stack", Permission::rw());
        push_region(&mut c, image.tdata.start, image.tdata.end, "Kernel thread template data", Permission::r());
        push_region(&mut c, image.tbss.start, image.tbss.end, "Kernel thread template bss", Permission::r());
        push_region(&mut c, hwinfo.heap.start, hwinfo.heap.end, "Kernel heap", Permission::rw());
        proof {
            assert(c@ =~= initial_regions(hwinfo, image));
        }
        let mut i: usize = 0;
        while i < c.len()
            invariant
                self.wf(),
                c@ == initial_regions(hwinfo, image),
                i <= c@.len(),
                forall|k: int| 0 <= k < c@.len() ==> (#[trigger] c@[k]).address.0 <= c@[k].end.0,
                self@ == add_all(old(self)@, c@.take(i as int)),
            decreases c@.len() - i,
        {
            let region = c[i];
            self.add(region.address.0..region.end.0, region.desc, region.perms);
            proof {
                assert(c@.take(i + 1).drop_last() == c@.take(i as int));
                assert(region_for(region.address.0, region.end.0, region.desc, region.perms) == c@[i as int]);
            }
            i = i + 1;
        }
        proof {
            assert(c@.take(i as int) == c@);
        }
    }

    /// Adds the identity-mapped region `range` with `perms`. Returns false
    /// and changes nothing if the range is empty or overlaps a region already
    /// held; otherwise inserts it in address order and returns true.
    pub fn add(&mut self, range: core::ops::Range<u64>, desc: &'static str, perms: Permission) -> (r: bool)
        requires
            old(self).wf(),
            range.start <= range.end,
        ensures
            final(self).wf(),
            r == admits(old(self)@, region_for(range.start, range.end, desc, perms)),
            final(self)@ == add_spec(old(self)@, region_for(range.start, range.end, desc, perms)),
    {
        let region = Region {
            address: VirtualAddress(range.start),
            end: VirtualAddress(range.end),
            desc,
            perms,
            maps_to: None,
        };
        proof { reveal_region(region, range.start, range.end, desc, perms); }
        if range.start == range.end {
            return false;
        }
        let mut k: usize = 0;
        let mut i: usize = 0;
        while i < self.regions.len()
            invariant
                self.wf(),
                self@ == old(self)@,
                region == region_for(range.start, range.end, desc, perms),
                range.start < range.end,
                0 <= k <= i <= self@.len(),
                forall|j: int| 0 <= j < i ==> !regions_overlap(#[trigger] self@[j], region),
                forall|j: int| 0 <= j < k ==> #[trigger] self@[j].address.0 < range.start,
                forall|j: int| k <= j < i ==> #[trigger] self@[j].address.0 >= range.start,
            decreases self@.len() - i,
        {
            if self.regions[i].overlaps(&region) {
                proof {
                    assert(!admits(old(self)@, region));
                }
                return false;
            }
            if self.regions[i].address.0 < range.start {
                proof {
                    if k < i {
                        assert(self@[k as int].end.0 <= self@[i as int].address.0);
                    }
                }
                k = i + 1;
            }
            i = i + 1;
        }
        proof {
            assert(is_insertion_point(self@, range.start, k as int));
            lemma_insertion_point(self@, range.start, k as int);
        }
        self.regions.insert(k, region);
        proof {
            let s = self@;
            let o = old(self)@;
            assert forall|i: int, j: int| 0 <= i < j < s.len() implies #[trigger] s[i].end.0 <= #[trigger] s[j].address.0 by {
                if j < k {
                    assert(s[i] == o[i] && s[j] == o[j]);
                } else if i > k {
                    assert(s[i] == o[i - 1] && s[j] == o[j - 1]);
                } else if i == k {
                    assert(s[j] == o[j - 1]);
                    assert(!regions_overlap(o[j - 1], region));
                    assert(o[j - 1].address.0 >= range.start);
                } else {
                    assert(s[i] == o[i]);
                    assert(!regions_overlap(o[i], region));
                    assert(o[i].address.0 < range.start);
                    if j > k {
                        assert(s[j] == o[j - 1]);
                        assert(o[i].end.0 <= o[j - 1].address.0);
                    }
                }
            }
        }
        true
    }
}

proof fn reveal_region(region: Region, start: u64, end: u64, desc: &'static str, perms: Permission)
    requires
        region.address == VirtualAddress(start),
        region.end == VirtualAddress(end),
        region.desc == desc,
        region.perms == perms,
        region.maps_to.is_none(),
    ensures
        region == region_for(start, end, desc, perms),
{
}

} // verus!
