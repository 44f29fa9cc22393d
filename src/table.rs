//! Page-table nodes and the tree that the mapper walks and grows.
//!
//! The nodes live in an arena of consecutive 4 KiB frames starting at a
//! page-aligned physical base: node `k` sits at `base + k * 4096`, node 0 is
//! the root, and a non-leaf entry names its child by that address. Nodes are
//! never freed.
use vstd::prelude::*;

use crate::address::{
    level_span, physical_page_bits, vpn_index, PhysicalAddress, VirtualAddress, GIGA_PAGE_SIZE, PAGE_ENTRIES,
    PAGE_SIZE, PHYSICAL_ADDRESS_LIMIT, TERA_PAGE_SIZE, VIRTUAL_ADDRESS_LIMIT,
};
use crate::bits::bit_set;
use crate::entry::{lemma_encode, Entry, EntryFlags};
use crate::level::{BigPage, PageLevel};
use crate::memory_map::{MemoryRegions, Region};
use crate::permission::Permission;
use crate::range::{page_end, page_limit, tiles, PhysicalAddressKind, PhysicalAddressRange};

verus! {

/// Most nodes one tree may hold.
pub const MAX_TABLES: u64 = 0x1000;

/// One table: 512 entries, at a page-aligned physical address, at one level
/// of the hierarchy.
pub struct PageTable {
    level: PageLevel,
    address: u64,
    entries: Vec<Entry>,
}

impl PageTable {
    /// Level of the table in the hierarchy.
    pub closed spec fn spec_level(&self) -> PageLevel {
        self.level
    }

    /// Physical address of the frame that holds the table.
    pub closed spec fn spec_address(&self) -> u64 {
        self.address
    }

    /// The entries of the table.
    pub closed spec fn spec_entries(&self) -> Seq<Entry> {
        self.entries@
    }

    /// 512 entries in a page-aligned frame.
    pub open spec fn wf(&self) -> bool {
        &&& self.spec_entries().len() == PAGE_ENTRIES
        &&& self.spec_address() % PAGE_SIZE == 0
    }

    /// A table at `level` in the frame at `address`, every entry empty.
    pub fn allocate(level: PageLevel, address: u64) -> (r: PageTable)
        requires
            address % PAGE_SIZE == 0,
        ensures
            r.wf(),
            r.spec_level() == level,
            r.spec_address() == address,
            forall|i: int| 0 <= i < PAGE_ENTRIES ==> (#[trigger] r.spec_entries()[i]).0 == 0,
    {
        let mut entries: Vec<Entry> = Vec::with_capacity(PAGE_ENTRIES);
        let mut i: usize = 0;
        while i < PAGE_ENTRIES
            invariant
                i <= PAGE_ENTRIES,
                entries@.len() == i,
                forall|j: int| 0 <= j < i ==> (#[trigger] entries@[j]).0 == 0,
            decreases PAGE_ENTRIES - i,
        {
            entries.push(Entry::empty());
            i = i + 1;
        }
        PageTable { level, address, entries }
    }

    /// Whether no entry is valid.
    pub fn is_empty(&self) -> (r: bool)
        requires
            self.wf(),
        ensures
            r == forall|i: int| 0 <= i < PAGE_ENTRIES ==> !(#[trigger] self.spec_entries()[i]).spec_valid(),
    {
        let mut i: usize = 0;
        while i < PAGE_ENTRIES
            invariant
                self.wf(),
                i <= PAGE_ENTRIES,
                forall|j: int| 0 <= j < i ==> !(#[trigger] self.spec_entries()[j]).spec_valid(),
            decreases PAGE_ENTRIES - i,
        {
            if self.entries[i].valid() {
                return false;
            }
            i = i + 1;
        }
        true
    }

    /// Gives the table up if no entry is valid; otherwise hands it back.
    pub fn try_free(self) -> (r: Result<(), PageTable>)
        requires
            self.wf(),
        ensures
            r is Ok <==> forall|i: int| 0 <= i < PAGE_ENTRIES ==> !(#[trigger] self.spec_entries()[i]).spec_valid(),
            r matches Err(t) ==> t == self,
    {
        if self.is_empty() {
            Ok(())
        } else {
            Err(self)
        }
    }

    /// The physical address of the table.
    pub fn address(&self) -> (r: u64)
        ensures
            r == self.spec_address(),
    {
        self.address
    }

    /// The level of the table.
    pub fn level(&self) -> (r: PageLevel)
        ensures
            r == self.spec_level(),
    {
        self.level
    }

    /// The slot at `index`.
    pub fn entry(&self, index: usize) -> (r: PageTableRefEntry)
        requires
            self.wf(),
            index < PAGE_ENTRIES,
        ensures
            r.spec_index() == index,
            r.spec_entry() == self.spec_entries()[index as int],
    {
        PageTableRefEntry { entry: self.entries[index], index }
    }

    /// Write access to the slot at `index`.
    pub fn entry_mut(&mut self, index: usize) -> (r: PageTableMutEntry<'_>)
        requires
            old(self).wf(),
            index < PAGE_ENTRIES,
        ensures
            r.index == index,
            *r.table == *old(self),
            *final(self) == *final(r.table),
    {
        PageTableMutEntry { table: self, index }
    }
}

/// A copy of one slot of a table, with its index.
pub struct PageTableRefEntry {
    entry: Entry,
    index: usize,
}

impl PageTableRefEntry {
    /// The slot's entry.
    pub closed spec fn spec_entry(&self) -> Entry {
        self.entry
    }

    /// The slot's index in its table.
    pub closed spec fn spec_index(&self) -> usize {
        self.index
    }

    /// The flag bits of the slot.
    pub fn flags(&self) -> (r: EntryFlags)
        ensures
            r == self.spec_entry().spec_flags(),
    {
        self.entry.flags()
    }

    /// Whether the slot is valid.
    pub fn valid(&self) -> (r: bool)
        ensures
            r == self.spec_entry().spec_valid(),
    {
        self.entry.valid()
    }
}

/// Write access to one slot of a table.
pub struct PageTableMutEntry<'a> {
    pub table: &'a mut PageTable,
    pub index: usize,
}

impl<'a> PageTableMutEntry<'a> {
    /// The flag bits of the slot.
    pub fn flags(&self) -> (r: EntryFlags)
        requires
            self.table.wf(),
            self.index < PAGE_ENTRIES,
        ensures
            r == old(self.table).spec_entries()[self.index as int].spec_flags(),
    {
        self.table.entries[self.index].flags()
    }

    /// Whether the slot is valid.
    pub fn valid(&self) -> (r: bool)
        requires
            self.table.wf(),
            self.index < PAGE_ENTRIES,
        ensures
            r == old(self.table).spec_entries()[self.index as int].spec_valid(),
    {
        self.table.entries[self.index].valid()
    }
}

/// Why a mapping was refused.
#[derive(Clone, Copy, Debug, PartialEq, Eq, Structural)]
pub enum MapError {
    /// The slot for the page already holds a valid entry.
    AlreadyMapped,
    /// A larger page already covers the address.
    HugePageInTheWay,
    /// The arena has no frame left for another table.
    OutOfTables,
    /// No right at all, or write without read.
    InvalidPermission,
    /// The addresses are not aligned to the size of the page.
    Misaligned,
    /// The virtual address has bits above bit 47 set, or the physical one
    /// above bit 55.
    InvalidAddress,
}

/// The physical address that the first address of `region` maps to.
pub open spec fn region_phys_start(region: Region) -> u64 {
    match region.maps_to {
        Some(p) => p.0,
        None => region.address.0,
    }
}

/// The checks a region must pass before its pages are mapped: start not
/// above end, end at most 2^48, virtual and physical starts page-aligned,
/// and the physical range below 2^56.
pub open spec fn region_refused(region: Region) -> bool {
    ||| region.address.0 > region.end.0
    ||| region.end.0 > VIRTUAL_ADDRESS_LIMIT
    ||| region.address.0 % PAGE_SIZE != 0
    ||| region_phys_start(region) % PAGE_SIZE != 0
    ||| region_phys_start(region) >= PHYSICAL_ADDRESS_LIMIT
    ||| region.end.0 - region.address.0 > PHYSICAL_ADDRESS_LIMIT - region_phys_start(region)
}

/// One past the last physical address that `region` maps to.
pub open spec fn region_phys_end(region: Region) -> int {
    region_phys_start(region) + (region.end.0 - region.address.0)
}

/// `p` is one of the pages that cut the physical range of `region`
/// (rounded up to a page) into the fewest aligned pieces.
pub open spec fn region_page(region: Region, p: BigPage) -> bool {
    exists|pages: Seq<BigPage>, k: int|
        tiles(pages, region_phys_start(region) as int, page_end(region_phys_end(region) as u64)) && 0 <= k < pages.len()
            && #[trigger] pages[k] == p
}

/// Address `a` lies in `region` with its end rounded up to a page.
pub open spec fn in_rounded(region: Region, a: u64) -> bool {
    region.address.0 <= a < page_end(region.end.0)
}

/// The virtual address at which `region` maps its page `p`.
pub open spec fn region_virt(region: Region, p: BigPage) -> u64 {
    (region.address.0 + (p.spec_position() - region_phys_start(region))) as u64
}

/// A valid entry with none of R, W and X: it points at a child table.
pub open spec fn is_pointer(e: Entry) -> bool {
    e.spec_valid() && !e.spec_is_leaf()
}

/// Whether `perm` grants any right at all.
pub open spec fn has_rights(perm: Permission) -> bool {
    perm.spec_readable() || perm.spec_writable() || perm.spec_executable()
}

/// Whether `perm` can be put in a leaf: at least one right, and not write
/// without read.
pub open spec fn leaf_permission(perm: Permission) -> bool {
    has_rights(perm) && !(perm.spec_writable() && !perm.spec_readable())
}

/// The root of a page-table tree and the arena of its nodes.
pub struct PageTableRoot {
    base: u64,
    tables: Vec<PageTable>,
}

impl PageTableRoot {
    /// Physical address of the first frame of the arena; the root lives there.
    pub closed spec fn spec_base(&self) -> u64 {
        self.base
    }

    /// Number of nodes in the tree.
    pub closed spec fn node_count(&self) -> nat {
        self.tables@.len()
    }

    /// Level of node `n`.
    pub closed spec fn node_level(&self, n: int) -> PageLevel {
        self.tables@[n].spec_level()
    }

    /// Entry `i` of node `n`.
    pub closed spec fn slot(&self, n: int, i: int) -> Entry {
        self.tables@[n].spec_entries()[i]
    }

    /// The node that a non-leaf entry names.
    pub open spec fn child_of(&self, e: Entry) -> int {
        (e.spec_address().0 - self.spec_base()) / PAGE_SIZE as int
    }

    /// A valid entry with none of R, W and X names a node one level down.
    pub open spec fn pointer_ok(&self, n: int, e: Entry) -> bool {
        e.spec_valid() && !e.spec_is_leaf() ==> {
            &&& self.node_level(n).index() > 0
            &&& e.spec_address().0 >= self.spec_base()
            &&& e.spec_address().0 == self.spec_base() + self.child_of(e) * PAGE_SIZE
            &&& 0 < self.child_of(e) < self.node_count()
            &&& self.node_level(self.child_of(e)).index() + 1 == self.node_level(n).index()
        }
    }

    /// The arena fits below 2^56, the root is node 0 at level 3, node `n`
    /// sits at `base + n * 4096`, every pointer names a node one level down,
    /// and no node has two owners.
    pub closed spec fn wf(&self) -> bool {
        &&& 1 <= self.tables@.len() <= MAX_TABLES
        &&& self.base % PAGE_SIZE == 0
        &&& self.base + MAX_TABLES * PAGE_SIZE <= PHYSICAL_ADDRESS_LIMIT
        &&& self.tables@[0].spec_level() == PageLevel::Level3
        &&& forall|n: int|
            0 <= n < self.tables@.len() ==> (#[trigger] self.tables@[n]).wf()
                && self.tables@[n].spec_address() == self.base + n * PAGE_SIZE
        &&& forall|n: int, i: int|
            0 <= n < self.tables@.len() && 0 <= i < PAGE_ENTRIES ==> self.pointer_ok(n, #[trigger] self.slot(n, i))
        &&& self.unique_owners()
    }

    /// No two entries point at the same child table: each table below the
    /// root belongs to at most one entry.
    pub open spec fn unique_owners(&self) -> bool {
        forall|n: int, i: int, m: int, j: int|
            0 <= n < self.node_count() && 0 <= i < PAGE_ENTRIES && 0 <= m < self.node_count() && 0 <= j < PAGE_ENTRIES
                && is_pointer(#[trigger] self.slot(n, i)) && is_pointer(#[trigger] self.slot(m, j))
                && self.child_of(self.slot(n, i)) == self.child_of(self.slot(m, j)) ==> n == m && i == j
    }

    /// What translating `v` from node `n` finds: the leaf and its level, or
    /// `None` where an invalid entry stops the walk.
    pub open spec fn walk(&self, n: int, v: u64, fuel: nat) -> Option<(Entry, PageLevel)>
        decreases fuel,
    {
        let e = self.slot(n, vpn_index(v, self.node_level(n).index()) as int);
        if !e.spec_valid() {
            None
        } else if e.spec_is_leaf() {
            Some((e, self.node_level(n)))
        } else if fuel == 0 {
            None
        } else {
            self.walk(self.child_of(e), v, (fuel - 1) as nat)
        }
    }

    /// The leaf that translates `v`, and its level, walking from the root.
    pub open spec fn lookup(&self, v: u64) -> Option<(Entry, PageLevel)> {
        self.walk(0, v, 3)
    }

    /// Whether `v` lies in a page at `level` that maps to `phys` with `perm`.
    pub open spec fn maps(&self, v: u64, phys: u64, perm: Permission, level: PageLevel) -> bool {
        &&& self.lookup(v) is Some
        &&& self.lookup(v).unwrap().0.spec_address().0 == phys
        &&& self.lookup(v).unwrap().0.spec_permissions() == perm.permissions_spec()
        &&& self.lookup(v).unwrap().0.spec_valid()
        &&& self.lookup(v).unwrap().1 == level
    }

    /// Whether `a` translates to the physical address `phys` with `perm`.
    pub open spec fn translates(&self, a: u64, phys: int, perm: Permission) -> bool {
        &&& self.lookup(a) is Some
        &&& self.lookup(a).unwrap().0.spec_address().0 + a % self.lookup(a).unwrap().1.span() == phys
        &&& self.lookup(a).unwrap().0.spec_permissions() == perm.permissions_spec()
    }

    /// Whether `a` translates to `phys_base + (a - virt_base)` with `perm`.
    pub open spec fn translates_from(&self, a: u64, virt_base: u64, phys_base: u64, perm: Permission) -> bool {
        self.translates(a, phys_base + (a - virt_base), perm)
    }

    /// Whether every address of `region`, up to its end rounded up to a
    /// page, translates to where the region maps it, with its rights.
    pub open spec fn region_mapped(&self, region: Region) -> bool {
        forall|a: u64|
            region.address.0 <= a < page_end(region.end.0) ==> #[trigger] self.translates_from(
                a,
                region.address.0,
                region_phys_start(region),
                region.perms,
            )
    }

    /// Whether mapping `region` fails with `e` on this tree: it fails its
    /// checks, or one of its pages cannot be mapped here for reason `e`.
    pub open spec fn region_fails(&self, region: Region, e: MapError) -> bool {
        ||| region_refused(region)
        ||| exists|p: BigPage|
            #[trigger] region_page(region, p) && self.map_outcome(
                p.spec_position(),
                region_virt(region, p),
                region.perms,
                p.spec_level(),
            ) == Err::<(), MapError>(e)
    }

    /// Walking from node `n` towards a leaf for `v` at level `target`:
    /// the error that stops it, or the node and level from which on the
    /// slots are free.
    pub open spec fn probe(&self, n: int, v: u64, target: nat, fuel: nat) -> Result<(int, nat), MapError>
        decreases fuel,
    {
        let l = self.node_level(n).index();
        let e = self.slot(n, vpn_index(v, l) as int);
        if l <= target {
            if e.spec_valid() {
                Err(MapError::AlreadyMapped)
            } else {
                Ok((n, l))
            }
        } else if !e.spec_valid() {
            Ok((n, l))
        } else if e.spec_is_leaf() {
            Err(MapError::HugePageInTheWay)
        } else if fuel == 0 {
            Ok((n, l))
        } else {
            self.probe(self.child_of(e), v, target, (fuel - 1) as nat)
        }
    }

    /// What mapping `virt` to `phys` with `perm` at `level` gives.
    pub open spec fn map_outcome(&self, phys: u64, virt: u64, perm: Permission, level: PageLevel) -> Result<(), MapError> {
        if virt >= VIRTUAL_ADDRESS_LIMIT || phys >= PHYSICAL_ADDRESS_LIMIT {
            Err(MapError::InvalidAddress)
        } else if phys % level.span() != 0 || virt % level.span() != 0 {
            Err(MapError::Misaligned)
        } else if !leaf_permission(perm) {
            Err(MapError::InvalidPermission)
        } else {
            match self.probe(0, virt, level.index(), 3) {
                Err(e) => Err(e),
                Ok((_, l)) => if self.node_count() + (l - level.index()) > MAX_TABLES {
                    Err(MapError::OutOfTables)
                } else {
                    Ok(())
                },
            }
        }
    }

    /// `self` holds every node of `old` at the same level and every valid
    /// entry of `old` unchanged.
    pub open spec fn extends(&self, old: &PageTableRoot) -> bool {
        &&& self.spec_base() == old.spec_base()
        &&& old.node_count() <= self.node_count()
        &&& forall|n: int| 0 <= n < old.node_count() ==> #[trigger] self.node_level(n) == old.node_level(n)
        &&& forall|n: int, i: int|
            0 <= n < old.node_count() && 0 <= i < PAGE_ENTRIES && (#[trigger] old.slot(n, i)).spec_valid()
                ==> self.slot(n, i) == old.slot(n, i)
    }
}

proof fn lemma_aligned_page_bits(x: u64)
    requires
        x % PAGE_SIZE == 0,
        x < PHYSICAL_ADDRESS_LIMIT,
    ensures
        physical_page_bits(x) == x,
{
    assert(x % PHYSICAL_ADDRESS_LIMIT == x);
    vstd::arithmetic::div_mod::lemma_fundamental_div_mod(x as int, PAGE_SIZE as int);
}

proof fn lemma_child_index(base: u64, k: int)
    requires
        0 <= k,
    ensures
        ((base + k * PAGE_SIZE) - base) / PAGE_SIZE as int == k,
{
    vstd::arithmetic::div_mod::lemma_div_by_multiple(k, PAGE_SIZE as int);
}

/// The flags of a non-leaf entry: V alone.
fn pointer_flags() -> (r: EntryFlags)
    ensures
        forall|j: u64| j < 10 ==> #[trigger] bit_set(r.bits, j) == (j == 0),
{
    let r = EntryFlags::builder().valid(true).build();
    proof {
        assert forall|j: u64| j < 10 implies #[trigger] bit_set(r.bits, j) == (j == 0) by {
            lemma_encode(0, 0, j);
        }
    }
    r
}

/// The flags of a leaf with `perm`: V and the rights of `perm`.
fn leaf_flags(perm: Permission) -> (r: EntryFlags)
    requires
        leaf_permission(perm),
    ensures
        bit_set(r.bits, 0),
        r.spec_permissions() == perm.permissions_spec(),
        r.spec_is_leaf(),
{
    let b = EntryFlags::builder().valid(true);
    let b = b.with_permissions(perm);
    b.unwrap().build()
}

proof fn lemma_walk_blocks_probe(root: &PageTableRoot, n: int, v: u64, target: nat, fuel: nat)
    requires
        root.wf(),
        0 <= n < root.node_count(),
        fuel == root.node_level(n).index(),
        root.walk(n, v, fuel) is Some,
    ensures
        root.probe(n, v, target, fuel) is Err,
    decreases fuel,
{
    let i = vpn_index(v, root.node_level(n).index()) as int;
    let e = root.slot(n, i);
    assert(root.pointer_ok(n, e));
    if root.node_level(n).index() > target && !e.spec_is_leaf() && fuel > 0 {
        lemma_walk_blocks_probe(root, root.child_of(e), v, target, (fuel - 1) as nat);
    }
}

/// On a fresh tree, mapping a page-aligned physical address to a
/// page-aligned virtual address below 2^48 with a permission a leaf can carry succeeds; with
/// the `ensures` of `map_addr` the walk for the virtual address then ends
/// at a leaf holding the physical address and the permission.
pub proof fn lemma_map_on_fresh_root(root: &PageTableRoot, phys: PhysicalAddress, virt: VirtualAddress, perm: Permission)
    requires
        root.wf(),
        root.is_fresh(),
        virt.0 < VIRTUAL_ADDRESS_LIMIT,
        virt.0 % PAGE_SIZE == 0,
        phys.0 < PHYSICAL_ADDRESS_LIMIT,
        phys.0 % PAGE_SIZE == 0,
        leaf_permission(perm),
    ensures
        root.map_outcome(phys.0, virt.0, perm, PageLevel::Level0) == Ok::<(), MapError>(()),
{
    let i = vpn_index(virt.0, 3) as int;
    assert(!root.slot(0, i).spec_valid());
}

/// Once a virtual address is mapped, mapping it again fails, whatever the
/// physical address, permission and level asked for.
pub proof fn lemma_map_twice_fails(
    root: &PageTableRoot,
    virt: VirtualAddress,
    phys: PhysicalAddress,
    perm: Permission,
    level: PageLevel,
)
    requires
        root.wf(),
        root.lookup(virt.0) is Some,
    ensures
        root.map_outcome(phys.0, virt.0, perm, level) is Err,
{
    lemma_walk_blocks_probe(root, 0, virt.0, level.index(), 3);
}

/// A walk that reaches a leaf in `old` reaches the same leaf in any tree
/// that extends `old`.
proof fn lemma_walk_extends(new: &PageTableRoot, old: &PageTableRoot, n: int, v: u64, fuel: nat)
    requires
        old.wf(),
        new.wf(),
        new.extends(old),
        0 <= n < old.node_count(),
        fuel == old.node_level(n).index(),
        old.walk(n, v, fuel) is Some,
    ensures
        new.walk(n, v, fuel) == old.walk(n, v, fuel),
    decreases fuel,
{
    let i = vpn_index(v, old.node_level(n).index()) as int;
    let e = old.slot(n, i);
    assert(old.pointer_ok(n, e));
    assert(new.slot(n, i) == e);
    if !e.spec_is_leaf() && fuel > 0 {
        lemma_walk_extends(new, old, old.child_of(e), v, (fuel - 1) as nat);
    }
}

/// Two addresses with the same indices at every level from `target` up
/// take the same walk down to a leaf at level `target`.
proof fn lemma_walk_same_indices(root: &PageTableRoot, n: int, a: u64, b: u64, target: nat, fuel: nat)
    requires
        root.wf(),
        0 <= n < root.node_count(),
        fuel == root.node_level(n).index(),
        root.walk(n, b, fuel) is Some,
        root.walk(n, b, fuel).unwrap().1.index() == target,
        forall|l: nat| target <= l <= 3 ==> #[trigger] vpn_index(a, l) == vpn_index(b, l),
    ensures
        root.walk(n, a, fuel) == root.walk(n, b, fuel),
    decreases fuel,
{
    let l = root.node_level(n).index();
    let i = vpn_index(b, l) as int;
    let e = root.slot(n, i);
    assert(root.pointer_ok(n, e));
    assert(target <= l <= 3) by {
        lemma_walk_level_bound(root, n, b, fuel);
    }
    if e.spec_is_leaf() {
        assert(vpn_index(a, l) == vpn_index(b, l));
    } else {
        assert(vpn_index(a, l) == vpn_index(b, l));
        lemma_walk_same_indices(root, root.child_of(e), a, b, target, (fuel - 1) as nat);
    }
}

/// The addresses of one aligned page at `level` share the indices of every
/// level from `level` up.
proof fn lemma_same_page_indices(a: u64, b: u64, level: PageLevel)
    requires
        b % level.span() == 0,
        b <= a < b + level.span(),
    ensures
        forall|l: nat| level.index() <= l <= 3 ==> #[trigger] vpn_index(a, l) == vpn_index(b, l),
{
    let s = level.span() as int;
    let q = b as int / s;
    assert(b == q * s) by {
        vstd::arithmetic::div_mod::lemma_fundamental_div_mod(b as int, s);
        vstd::arithmetic::mul::lemma_mul_is_commutative(s, q);
    }
    vstd::arithmetic::div_mod::lemma_fundamental_div_mod_converse(a as int, s, q, a - b);
    vstd::arithmetic::div_mod::lemma_fundamental_div_mod_converse(b as int, s, q, 0);
    assert forall|l: nat| level.index() <= l <= 3 implies #[trigger] vpn_index(a, l) == vpn_index(b, l) by {
        let t = level_ratio(level.index(), l);
        assert(level_span(l) == s * t) by {
            if l == 0 {
            } else if l == 1 {
            } else if l == 2 {
            } else {
            }
        }
        vstd::arithmetic::div_mod::lemma_div_denominator(a as int, s, t);
        vstd::arithmetic::div_mod::lemma_div_denominator(b as int, s, t);
    }
}

spec fn level_ratio(from: nat, to: nat) -> int {
    if to - from == 0 {
        1
    } else if to - from == 1 {
        512
    } else if to - from == 2 {
        0x4_0000
    } else {
        0x800_0000
    }
}

proof fn lemma_walk_level_bound(root: &PageTableRoot, n: int, v: u64, fuel: nat)
    requires
        root.wf(),
        0 <= n < root.node_count(),
        fuel == root.node_level(n).index(),
        root.walk(n, v, fuel) is Some,
    ensures
        root.walk(n, v, fuel).unwrap().1.index() <= fuel,
    decreases fuel,
{
    let i = vpn_index(v, root.node_level(n).index()) as int;
    let e = root.slot(n, i);
    assert(root.pointer_ok(n, e));
    if !e.spec_is_leaf() && fuel > 0 {
        lemma_walk_level_bound(root, root.child_of(e), v, (fuel - 1) as nat);
    }
}

/// A level-2 table in the frame at `address` whose first two entries map
/// the first 2 GiB with 1 GiB pages, readable, writable and executable; the
/// other entries are empty.
pub fn dumb_map(address: PhysicalAddress) -> (r: PageTable)
    requires
        address.0 % PAGE_SIZE == 0,
    ensures
        r.wf(),
        r.spec_level() == PageLevel::Level2,
        r.spec_address() == address.0,
        forall|j: int| 0 <= j < 2 ==> {
            let e = #[trigger] r.spec_entries()[j];
            &&& e.spec_valid()
            &&& e.spec_is_leaf()
            &&& e.spec_address().0 == j * GIGA_PAGE_SIZE
            &&& e.spec_permissions() == Permission::rwx_spec().permissions_spec()
        },
        forall|j: int| 2 <= j < PAGE_ENTRIES ==> !(#[trigger] r.spec_entries()[j]).spec_valid(),
{
    let mut pt = PageTable::allocate(PageLevel::Level2, address.0);
    proof { crate::permission::lemma_rwx(); }
    let flags = leaf_flags(Permission::rwx());
    let first = Entry::new(PhysicalAddress(0), flags);
    let second = Entry::new(PhysicalAddress(GIGA_PAGE_SIZE), flags);
    proof {
        lemma_giga_address(1);
        lemma_aligned_page_bits(0);
        lemma_aligned_page_bits(GIGA_PAGE_SIZE);
        lemma_encode(0, 0, 0);
    }
    pt.entries.set(0, first);
    pt.entries.set(1, second);
    pt
}

/// Points root entry 0 at a new level-2 table whose first `count` entries
/// identity-map 1 GiB pages, readable, writable and executable. The other
/// root entries stay as they are.
#[verifier::spinoff_prover]
#[verifier::rlimit(60)]
fn map_low_giga_pages(map: &mut PageTableRoot, count: u64)
    requires
        old(map).wf(),
        old(map).node_count() < MAX_TABLES,
        count <= PAGE_ENTRIES,
    ensures
        final(map).wf(),
        final(map).node_count() == old(map).node_count() + 1,
        forall|a: u64|
            a < count * GIGA_PAGE_SIZE ==> #[trigger] final(map).translates(a, a as int, Permission::rwx_spec())
                && final(map).lookup(a).unwrap().1 == PageLevel::Level2,
        forall|a: u64|
            count * GIGA_PAGE_SIZE <= a < TERA_PAGE_SIZE ==> #[trigger] final(map).lookup(a) is None,
        forall|j: int| 0 < j < PAGE_ENTRIES ==> #[trigger] final(map).slot(0, j) == old(map).slot(0, j),
        is_pointer(final(map).slot(0, 0)),
        forall|j: int|
            count <= j < PAGE_ENTRIES ==> (#[trigger] final(map).slot(final(map).child_of(final(map).slot(0, 0)), j)).0 == 0,
{
    let ghost cleared = *map;
    let k = map.tables.len();
    let address = map.base + (k as u64) * PAGE_SIZE;
    map.tables.push(PageTable::allocate(PageLevel::Level2, address));
    proof { crate::permission::lemma_rwx(); }
    let flags = leaf_flags(Permission::rwx());
    let mut i: u64 = 0;
    while i < count
        invariant
            map.tables@.len() == k + 1,
            1 <= k < MAX_TABLES,
            map.base % PAGE_SIZE == 0,
            map.base + MAX_TABLES * PAGE_SIZE <= PHYSICAL_ADDRESS_LIMIT,
            address == map.base + k * PAGE_SIZE,
            map.tables@[k as int].spec_level() == PageLevel::Level2,
            map.tables@[k as int].wf(),
            map.tables@[k as int].spec_address() == address,
            map.base == cleared.base,
            forall|m: int| 0 <= m < k ==> #[trigger] map.tables@[m] == cleared.tables@[m],
            i <= count,
            count <= PAGE_ENTRIES,
            bit_set(flags.bits, 0),
            flags.spec_permissions() == Permission::rwx_spec().permissions_spec(),
            flags.spec_is_leaf(),
            forall|j: int| 0 <= j < i ==> #[trigger] map.slot(k as int, j) == Entry::spec_new(
                PhysicalAddress((j * GIGA_PAGE_SIZE) as u64),
                flags,
            ),
            forall|j: int| i <= j < PAGE_ENTRIES ==> (#[trigger] map.slot(k as int, j)).0 == 0,
        decreases count - i,
    {
        let ghost before = *map;
        map.set_slot(k, i as usize, Entry::new(PhysicalAddress(i * GIGA_PAGE_SIZE), flags));
        proof {
            assert forall|j: int| 0 <= j < i + 1 implies #[trigger] map.slot(k as int, j) == Entry::spec_new(
                PhysicalAddress((j * GIGA_PAGE_SIZE) as u64),
                flags,
            ) by {
                if j < i {
                    assert(map.slot(k as int, j) == before.slot(k as int, j));
                }
            }
            assert forall|j: int| i + 1 <= j < PAGE_ENTRIES implies (#[trigger] map.slot(k as int, j)).0 == 0 by {
                assert(map.slot(k as int, j) == before.slot(k as int, j));
            }
        }
        i = i + 1;
    }
    let pointer = Entry::new(PhysicalAddress(address), pointer_flags());
    let ghost filled = *map;
    map.set_slot(0, 0, pointer);
    proof {
        lemma_aligned_page_bits(address);
        lemma_child_index(map.base, k as int);
        lemma_encode(0, 0, 0);
        assert(cleared.wf());
        assert(map.slot(0, 0) == pointer);
        assert(map.child_of(pointer) == k);
        assert forall|m: int| 0 <= m < map.tables@.len() implies (#[trigger] map.tables@[m]).wf()
            && map.tables@[m].spec_address() == map.base + m * PAGE_SIZE by {
            if m < k as int && m != 0 {
                assert(map.tables@[m] == cleared.tables@[m]);
            }
        }
        assert forall|m: int, j: int|
            0 <= m < map.tables@.len() && 0 <= j < PAGE_ENTRIES implies map.pointer_ok(m, #[trigger] map.slot(m, j)) by {
            if m == k as int {
                assert(map.slot(m, j) == filled.slot(m, j));
                if j < count {
                    lemma_encode((j * GIGA_PAGE_SIZE) as u64, flags.bits, 1);
                    lemma_encode((j * GIGA_PAGE_SIZE) as u64, flags.bits, 2);
                    lemma_encode((j * GIGA_PAGE_SIZE) as u64, flags.bits, 3);
                }
            } else if m == 0 {
                if j != 0 {
                    assert(filled.tables@[0] == cleared.tables@[0]);
                    assert(map.slot(0, j) == filled.slot(0, j));
                    let e = cleared.slot(0, j);
                    assert(cleared.pointer_ok(0, e));
                    if e.spec_valid() && !e.spec_is_leaf() {
                        let c = cleared.child_of(e);
                        assert(filled.tables@[c] == cleared.tables@[c]);
                        assert(map.node_level(c) == cleared.node_level(c));
                    }
                } else {
                    assert(map.tables@[0].spec_level() == cleared.tables@[0].spec_level());
                    assert(map.node_level(0) == PageLevel::Level3);
                    assert(map.pointer_ok(0, pointer));
                }
            } else {
                assert(filled.tables@[m] == cleared.tables@[m]);
                assert(map.tables@[m] == cleared.tables@[m]);
                assert(cleared.pointer_ok(m, cleared.slot(m, j)));
                let e = cleared.slot(m, j);
                if e.spec_valid() && !e.spec_is_leaf() {
                    let c = cleared.child_of(e);
                    assert(filled.tables@[c] == cleared.tables@[c]);
                    assert(map.node_level(c) == cleared.node_level(c));
                }
            }
        }
        assert forall|m: int, j: int|
            0 <= m < cleared.node_count() && 0 <= j < PAGE_ENTRIES && !(m == 0 && j == 0) implies #[trigger] map.slot(m, j)
                == cleared.slot(m, j) by {
            assert(filled.tables@[m] == cleared.tables@[m]);
            assert(map.slot(m, j) == filled.slot(m, j));
        }
        assert forall|m: int, j: int|
            cleared.node_count() <= m < map.node_count() && 0 <= j < PAGE_ENTRIES implies !is_pointer(#[trigger] map.slot(m, j)) by {
            assert(map.slot(m, j) == filled.slot(m, j));
            if j < count {
                lemma_encode((j * GIGA_PAGE_SIZE) as u64, flags.bits, 1);
                lemma_encode((j * GIGA_PAGE_SIZE) as u64, flags.bits, 2);
                lemma_encode((j * GIGA_PAGE_SIZE) as u64, flags.bits, 3);
            }
        }
        lemma_owners_after_write(&*map, &cleared, 0, 0);
        assert(map.wf());
        assert forall|a: u64| count * GIGA_PAGE_SIZE <= a < TERA_PAGE_SIZE implies #[trigger] map.lookup(a) is None by {
            let j = (a / GIGA_PAGE_SIZE) as int;
            assert(a as int / 0x80_0000_0000 == 0) by (nonlinear_arith)
                requires
                    a < 0x80_0000_0000,
            ;
            assert(count <= a as int / 0x4000_0000 < 512) by (nonlinear_arith)
                requires
                    a < 0x80_0000_0000,
                    count * 0x4000_0000 <= a,
            ;
            assert(vpn_index(a, 3) == 0);
            assert(vpn_index(a, 2) == j);
            assert(map.slot(k as int, j) == filled.slot(k as int, j));
            assert(map.slot(k as int, j).0 == 0);
            assert(map.node_level(k as int) == PageLevel::Level2);
            assert(map.walk(k as int, a, 2) is None);
            assert(map.slot(0, 0) == pointer);
            assert(map.walk(0, a, 3) == map.walk(k as int, a, 2));
        }
        assert forall|j: int| 0 < j < PAGE_ENTRIES implies #[trigger] map.slot(0, j) == cleared.slot(0, j) by {
            assert(filled.tables@[0] == cleared.tables@[0]);
            assert(map.slot(0, j) == filled.slot(0, j));
        }
        assert forall|a: u64| a < count * GIGA_PAGE_SIZE implies #[trigger] map.translates(a, a as int, Permission::rwx_spec())
            && map.lookup(a).unwrap().1 == PageLevel::Level2 by {
            let j = (a / GIGA_PAGE_SIZE) as int;
            assert(a as int / 0x80_0000_0000 == 0) by (nonlinear_arith)
                requires
                    a < count * 0x4000_0000,
                    count <= 512,
            ;
            assert(a as int / 0x4000_0000 < count) by (nonlinear_arith)
                requires
                    a < count * 0x4000_0000,
            ;
            assert(vpn_index(a, 3) == 0);
            assert(vpn_index(a, 2) == j);
            let e = map.slot(k as int, j);
            lemma_encode((j * GIGA_PAGE_SIZE) as u64, flags.bits, 0);
            lemma_encode((j * GIGA_PAGE_SIZE) as u64, flags.bits, 1);
            lemma_encode((j * GIGA_PAGE_SIZE) as u64, flags.bits, 2);
            lemma_encode((j * GIGA_PAGE_SIZE) as u64, flags.bits, 3);
            lemma_giga_address(j);
            crate::bits::lemma_address_fields((j * GIGA_PAGE_SIZE) as u64);
            lemma_aligned_page_bits((j * GIGA_PAGE_SIZE) as u64);
            assert(map.slot(k as int, j) == filled.slot(k as int, j));
            assert(e.spec_address().0 == j * GIGA_PAGE_SIZE);
            assert(map.node_level(k as int) == PageLevel::Level2);
            assert(e.spec_valid() && e.spec_is_leaf());
            assert(map.walk(k as int, a, 2) == Some((e, PageLevel::Level2)));
            assert(map.slot(0, 0) == pointer);
            assert(map.walk(0, a, 3) == map.walk(k as int, a, 2));
            assert(map.lookup(a) == Some((e, PageLevel::Level2)));
        }
        assert forall|j: int| count <= j < PAGE_ENTRIES implies (#[trigger] map.slot(map.child_of(map.slot(0, 0)), j)).0 == 0 by {
            assert(map.slot(k as int, j) == filled.slot(k as int, j));
        }
    }
}


/// Identity-maps the first 4 GiB with 1 GiB pages, readable, writable and
/// executable, after emptying the root table (what was mapped before is
/// dropped). Root entry 0 points at a new level-2 table holding the four
/// 1 GiB leaves; every other entry of both tables is zero. Fails, changing nothing, only when the arena has no frame left
/// for the one table it needs.
pub fn place_dumb_map(map: &mut PageTableRoot) -> (r: Result<(), MapError>)
    requires
        old(map).wf(),
    ensures
        final(map).wf(),
        r is Err <==> old(map).node_count() >= MAX_TABLES,
        r is Err ==> *final(map) == *old(map),
        r is Ok ==> forall|a: u64|
            a < 4 * GIGA_PAGE_SIZE ==> #[trigger] final(map).translates(a, a as int, Permission::rwx_spec())
                && final(map).lookup(a).unwrap().1 == PageLevel::Level2,
        r is Ok ==> forall|a: u64|
            4 * GIGA_PAGE_SIZE <= a < VIRTUAL_ADDRESS_LIMIT ==> #[trigger] final(map).lookup(a) is None,
        r is Ok ==> is_pointer(final(map).slot(0, 0)),
        r is Ok ==> forall|j: int| 0 < j < PAGE_ENTRIES ==> (#[trigger] final(map).slot(0, j)).0 == 0,
        r is Ok ==> forall|j: int|
            4 <= j < PAGE_ENTRIES ==> (#[trigger] final(map).slot(final(map).child_of(final(map).slot(0, 0)), j)).0 == 0,
{
    if map.tables.len() as u64 >= MAX_TABLES {
        return Err(MapError::OutOfTables);
    }
    map.clear_root();
    let ghost cleared = *map;
    map_low_giga_pages(map, 4);
    proof {
        assert forall|a: u64| 4 * GIGA_PAGE_SIZE <= a < VIRTUAL_ADDRESS_LIMIT implies #[trigger] map.lookup(a) is None by {
            if a >= TERA_PAGE_SIZE {
                let j = vpn_index(a, 3) as int;
                assert(a as int / 0x80_0000_0000 >= 1) by (nonlinear_arith)
                    requires
                        a >= 0x80_0000_0000,
                ;
                assert(a as int / 0x80_0000_0000 < 512) by (nonlinear_arith)
                    requires
                        a < 0x1_0000_0000_0000,
                ;
                assert(j != 0);
                assert(map.slot(0, j) == cleared.slot(0, j));
                assert(!cleared.slot(0, j).spec_valid());
            }
        }
        assert forall|j: int| 0 < j < PAGE_ENTRIES implies (#[trigger] map.slot(0, j)).0 == 0 by {
            assert(map.slot(0, j) == cleared.slot(0, j));
        }
    }
    Ok(())
}

proof fn lemma_giga_address(j: int)
    requires
        0 <= j < 512,
    ensures
        (j * GIGA_PAGE_SIZE) as u64 == j * GIGA_PAGE_SIZE,
        (j * GIGA_PAGE_SIZE) % PAGE_SIZE as int == 0,
        j * GIGA_PAGE_SIZE < PHYSICAL_ADDRESS_LIMIT,
{
    assert(j * GIGA_PAGE_SIZE == (j * 0x4_0000) * PAGE_SIZE);
    vstd::arithmetic::div_mod::lemma_mod_multiples_basic(j * 0x4_0000, PAGE_SIZE as int);
}

/// Translations found in `old` hold in any tree that extends it.
proof fn lemma_translates_extends(new: &PageTableRoot, old: &PageTableRoot, a: u64, phys: int, perm: Permission)
    requires
        old.wf(),
        new.wf(),
        new.extends(old),
        old.translates(a, phys, perm),
    ensures
        new.translates(a, phys, perm),
{
    lemma_walk_extends(new, old, 0, a, 3);
}

/// After a page at `level` is mapped at `virt`, every address of the page
/// translates to the same offset in the physical page.
proof fn lemma_page_translates(root: &PageTableRoot, virt: u64, phys: u64, perm: Permission, level: PageLevel, a: u64)
    requires
        root.wf(),
        root.maps(virt, phys, perm, level),
        virt % level.span() == 0,
        virt <= a < virt + level.span(),
    ensures
        root.translates(a, phys + (a - virt), perm),
{
    lemma_same_page_indices(a, virt, level);
    lemma_walk_same_indices(root, 0, a, virt, level.index(), 3);
    let s = level.span() as int;
    vstd::arithmetic::div_mod::lemma_fundamental_div_mod(virt as int, s);
    let q = virt as int / s;
    vstd::arithmetic::mul::lemma_mul_is_commutative(s, q);
    vstd::arithmetic::div_mod::lemma_fundamental_div_mod_converse(a as int, s, q, a - virt);
}

/// In a well-formed tree every table below the root has at most one owner.
pub proof fn lemma_tables_have_one_owner(root: &PageTableRoot)
    requires
        root.wf(),
    ensures
        root.unique_owners(),
{
}

/// Writing one slot keeps each child table with at most one owner when the
/// slot gets no pointer, or a pointer to a table that is new.
proof fn lemma_owners_after_write(new: &PageTableRoot, old: &PageTableRoot, n: int, i: int)
    requires
        old.wf(),
        new.spec_base() == old.spec_base(),
        old.node_count() <= new.node_count(),
        0 <= n < old.node_count(),
        0 <= i < PAGE_ENTRIES,
        forall|m: int, j: int|
            0 <= m < old.node_count() && 0 <= j < PAGE_ENTRIES && !(m == n && j == i) ==> #[trigger] new.slot(m, j)
                == old.slot(m, j),
        forall|m: int, j: int|
            old.node_count() <= m < new.node_count() && 0 <= j < PAGE_ENTRIES ==> !is_pointer(#[trigger] new.slot(m, j)),
        is_pointer(new.slot(n, i)) ==> new.child_of(new.slot(n, i)) >= old.node_count(),
    ensures
        new.unique_owners(),
{
    assert forall|a: int, b: int, c: int, d: int|
        0 <= a < new.node_count() && 0 <= b < PAGE_ENTRIES && 0 <= c < new.node_count() && 0 <= d < PAGE_ENTRIES
            && is_pointer(#[trigger] new.slot(a, b)) && is_pointer(#[trigger] new.slot(c, d))
            && new.child_of(new.slot(a, b)) == new.child_of(new.slot(c, d)) implies a == c && b == d by {
        let ab = a == n && b == i;
        let cd = c == n && d == i;
        if a >= old.node_count() || c >= old.node_count() {
        } else if ab && cd {
        } else if ab {
            assert(old.pointer_ok(c, old.slot(c, d)));
        } else if cd {
            assert(old.pointer_ok(a, old.slot(a, b)));
        } else {
            assert(new.slot(a, b) == old.slot(a, b));
            assert(new.slot(c, d) == old.slot(c, d));
        }
    }
}

/// `a` and `v` select the same index at every level from `lo` to `hi`.
pub open spec fn agrees_from(a: u64, v: u64, lo: nat, hi: nat) -> bool {
    forall|l: nat| lo <= l <= hi ==> #[trigger] vpn_index(a, l) == vpn_index(v, l)
}

/// Every walk from node `k` finds nothing, or finds `leaf` at `target` for
/// an address that selects the indices of `v` from `target` up to `fuel`.
pub open spec fn leads_only_to(root: &PageTableRoot, k: int, fuel: nat, leaf: Entry, target: PageLevel, v: u64) -> bool {
    forall|a: u64|
        #[trigger] root.walk(k, a, fuel) is None || (root.walk(k, a, fuel) == Some((leaf, target)) && agrees_from(
            a,
            v,
            target.index(),
            fuel,
        ))
}

/// Slot `j` of node `m`, the slot `v` selects there and invalid in `old`,
/// holds in `new` either `leaf` (at level `target`) or a pointer to a new
/// node from which a walk finds nothing or `leaf` along the indices of `v`.
pub open spec fn changed_to_leaf(
    new: &PageTableRoot,
    old: &PageTableRoot,
    m: int,
    j: int,
    leaf: Entry,
    target: PageLevel,
    v: u64,
) -> bool {
    &&& 0 <= m < old.node_count()
    &&& j == vpn_index(v, old.node_level(m).index())
    &&& !old.slot(m, j).spec_valid()
    &&& forall|p: int, i: int|
        0 <= p < old.node_count() && 0 <= i < PAGE_ENTRIES && !(p == m && i == j) ==> #[trigger] new.slot(p, i)
            == old.slot(p, i)
    &&& (new.slot(m, j) == leaf && old.node_level(m) == target) || (is_pointer(new.slot(m, j)) && new.child_of(
        new.slot(m, j),
    ) >= old.node_count() && leads_only_to(
        new,
        new.child_of(new.slot(m, j)),
        (old.node_level(m).index() - 1) as nat,
        leaf,
        target,
        v,
    ))
}

/// Walking from node `n` with the indices of `v` passes through node `m`.
pub open spec fn reaches(root: &PageTableRoot, n: int, v: u64, fuel: nat, m: int) -> bool
    decreases fuel,
{
    n == m || (fuel > 0 && is_pointer(root.slot(n, vpn_index(v, root.node_level(n).index()) as int)) && reaches(
        root,
        root.child_of(root.slot(n, vpn_index(v, root.node_level(n).index()) as int)),
        v,
        (fuel - 1) as nat,
        m,
    ))
}

proof fn lemma_prefix_bits(a: u64, v: u64)
    by (bit_vector)
    requires
        a < 0x1_0000_0000_0000,
        v < 0x1_0000_0000_0000,
    ensures
        (a >> 39) & 0x1ff == (v >> 39) & 0x1ff && v & 0x7f_ffff_ffff == 0 ==> v <= a && a < v + 0x80_0000_0000,
        (a >> 39) & 0x1ff == (v >> 39) & 0x1ff && (a >> 30) & 0x1ff == (v >> 30) & 0x1ff && v & 0x3fff_ffff == 0
            ==> v <= a && a < v + 0x4000_0000,
        (a >> 39) & 0x1ff == (v >> 39) & 0x1ff && (a >> 30) & 0x1ff == (v >> 30) & 0x1ff && (a >> 21) & 0x1ff == (v
            >> 21) & 0x1ff && v & 0x1f_ffff == 0 ==> v <= a && a < v + 0x20_0000,
        (a >> 39) & 0x1ff == (v >> 39) & 0x1ff && (a >> 30) & 0x1ff == (v >> 30) & 0x1ff && (a >> 21) & 0x1ff == (v
            >> 21) & 0x1ff && (a >> 12) & 0x1ff == (v >> 12) & 0x1ff && v & 0xfff == 0 ==> v <= a && a < v + 0x1000,
        v & 0x7f_ffff_ffff == v % 0x80_0000_0000,
        v & 0x3fff_ffff == v % 0x4000_0000,
        v & 0x1f_ffff == v % 0x20_0000,
        v & 0xfff == v % 0x1000,
{
}

/// Below 2^48, an address that selects the indices of `v` at every level
/// from `level` up lies in the page at `level` that starts at `v`.
proof fn lemma_indices_in_page(a: u64, v: u64, level: PageLevel)
    requires
        a < VIRTUAL_ADDRESS_LIMIT,
        v < VIRTUAL_ADDRESS_LIMIT,
        v % level.span() == 0,
        agrees_from(a, v, level.index(), 3),
    ensures
        v <= a < v + level.span(),
{
    lemma_prefix_bits(a, v);
    crate::bits::lemma_address_fields(a);
    crate::bits::lemma_address_fields(v);
    assert(vpn_index(a, 3) == vpn_index(v, 3));
    if level.index() <= 2 {
        assert(vpn_index(a, 2) == vpn_index(v, 2));
    }
    if level.index() <= 1 {
        assert(vpn_index(a, 1) == vpn_index(v, 1));
    }
    if level.index() == 0 {
        assert(vpn_index(a, 0) == vpn_index(v, 0));
    }
}

proof fn lemma_reaches_level(root: &PageTableRoot, n: int, v: u64, fuel: nat, m: int)
    requires
        root.wf(),
        0 <= n < root.node_count(),
        fuel == root.node_level(n).index(),
        reaches(root, n, v, fuel, m),
    ensures
        0 <= m < root.node_count(),
        root.node_level(m).index() <= fuel,
        root.node_level(m).index() == fuel ==> m == n,
    decreases fuel,
{
    if n != m {
        let e = root.slot(n, vpn_index(v, root.node_level(n).index()) as int);
        assert(root.pointer_ok(n, e));
        lemma_reaches_level(root, root.child_of(e), v, (fuel - 1) as nat, m);
    }
}

/// With one owner per table, two walks that meet at node `m` came the same
/// way: from nodes at the same level they started at the same node and
/// chose the same indices above `m`.
proof fn lemma_paths_meet(root: &PageTableRoot, n1: int, n2: int, a: u64, b: u64, fuel: nat, m: int)
    requires
        root.wf(),
        0 <= n1 < root.node_count(),
        0 <= n2 < root.node_count(),
        fuel == root.node_level(n1).index(),
        fuel == root.node_level(n2).index(),
        reaches(root, n1, a, fuel, m),
        reaches(root, n2, b, fuel, m),
    ensures
        n1 == n2,
        forall|l: nat| root.node_level(m).index() < l <= fuel ==> #[trigger] vpn_index(a, l) == vpn_index(b, l),
    decreases fuel,
{
    lemma_reaches_level(root, n1, a, fuel, m);
    lemma_reaches_level(root, n2, b, fuel, m);
    if n1 == m || n2 == m {
    } else {
        let i1 = vpn_index(a, fuel) as int;
        let i2 = vpn_index(b, fuel) as int;
        let e1 = root.slot(n1, i1);
        let e2 = root.slot(n2, i2);
        assert(root.pointer_ok(n1, e1));
        assert(root.pointer_ok(n2, e2));
        lemma_paths_meet(root, root.child_of(e1), root.child_of(e2), a, b, (fuel - 1) as nat, m);
        assert(root.unique_owners());
        assert(n1 == n2 && i1 == i2);
    }
}

/// When one invalid slot changed as `changed_to_leaf` says, a walk that
/// found nothing before finds nothing or the new leaf; in that case it came
/// through the changed slot along the indices of `v`.
proof fn lemma_walk_after_change(
    new: &PageTableRoot,
    old: &PageTableRoot,
    m: int,
    j: int,
    leaf: Entry,
    target: PageLevel,
    v: u64,
    p: int,
    a: u64,
    fuel: nat,
)
    requires
        old.wf(),
        new.wf(),
        new.extends(old),
        leaf.spec_valid(),
        leaf.spec_is_leaf(),
        changed_to_leaf(new, old, m, j, leaf, target, v),
        0 <= p < old.node_count(),
        fuel == old.node_level(p).index(),
        old.walk(p, a, fuel) is None,
    ensures
        new.walk(p, a, fuel) is None || (new.walk(p, a, fuel) == Some((leaf, target)) && reaches(old, p, a, fuel, m)
            && agrees_from(a, v, target.index(), old.node_level(m).index())),
    decreases fuel,
{
    let i = vpn_index(a, old.node_level(p).index()) as int;
    assert(new.node_level(p) == old.node_level(p));
    if p == m && i == j {
        let lm = old.node_level(m).index();
        if new.slot(m, j) == leaf && old.node_level(m) == target {
            assert forall|l: nat| target.index() <= l <= lm implies #[trigger] vpn_index(a, l) == vpn_index(v, l) by {
            }
        } else {
            let k = new.child_of(new.slot(m, j));
            assert(new.pointer_ok(p, new.slot(p, i)));
            assert(new.walk(k, a, (fuel - 1) as nat) is None || (new.walk(k, a, (fuel - 1) as nat) == Some((leaf, target))
                && agrees_from(a, v, target.index(), (fuel - 1) as nat)));
            if new.walk(p, a, fuel) is Some {
                assert forall|l: nat| target.index() <= l <= lm implies #[trigger] vpn_index(a, l) == vpn_index(v, l) by {
                    if l < lm {
                        assert(agrees_from(a, v, target.index(), (fuel - 1) as nat));
                    }
                }
            }
        }
    } else {
        let e = old.slot(p, i);
        assert(new.slot(p, i) == e);
        assert(old.pointer_ok(p, e));
        if e.spec_valid() && !e.spec_is_leaf() && fuel > 0 {
            lemma_walk_after_change(new, old, m, j, leaf, target, v, old.child_of(e), a, (fuel - 1) as nat);
        }
    }
}

proof fn lemma_new_addresses_in_regions(
    regions: &MemoryRegions,
    old: &PageTableRoot,
    before: &PageTableRoot,
    now: &PageTableRoot,
    i: int,
)
    requires
        0 <= i < regions@.len(),
        has_rights(regions@[i].perms),
        forall|a: u64|
            a < VIRTUAL_ADDRESS_LIMIT && old.lookup(a) is None && (#[trigger] before.lookup(a)) is Some ==> exists|j: int|
                0 <= j < i && has_rights(regions@[j].perms) && #[trigger] in_rounded(regions@[j], a),
        forall|a: u64|
            a < VIRTUAL_ADDRESS_LIMIT && before.lookup(a) is None && (#[trigger] now.lookup(a)) is Some ==> in_rounded(
                regions@[i],
                a,
            ),
        before.wf(),
        now.wf(),
        now.extends(before),
    ensures
        forall|a: u64|
            a < VIRTUAL_ADDRESS_LIMIT && old.lookup(a) is None && (#[trigger] now.lookup(a)) is Some ==> exists|j: int|
                0 <= j < i + 1 && has_rights(regions@[j].perms) && #[trigger] in_rounded(regions@[j], a),
{
    assert forall|a: u64|
        a < VIRTUAL_ADDRESS_LIMIT && old.lookup(a) is None && (#[trigger] now.lookup(a)) is Some implies exists|j: int|
            0 <= j < i + 1 && has_rights(regions@[j].perms) && #[trigger] in_rounded(regions@[j], a) by {
        if before.lookup(a) is Some {
            lemma_walk_extends(now, before, 0, a, 3);
            let j = choose|j: int| 0 <= j < i && has_rights(regions@[j].perms) && #[trigger] in_rounded(regions@[j], a);
            assert(in_rounded(regions@[j], a));
        } else {
            assert(in_rounded(regions@[i], a));
        }
    }
}

/// After a pointer to the fresh node `k` went into the free slot `(n, i)`
/// and the leaf was installed below `k`, the change from `old` is that
/// slot alone.
proof fn lemma_install_fresh_child(
    new: &PageTableRoot,
    mid: &PageTableRoot,
    old: &PageTableRoot,
    n: int,
    i: int,
    k: int,
    v: u64,
    leaf: Entry,
    target: PageLevel,
)
    requires
        old.wf(),
        mid.wf(),
        new.wf(),
        mid.extends(old),
        new.extends(mid),
        leaf.spec_valid(),
        leaf.spec_is_leaf(),
        0 <= n < old.node_count(),
        0 <= i < PAGE_ENTRIES,
        !old.slot(n, i).spec_valid(),
        k == old.node_count(),
        mid.node_count() == k + 1,
        forall|m: int, j: int|
            0 <= m < old.node_count() && 0 <= j < PAGE_ENTRIES && !(m == n && j == i) ==> #[trigger] mid.slot(m, j)
                == old.slot(m, j),
        is_pointer(mid.slot(n, i)),
        mid.child_of(mid.slot(n, i)) == k,
        mid.node_level(k).index() + 1 == old.node_level(n).index(),
        forall|j: int| 0 <= j < PAGE_ENTRIES ==> !(#[trigger] mid.slot(k, j)).spec_valid(),
        i == vpn_index(v, old.node_level(n).index()),
        changed_to_leaf(new, mid, k, vpn_index(v, mid.node_level(k).index()) as int, leaf, target, v),
    ensures
        changed_to_leaf(new, old, n, i, leaf, target, v),
{
    let kj = vpn_index(v, mid.node_level(k).index()) as int;
    assert(new.slot(n, i) == mid.slot(n, i));
    assert forall|p: int, q: int|
        0 <= p < old.node_count() && 0 <= q < PAGE_ENTRIES && !(p == n && q == i) implies #[trigger] new.slot(p, q)
            == old.slot(p, q) by {
        assert(new.slot(p, q) == mid.slot(p, q));
    }
    let fuel = mid.node_level(k).index();
    assert forall|a: u64|
        #[trigger] new.walk(k, a, fuel) is None || (new.walk(k, a, fuel) == Some((leaf, target)) && agrees_from(
            a,
            v,
            target.index(),
            fuel,
        )) by {
        let j = vpn_index(a, fuel) as int;
        assert(!mid.slot(k, j).spec_valid());
        lemma_walk_after_change(new, mid, k, kj, leaf, target, v, k, a, fuel);
    }
}

/// Where probing stops without an error, the slot is free.
proof fn lemma_probe_free(root: &PageTableRoot, n: int, v: u64, target: nat, fuel: nat)
    requires
        root.wf(),
        0 <= n < root.node_count(),
        fuel == root.node_level(n).index(),
        root.probe(n, v, target, fuel) is Ok,
    ensures
        ({
            let (m, l) = root.probe(n, v, target, fuel)->Ok_0;
            &&& 0 <= m < root.node_count()
            &&& root.node_level(m).index() == l
            &&& !root.slot(m, vpn_index(v, l) as int).spec_valid()
            &&& reaches(root, n, v, fuel, m)
        }),
    decreases fuel,
{
    let l = root.node_level(n).index();
    let e = root.slot(n, vpn_index(v, l) as int);
    assert(root.pointer_ok(n, e));
    if l > target && e.spec_valid() && !e.spec_is_leaf() && fuel > 0 {
        lemma_probe_free(root, root.child_of(e), v, target, (fuel - 1) as nat);
    }
}

proof fn lemma_extends_trans(c: &PageTableRoot, b: &PageTableRoot, a: &PageTableRoot)
    requires
        c.extends(b),
        b.extends(a),
    ensures
        c.extends(a),
{
    assert forall|n: int, i: int|
        0 <= n < a.node_count() && 0 <= i < PAGE_ENTRIES && (#[trigger] a.slot(n, i)).spec_valid()
        implies c.slot(n, i) == a.slot(n, i) by {
        assert(b.slot(n, i) == a.slot(n, i));
    }
}

impl PageTableRoot {
    /// A tree whose root, with every entry empty, sits in the frame at
    /// `base`; further nodes take the frames after it.
    pub fn new(base: PhysicalAddress) -> (r: PageTableRoot)
        requires
            base.0 % PAGE_SIZE == 0,
            base.0 + MAX_TABLES * PAGE_SIZE <= PHYSICAL_ADDRESS_LIMIT,
        ensures
            r.wf(),
            r.spec_base() == base.0,
            r.node_count() == 1,
            r.is_fresh(),
            forall|v: u64| #[trigger] r.lookup(v) is None,
    {
        let root = PageTable::allocate(PageLevel::Level3, base.0);
        let mut tables: Vec<PageTable> = Vec::new();
        tables.push(root);
        let r = PageTableRoot { base: base.0, tables };
        proof {
            assert forall|n: int, i: int|
                0 <= n < r.tables@.len() && 0 <= i < PAGE_ENTRIES implies r.pointer_ok(n, #[trigger] r.slot(n, i)) by {
                lemma_encode(0, 0, 0);
            }
            assert forall|v: u64| #[trigger] r.lookup(v) is None by {
                lemma_encode(0, 0, 0);
            }
            assert forall|i: int| 0 <= i < PAGE_ENTRIES implies !(#[trigger] r.slot(0, i)).spec_valid() by {
                lemma_encode(0, 0, 0);
            }
        }
        r
    }

    /// Physical address of the root table.
    pub fn root_address(&self) -> (r: PhysicalAddress)
        requires
            self.wf(),
        ensures
            r.0 == self.spec_base(),
    {
        PhysicalAddress(self.base)
    }

    /// Number of nodes in the tree.
    pub fn table_count(&self) -> (r: usize)
        ensures
            r == self.node_count(),
    {
        self.tables.len()
    }

    /// Whether the tree is only an empty root.
    pub closed spec fn is_fresh(&self) -> bool {
        &&& self.tables@.len() == 1
        &&& forall|i: int| 0 <= i < PAGE_ENTRIES ==> !(#[trigger] self.slot(0, i)).spec_valid()
    }

    /// Maps the page at `level` that holds `to` to the physical page at
    /// `addr`, with `perm`, creating the tables on the way. Fails, changing
    /// nothing, on an address out of range, a misaligned address, a
    /// permission no leaf can carry, a slot already taken, a larger page in
    /// the way, or an arena too full for the tables needed. On success every
    /// translation found before stays, and an address that had none either
    /// still has none or now ends at the new leaf.
    #[verifier::spinoff_prover]
    #[verifier::rlimit(60)]
    pub fn map_page(&mut self, addr: PhysicalAddress, to: VirtualAddress, perm: Permission, level: PageLevel) -> (r: Result<(), MapError>)
        requires
            old(self).wf(),
        ensures
            final(self).wf(),
            r == old(self).map_outcome(addr.0, to.0, perm, level),
            r is Err ==> *final(self) == *old(self),
            r is Ok ==> final(self).extends(old(self)) && final(self).maps(to.0, addr.0, perm, level),
            r is Ok ==> forall|a: u64|
                #[trigger] old(self).lookup(a) is None ==> final(self).lookup(a) is None || (final(self).lookup(a)
                    == final(self).lookup(to.0) && agrees_from(a, to.0, level.index(), 3)),
    {
        if to.0 >= VIRTUAL_ADDRESS_LIMIT || addr.0 >= PHYSICAL_ADDRESS_LIMIT {
            return Err(MapError::InvalidAddress);
        }
        let span = level.span_size();
        if addr.0 % span != 0 || to.0 % span != 0 {
            return Err(MapError::Misaligned);
        }
        if !(perm.readable() || perm.writable() || perm.executable()) || (perm.writable() && !perm.readable()) {
            return Err(MapError::InvalidPermission);
        }
        proof {
            crate::level::lemma_span_aligned(addr.0, level);
        }
        match self.probe_from(0, to, level, 3) {
            Err(e) => Err(e),
            Ok((_, free_level)) => {
                if (self.tables.len() as u64) + (free_level.index_exec() - level.index_exec()) > MAX_TABLES {
                    return Err(MapError::OutOfTables);
                }
                let leaf = Entry::new(addr, leaf_flags(perm));
                proof {
                    lemma_aligned_page_bits(addr.0);
                }
                let ghost before = *self;
                self.install(0, to, level, leaf, 3);
                proof {
                    let (fm, fl) = before.probe(0, to.0, level.index(), 3)->Ok_0;
                    assert forall|a: u64| #[trigger] before.lookup(a) is None implies self.lookup(a) is None
                        || (self.lookup(a) == self.lookup(to.0) && agrees_from(a, to.0, level.index(), 3)) by {
                                lemma_walk_after_change(&*self, &before, fm, vpn_index(to.0, fl) as int, leaf, level, to.0, 0, a, 3);
                        if self.lookup(a) is Some {
                            lemma_probe_free(&before, 0, to.0, level.index(), 3);
                            lemma_paths_meet(&before, 0, 0, a, to.0, 3, fm);
                            assert forall|l: nat| level.index() <= l <= 3 implies #[trigger] vpn_index(a, l) == vpn_index(to.0, l) by {
                                if l <= fl {
                                    assert(agrees_from(a, to.0, level.index(), fl));
                                }
                            }
                        }
                    }
                }
                Ok(())
            },
        }
    }

    /// Maps the 4 KiB page at the page-aligned address `to` to the physical
    /// page at `addr` with `perm`; an unaligned `to` or `addr` is refused as
    /// misaligned. See `map_page`.
    pub fn map_addr(&mut self, addr: PhysicalAddress, to: VirtualAddress, perm: Permission) -> (r: Result<(), MapError>)
        requires
            old(self).wf(),
        ensures
            final(self).wf(),
            r == old(self).map_outcome(addr.0, to.0, perm, PageLevel::Level0),
            r is Err ==> *final(self) == *old(self),
            r is Ok ==> final(self).extends(old(self)) && final(self).maps(to.0, addr.0, perm, PageLevel::Level0),
            r is Ok ==> forall|a: u64|
                #[trigger] old(self).lookup(a) is None ==> final(self).lookup(a) is None || (final(self).lookup(a)
                    == final(self).lookup(to.0) && agrees_from(a, to.0, 0, 3)),
    {
        self.map_page(addr, to, perm, PageLevel::Level0)
    }

    /// Maps every page of `region`, cut into the fewest aligned pages.
    #[verifier::spinoff_prover]
    #[verifier::rlimit(60)]
    fn map_region(&mut self, region: &Region) -> (r: Result<(), MapError>)
        requires
            old(self).wf(),
        ensures
            final(self).wf(),
            final(self).extends(old(self)),
            r is Ok ==> final(self).region_mapped(*region),
            r matches Err(e) ==> final(self).region_fails(*region, e),
            forall|a: u64|
                a < VIRTUAL_ADDRESS_LIMIT && old(self).lookup(a) is None && (#[trigger] final(self).lookup(a)) is Some
                    ==> in_rounded(*region, a),
    {
        let start = region.address.0;
        let end = region.end.0;
        if start > end || end > VIRTUAL_ADDRESS_LIMIT {
            return Err(MapError::InvalidAddress);
        }
        if start % PAGE_SIZE != 0 {
            return Err(MapError::Misaligned);
        }
        let phys_start = match region.maps_to {
            Some(p) => p.0,
            None => start,
        };
        if phys_start % PAGE_SIZE != 0 {
            return Err(MapError::Misaligned);
        }
        if phys_start >= PHYSICAL_ADDRESS_LIMIT || end - start > PHYSICAL_ADDRESS_LIMIT - phys_start {
            return Err(MapError::InvalidAddress);
        }
        let range = PhysicalAddressRange {
            kind: PhysicalAddressKind::Usable,
            description: region.desc,
            start: phys_start,
            end: phys_start + (end - start),
        };
        let pages = range.big_pages();
        let ghost pend = page_end(range.end);
        proof {
            vstd::arithmetic::div_mod::lemma_mod_adds(phys_start as int, (end - start) as int, PAGE_SIZE as int);
            vstd::arithmetic::div_mod::lemma_mod_adds(start as int, (end - start) as int, PAGE_SIZE as int);
            assert(pend - phys_start == page_end(end) - start);
        }
        let ghost old_self = *self;
        let mut k: usize = 0;
        while k < pages.len()
            invariant
                self.wf(),
                old_self.wf(),
                old_self == *old(self),
                self.extends(&old_self),
                tiles(pages@, phys_start as int, pend),
                pend == page_end(region_phys_end(*region) as u64),
                start == region.address.0,
                end == region.end.0,
                pend - phys_start == page_end(end) - start,
                start % PAGE_SIZE == 0,
                start <= end <= VIRTUAL_ADDRESS_LIMIT,
                region_phys_start(*region) == phys_start,
                k <= pages@.len(),
                forall|a: u64|
                    start <= a < start + ((if k == 0 {
                        phys_start as int
                    } else {
                        page_limit(pages@, k - 1)
                    }) - phys_start) ==> #[trigger] self.translates_from(a, start, phys_start, region.perms),
                forall|a: u64|
                    a < VIRTUAL_ADDRESS_LIMIT && old_self.lookup(a) is None && (#[trigger] self.lookup(a)) is Some ==> start <= a
                        < start + ((if k == 0 {
                        phys_start as int
                    } else {
                        page_limit(pages@, k - 1)
                    }) - phys_start),
            decreases pages@.len() - k,
        {
            let page = pages[k];
            let ghost before = *self;
            proof {
                if k > 0 {
                    let p = (k - 1) as int;
                    assert(pages@[p + 1].spec_position() == page_limit(pages@, p));
                }
                assert(page_limit(pages@, k as int) <= pend);
            }
            let virt = start + (page.position() - phys_start);
            match self.map_page(PhysicalAddress(page.position()), VirtualAddress(virt), region.perms, page.level()) {
                Err(e) => {
                    assert(*self == before);
                    proof {
                        assert(pages@[k as int] == page);
                        assert(tiles(pages@, region_phys_start(*region) as int, page_end(region_phys_end(*region) as u64)));
                        assert(region_page(*region, page));
                        assert(page.spec_position() >= phys_start);
                        assert(start + (page.spec_position() - phys_start) == virt);
                        assert(region_virt(*region, page) == virt);
                        let lim = if k == 0 { phys_start as int } else { page_limit(pages@, k - 1) };
                        assert(lim <= pend);
                        assert forall|a: u64|
                            a < VIRTUAL_ADDRESS_LIMIT && old_self.lookup(a) is None && (#[trigger] self.lookup(a)) is Some
                            implies in_rounded(*region, a) by {
                            assert(start <= a < start + (lim - phys_start));
                        }
                    }
                    return Err(e);
                },
                Ok(()) => {},
            }
            proof {
                lemma_extends_trans(&*self, &before, &old_self);
                let lim = if k == 0 { phys_start as int } else { page_limit(pages@, k - 1) };
                assert forall|a: u64|
                    start <= a < start + (page_limit(pages@, k as int) - phys_start) implies #[trigger] self.translates_from(
                    a,
                    start,
                    phys_start,
                    region.perms,
                ) by {
                    if a < start + (lim - phys_start) {
                        assert(before.translates_from(a, start, phys_start, region.perms));
                        lemma_translates_extends(&*self, &before, a, phys_start + (a - start), region.perms);
                    } else {
                        lemma_page_translates(&*self, virt, page.spec_position(), region.perms, page.spec_level(), a);
                    }
                }
                assert forall|a: u64|
                    a < VIRTUAL_ADDRESS_LIMIT && old_self.lookup(a) is None && (#[trigger] self.lookup(a)) is Some implies start
                        <= a < start + (page_limit(pages@, k as int) - phys_start) by {
                    if before.lookup(a) is None {
                        assert(agrees_from(a, virt, page.spec_level().index(), 3));
                        lemma_indices_in_page(a, virt, page.spec_level());
                    } else {
                        assert(start <= a < start + (lim - phys_start));
                    }
                }
            }
            k = k + 1;
        }
        proof {
            let lim = if k == 0 { phys_start as int } else { page_limit(pages@, k - 1) };
            assert(lim == pend);
            assert forall|a: u64|
                a < VIRTUAL_ADDRESS_LIMIT && old_self.lookup(a) is None && (#[trigger] self.lookup(a)) is Some implies in_rounded(
                *region,
                a,
            ) by {
                assert(start <= a < start + (lim - phys_start));
            }
        }
        Ok(())
    }

    /// Maps every region that grants some right, each cut into the fewest
    /// aligned pages; regions without rights (guard pages, reserved memory)
    /// stay unmapped. Stops at the first page that cannot be mapped: an error
    /// names a region with rights that fails its checks or has a page whose
    /// mapping fails with that error on the resulting tree. Either way no
    /// translation is lost, and an address below 2^48 that gains one lies in
    /// a region with rights (its end rounded up to a page).
    #[verifier::spinoff_prover]
    #[verifier::rlimit(60)]
    pub fn map_all(&mut self, memory_regions: MemoryRegions) -> (r: Result<(), MapError>)
        requires
            old(self).wf(),
        ensures
            final(self).wf(),
            final(self).extends(old(self)),
            r is Ok ==> forall|i: int|
                0 <= i < memory_regions@.len() && has_rights(memory_regions@[i].perms)
                    ==> #[trigger] final(self).region_mapped(memory_regions@[i]),
            r matches Err(e) ==> exists|i: int|
                0 <= i < memory_regions@.len() && has_rights(memory_regions@[i].perms)
                    && #[trigger] final(self).region_fails(memory_regions@[i], e),
            forall|a: u64|
                a < VIRTUAL_ADDRESS_LIMIT && old(self).lookup(a) is None && (#[trigger] final(self).lookup(a)) is Some
                    ==> exists|i: int|
                    0 <= i < memory_regions@.len() && has_rights(memory_regions@[i].perms) && #[trigger] in_rounded(
                        memory_regions@[i],
                        a,
                    ),
    {
        let ghost old_self = *self;
        let count = memory_regions.len();
        let mut i: usize = 0;
        while i < count
            invariant
                self.wf(),
                old_self.wf(),
                old_self == *old(self),
                self.extends(&old_self),
                count == memory_regions@.len(),
                i <= count,
                forall|j: int|
                    0 <= j < i && has_rights(memory_regions@[j].perms) ==> #[trigger] self.region_mapped(
                        memory_regions@[j],
                    ),
                forall|a: u64|
                    a < VIRTUAL_ADDRESS_LIMIT && old_self.lookup(a) is None && (#[trigger] self.lookup(a)) is Some
                        ==> exists|j: int|
                        0 <= j < i && has_rights(memory_regions@[j].perms) && #[trigger] in_rounded(memory_regions@[j], a),
            decreases count - i,
        {
            let region = memory_regions.get(i);
            if region.perms.readable() || region.perms.writable() || region.perms.executable() {
                let ghost before = *self;
                match self.map_region(&region) {
                    Err(e) => {
                        proof {
                            lemma_extends_trans(&*self, &before, &old_self);
                            assert(memory_regions@[i as int] == region);
                            assert(self.region_fails(memory_regions@[i as int], e));
                            lemma_new_addresses_in_regions(&memory_regions, &old_self, &before, &*self, i as int);
                        }
                        return Err(e);
                    },
                    Ok(()) => {},
                }
                proof {
                    assert(memory_regions@[i as int] == region);
                    lemma_new_addresses_in_regions(&memory_regions, &old_self, &before, &*self, i as int);
                }
                proof {
                    lemma_extends_trans(&*self, &before, &old_self);
                    assert forall|j: int|
                        0 <= j < i + 1 && has_rights(memory_regions@[j].perms) implies #[trigger] self.region_mapped(
                        memory_regions@[j],
                    ) by {
                        if j < i {
                            let rj = memory_regions@[j];
                            assert(before.region_mapped(rj));
                            assert forall|a: u64|
                                rj.address.0 <= a < page_end(rj.end.0) implies #[trigger] self.translates_from(
                                a,
                                rj.address.0,
                                region_phys_start(rj),
                                rj.perms,
                            ) by {
                                assert(before.translates_from(a, rj.address.0, region_phys_start(rj), rj.perms));
                                lemma_translates_extends(
                                    &*self,
                                    &before,
                                    a,
                                    region_phys_start(rj) + (a - rj.address.0),
                                    rj.perms,
                                );
                            }
                        }
                    }
                }
            }
            i = i + 1;
        }
        Ok(())
    }

    /// Identity-maps the first 512 GiB with 1 GiB pages, readable, writable
    /// and executable, through a new table in root entry 0 (what that entry
    /// held before is dropped; the other root entries stay). Fails, changing
    /// nothing, only when the arena has no frame left for the table.
    pub fn dumb_map(&mut self) -> (r: Result<(), MapError>)
        requires
            old(self).wf(),
        ensures
            final(self).wf(),
            r is Err <==> old(self).node_count() >= MAX_TABLES,
            r is Err ==> *final(self) == *old(self),
            r is Ok ==> forall|a: u64|
                a < TERA_PAGE_SIZE ==> #[trigger] final(self).translates(a, a as int, Permission::rwx_spec()),
    {
        if self.tables.len() as u64 >= MAX_TABLES {
            return Err(MapError::OutOfTables);
        }
        map_low_giga_pages(self, 512);
        Ok(())
    }

    /// Whether entry `i` of node `n` is listed in `r`.
    pub open spec fn listed(&self, r: Seq<(usize, PageLevel, usize, Entry)>, n: int, i: int) -> bool {
        exists|k: int| 0 <= k < r.len() && #[trigger] r[k].0 == n && r[k].2 == i
    }

    /// Every valid entry of every node, as (node, its level, index, entry),
    /// in node order and, within a node, in index order: what a debug dump
    /// of the tree shows.
    #[verifier::spinoff_prover]
    #[verifier::rlimit(60)]
    pub fn valid_entries(&self) -> (r: Vec<(usize, PageLevel, usize, Entry)>)
        requires
            self.wf(),
        ensures
            forall|k: int|
                0 <= k < r@.len() ==> {
                    &&& #[trigger] r@[k].0 < self.node_count()
                    &&& r@[k].2 < PAGE_ENTRIES
                    &&& r@[k].1 == self.node_level(r@[k].0 as int)
                    &&& r@[k].3 == self.slot(r@[k].0 as int, r@[k].2 as int)
                    &&& r@[k].3.spec_valid()
                },
            forall|k: int, l: int|
                0 <= k < l < r@.len() ==> #[trigger] r@[k].0 < #[trigger] r@[l].0 || (r@[k].0 == r@[l].0 && r@[k].2 < r@[l].2),
            forall|n: int, i: int|
                0 <= n < self.node_count() && 0 <= i < PAGE_ENTRIES && (#[trigger] self.slot(n, i)).spec_valid()
                    ==> self.listed(r@, n, i),
    {
        let mut r: Vec<(usize, PageLevel, usize, Entry)> = Vec::new();
        let mut n: usize = 0;
        while n < self.tables.len()
            invariant
                self.wf(),
                n <= self.node_count(),
                forall|k: int|
                    0 <= k < r@.len() ==> {
                        &&& #[trigger] r@[k].0 < n
                        &&& r@[k].2 < PAGE_ENTRIES
                        &&& r@[k].1 == self.node_level(r@[k].0 as int)
                        &&& r@[k].3 == self.slot(r@[k].0 as int, r@[k].2 as int)
                        &&& r@[k].3.spec_valid()
                    },
                forall|k: int, l: int|
                    0 <= k < l < r@.len() ==> #[trigger] r@[k].0 < #[trigger] r@[l].0 || (r@[k].0 == r@[l].0 && r@[k].2 < r@[l].2),
                forall|m: int, i: int|
                    0 <= m < n && 0 <= i < PAGE_ENTRIES && (#[trigger] self.slot(m, i)).spec_valid() ==> self.listed(r@, m, i),
            decreases self.node_count() - n,
        {
            let level = self.tables[n].level;
            let mut i: usize = 0;
            while i < PAGE_ENTRIES
                invariant
                    self.wf(),
                    n < self.node_count(),
                    level == self.node_level(n as int),
                    i <= PAGE_ENTRIES,
                    forall|k: int|
                        0 <= k < r@.len() ==> {
                            &&& #[trigger] r@[k].0 <= n
                            &&& r@[k].0 == n ==> r@[k].2 < i
                            &&& r@[k].2 < PAGE_ENTRIES
                            &&& r@[k].1 == self.node_level(r@[k].0 as int)
                            &&& r@[k].3 == self.slot(r@[k].0 as int, r@[k].2 as int)
                            &&& r@[k].3.spec_valid()
                        },
                    forall|k: int, l: int|
                        0 <= k < l < r@.len() ==> #[trigger] r@[k].0 < #[trigger] r@[l].0 || (r@[k].0 == r@[l].0 && r@[k].2 < r@[l].2),
                    forall|m: int, j: int|
                        ((0 <= m < n && 0 <= j < PAGE_ENTRIES) || (m == n && 0 <= j < i)) && (#[trigger] self.slot(m, j)).spec_valid()
                            ==> self.listed(r@, m, j),
                decreases PAGE_ENTRIES - i,
            {
                let e = self.get_slot(n, i);
                if e.valid() {
                    let ghost before = r@;
                    r.push((n, level, i, e));
                    proof {
                        assert forall|m: int, j: int|
                            ((0 <= m < n && 0 <= j < PAGE_ENTRIES) || (m == n && 0 <= j < i + 1)) && (#[trigger] self.slot(m, j)).spec_valid()
                            implies self.listed(r@, m, j) by {
                            if m == n && j == i {
                                assert(r@[before.len() as int].0 == n);
                            } else {
                                assert(self.listed(before, m, j));
                                let k = choose|k: int| 0 <= k < before.len() && #[trigger] before[k].0 == m && before[k].2 == j;
                                assert(r@[k] == before[k]);
                            }
                        }
                    }
                }
                i = i + 1;
            }
            n = n + 1;
        }
        r
    }

    /// The value for the page-table-base register that selects four-level
    /// paging (mode 9, bits 60 to 63), address space `asid` (bits 44 to 59)
    /// and this tree's root (its page number, bits 0 to 43).
    pub fn satp(&self, asid: u16) -> (r: u64)
        requires
            self.wf(),
        ensures
            r == self.spec_base() / PAGE_SIZE + asid * 0x1000_0000_0000 + 9 * 0x1000_0000_0000_0000,
    {
        let ppn = PhysicalAddress(self.base).ppn();
        proof {
            assert(self.spec_base() < PHYSICAL_ADDRESS_LIMIT);
            assert(ppn == self.spec_base() / PAGE_SIZE);
        }
        ppn + (asid as u64) * 0x1000_0000_0000 + 9 * 0x1000_0000_0000_0000
    }

    /// Empties every entry of the root table; nodes below it stay in the
    /// arena, unreachable.
    fn clear_root(&mut self)
        requires
            old(self).wf(),
        ensures
            final(self).wf(),
            final(self).is_cleared(),
            forall|j: int| 0 <= j < PAGE_ENTRIES ==> (#[trigger] final(self).slot(0, j)).0 == 0,
            final(self).spec_base() == old(self).spec_base(),
            final(self).node_count() == old(self).node_count(),
    {
        let mut i: usize = 0;
        while i < PAGE_ENTRIES
            invariant
                self.wf(),
                self.spec_base() == old(self).spec_base(),
                self.node_count() == old(self).node_count(),
                i <= PAGE_ENTRIES,
                forall|j: int| 0 <= j < i ==> !(#[trigger] self.slot(0, j)).spec_valid(),
                forall|j: int| 0 <= j < i ==> (#[trigger] self.slot(0, j)).0 == 0,
            decreases PAGE_ENTRIES - i,
        {
            let ghost before = *self;
            self.set_slot(0, i, Entry::empty());
            proof {
                lemma_encode(0, 0, 0);
                assert forall|m: int, j: int|
                    0 <= m < self.tables@.len() && 0 <= j < PAGE_ENTRIES implies self.pointer_ok(m, #[trigger] self.slot(m, j)) by {
                    assert(before.pointer_ok(m, before.slot(m, j)));
                }
                lemma_owners_after_write(&*self, &before, 0, i as int);
                assert forall|j: int| 0 <= j < i + 1 implies !(#[trigger] self.slot(0, j)).spec_valid()
                    && self.slot(0, j).0 == 0 by {
                    if j < i {
                        assert(self.slot(0, j) == before.slot(0, j));
                    }
                }
            }
            i = i + 1;
        }
    }

    /// Whether no entry of the root table is valid.
    pub closed spec fn is_cleared(&self) -> bool {
        forall|i: int| 0 <= i < PAGE_ENTRIES ==> !(#[trigger] self.slot(0, i)).spec_valid()
    }

    /// The leaf that translates `v`, and its level, found by walking from
    /// the root with the indices of `v`; `None` where an invalid entry stops
    /// the walk.
    pub fn translate(&self, v: VirtualAddress) -> (r: Option<(Entry, PageLevel)>)
        requires
            self.wf(),
        ensures
            r == self.lookup(v.0),
    {
        self.walk_from(0, v, 3)
    }

    fn walk_from(&self, n: usize, v: VirtualAddress, fuel: u64) -> (r: Option<(Entry, PageLevel)>)
        requires
            self.wf(),
            n < self.node_count(),
            fuel == self.node_level(n as int).index(),
        ensures
            r == self.walk(n as int, v.0, fuel as nat),
        decreases fuel,
    {
        let level = self.tables[n].level;
        let index = v.vpn_for_level(level) as usize;
        let e = self.get_slot(n, index);
        if !e.valid() {
            None
        } else if e.leaf() {
            Some((e, level))
        } else if fuel == 0 {
            None
        } else {
            assert(self.pointer_ok(n as int, self.slot(n as int, index as int)));
            let child = ((e.address().0 - self.base) / PAGE_SIZE) as usize;
            self.walk_from(child, v, fuel - 1)
        }
    }

    fn probe_from(&self, n: usize, v: VirtualAddress, target: PageLevel, fuel: u64) -> (r: Result<(usize, PageLevel), MapError>)
        requires
            self.wf(),
            n < self.node_count(),
            fuel == self.node_level(n as int).index(),
        ensures
            match r {
                Err(e) => self.probe(n as int, v.0, target.index(), fuel as nat) == Err::<(int, nat), MapError>(e),
                Ok((m, l)) => {
                    &&& self.probe(n as int, v.0, target.index(), fuel as nat) == Ok::<(int, nat), MapError>((m as int, l.index()))
                    &&& m < self.node_count()
                    &&& self.node_level(m as int) == l
                    &&& fuel >= target.index() ==> l.index() >= target.index()
                },
            },
        decreases fuel,
    {
        let level = self.tables[n].level;
        let index = v.vpn_for_level(level) as usize;
        let e = self.get_slot(n, index);
        if fuel <= target.index_exec() {
            if e.valid() {
                Err(MapError::AlreadyMapped)
            } else {
                Ok((n, level))
            }
        } else if !e.valid() {
            Ok((n, level))
        } else if e.leaf() {
            Err(MapError::HugePageInTheWay)
        } else {
            assert(self.pointer_ok(n as int, self.slot(n as int, index as int)));
            let child = ((e.address().0 - self.base) / PAGE_SIZE) as usize;
            self.probe_from(child, v, target, fuel - 1)
        }
    }

    /// Installs `leaf` for `v` at level `target` below node `n`, creating
    /// the missing tables on the way.
    #[verifier::spinoff_prover]
    #[verifier::rlimit(60)]
    fn install(&mut self, n: usize, v: VirtualAddress, target: PageLevel, leaf: Entry, fuel: u64)
        requires
            old(self).wf(),
            n < old(self).node_count(),
            fuel == old(self).node_level(n as int).index(),
            target.index() <= fuel,
            leaf.spec_valid(),
            leaf.spec_is_leaf(),
            old(self).probe(n as int, v.0, target.index(), fuel as nat) is Ok,
            old(self).node_count() + (old(self).probe(n as int, v.0, target.index(), fuel as nat)->Ok_0.1
                - target.index()) <= MAX_TABLES,
        ensures
            final(self).wf(),
            final(self).extends(old(self)),
            final(self).walk(n as int, v.0, fuel as nat) == Some((leaf, target)),
            final(self).node_count() == old(self).node_count() + (old(self).probe(
                n as int,
                v.0,
                target.index(),
                fuel as nat,
            )->Ok_0.1 - target.index()),
            changed_to_leaf(
                &*final(self),
                &*old(self),
                old(self).probe(n as int, v.0, target.index(), fuel as nat)->Ok_0.0,
                vpn_index(v.0, old(self).probe(n as int, v.0, target.index(), fuel as nat)->Ok_0.1) as int,
                leaf,
                target,
                v.0,
            ),
        decreases fuel,
    {
        let ghost old_self = *self;
        let level = self.tables[n].level;
        let index = v.vpn_for_level(level) as usize;
        let e = self.get_slot(n, index);
        if fuel == target.index_exec() {
            self.set_slot(n, index, leaf);
            proof {
                assert(level == target);
                lemma_owners_after_write(&*self, &old_self, n as int, index as int);
                assert forall|m: int, i: int|
                    0 <= m < old_self.node_count() && 0 <= i < PAGE_ENTRIES && (#[trigger] old_self.slot(m, i)).spec_valid()
                    implies self.slot(m, i) == old_self.slot(m, i) by {
                    if m == n as int && i == index as int {
                    } else {
                    }
                }
                assert forall|m: int, i: int|
                    0 <= m < self.tables@.len() && 0 <= i < PAGE_ENTRIES implies self.pointer_ok(m, #[trigger] self.slot(m, i)) by {
                    assert(old_self.pointer_ok(m, old_self.slot(m, i)));
                }
                assert(old_self.probe(n as int, v.0, target.index(), fuel as nat) == Ok::<(int, nat), MapError>((n as int, fuel as nat)));
                assert(changed_to_leaf(&*self, &old_self, n as int, index as int, leaf, target, v.0));
            }
        } else if e.valid() {
            assert(old_self.pointer_ok(n as int, old_self.slot(n as int, index as int)));
            let child = ((e.address().0 - self.base) / PAGE_SIZE) as usize;
            self.install(child, v, target, leaf, fuel - 1);
            proof {
                assert(self.slot(n as int, index as int) == e);
                assert(old_self.probe(n as int, v.0, target.index(), fuel as nat) == old_self.probe(
                    child as int,
                    v.0,
                    target.index(),
                    (fuel - 1) as nat,
                ));
            }
        } else {
            let k = self.tables.len();
            let child_level = match level {
                PageLevel::Level3 => PageLevel::Level2,
                PageLevel::Level2 => PageLevel::Level1,
                _ => PageLevel::Level0,
            };
            let address = self.base + (k as u64) * PAGE_SIZE;
            self.tables.push(PageTable::allocate(child_level, address));
            let pointer = Entry::new(PhysicalAddress(address), pointer_flags());
            proof {
                lemma_aligned_page_bits(address);
                lemma_child_index(self.base, k as int);
            }
            self.set_slot(n, index, pointer);
            let ghost mid = *self;
            proof {
                assert(mid.slot(n as int, index as int) == pointer);
                assert(bit_set(pointer.0, 0) && !bit_set(pointer.0, 1) && !bit_set(pointer.0, 2) && !bit_set(pointer.0, 3));
                assert(mid.child_of(pointer) == k);
                assert forall|m: int| 0 <= m < mid.tables@.len() implies (#[trigger] mid.tables@[m]).wf()
                    && mid.tables@[m].spec_address() == mid.base + m * PAGE_SIZE by {
                    if m < k as int {
                        assert(old_self.tables@[m].wf());
                    }
                }
                assert forall|m: int, i: int|
                    0 <= m < mid.tables@.len() && 0 <= i < PAGE_ENTRIES implies mid.pointer_ok(m, #[trigger] mid.slot(m, i)) by {
                    if m == k as int {
                        assert(mid.slot(m, i).0 == 0);
                        lemma_encode(0, 0, 0);
                    } else if m == n as int && i == index as int {
                    } else {
                        assert(old_self.pointer_ok(m, old_self.slot(m, i)));
                        assert(mid.slot(m, i) == old_self.slot(m, i));
                    }
                }
                assert forall|m: int, j: int|
                    old_self.node_count() <= m < mid.node_count() && 0 <= j < PAGE_ENTRIES implies !is_pointer(#[trigger] mid.slot(m, j)) by {
                    assert(mid.slot(m, j).0 == 0);
                    lemma_encode(0, 0, 0);
                }
                lemma_owners_after_write(&mid, &old_self, n as int, index as int);
                assert(mid.wf());
                let ki = vpn_index(v.0, child_level.index()) as int;
                assert(mid.slot(k as int, ki).0 == 0);
                lemma_encode(0, 0, 0);
                assert(!mid.slot(k as int, ki).spec_valid());
            }
            proof {
                assert forall|m: int, i: int|
                    0 <= m < old_self.node_count() && 0 <= i < PAGE_ENTRIES && (#[trigger] old_self.slot(m, i)).spec_valid()
                    implies mid.slot(m, i) == old_self.slot(m, i) by {
                    if m == n as int && i == index as int {
                    } else {
                    }
                }
                assert(mid.extends(&old_self));
            }
            proof {
                assert(mid.probe(k as int, v.0, target.index(), (fuel - 1) as nat) == Ok::<(int, nat), MapError>((k as int, (fuel - 1) as nat)));
            }
            self.install(k, v, target, leaf, fuel - 1);
            proof {
                assert(self.slot(n as int, index as int) == pointer);
                lemma_extends_trans(&*self, &mid, &old_self);
                lemma_install_fresh_child(&*self, &mid, &old_self, n as int, index as int, k as int, v.0, leaf, target);
                assert(old_self.probe(n as int, v.0, target.index(), fuel as nat) == Ok::<(int, nat), MapError>((n as int, fuel as nat)));
            }
        }
    }

    fn get_slot(&self, n: usize, i: usize) -> (r: Entry)
        requires
            self.wf(),
            n < self.node_count(),
            i < PAGE_ENTRIES,
        ensures
            r == self.slot(n as int, i as int),
    {
        self.tables[n].entries[i]
    }

    fn set_slot(&mut self, n: usize, i: usize, e: Entry)
        requires
            n < old(self).node_count(),
            i < old(self).tables@[n as int].spec_entries().len(),
        ensures
            final(self).base == old(self).base,
            final(self).tables@.len() == old(self).tables@.len(),
            forall|m: int| 0 <= m < old(self).tables@.len() && m != n ==> #[trigger] final(self).tables@[m] == old(self).tables@[m],
            final(self).tables@[n as int].spec_level() == old(self).tables@[n as int].spec_level(),
            final(self).tables@[n as int].spec_address() == old(self).tables@[n as int].spec_address(),
            final(self).tables@[n as int].spec_entries() == old(self).tables@[n as int].spec_entries().update(i as int, e),
    {
        self.tables[n].entries.set(i, e);
    }
}

} // verus!
