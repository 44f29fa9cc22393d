//! One page-table slot: a physical page number packed with flag bits, laid
//! out as the hardware reads it.
use vstd::prelude::*;

use crate::address::{physical_page_bits, PhysicalAddress};
use crate::bits::{bit_set, lemma_address_fields, lemma_set_bit};
use crate::permission::{Permission, Permissions};

verus! {

/// Entry is valid.
pub const FLAG_V: u64 = 0x1;
/// Leaf that may be read.
pub const FLAG_R: u64 = 0x2;
/// Leaf that may be written.
pub const FLAG_W: u64 = 0x4;
/// Leaf that may be executed.
pub const FLAG_X: u64 = 0x8;
/// Accessible from user mode.
pub const FLAG_U: u64 = 0x10;
/// Global mapping, present in every address space.
pub const FLAG_G: u64 = 0x20;
/// Accessed since the bit was last cleared.
pub const FLAG_A: u64 = 0x40;
/// Written since the bit was last cleared.
pub const FLAG_D: u64 = 0x80;
/// Bits 10 to 53: the physical page number.
pub const PTE_PPN_MASK: u64 = 0x003f_ffff_ffff_fc00;
/// A 44-bit page number.
pub const PPN_BITS: u64 = 0xfff_ffff_ffff;

/// The word that holds the page number of `address` and the non-address
/// bits of `flags`.
pub open spec fn encode(address: u64, flags: u64) -> u64 {
    ((address >> 12) & PPN_BITS) << 10 | (flags & !PTE_PPN_MASK)
}

/// The physical address that the page-number bits of `word` name.
pub open spec fn decode_address(word: u64) -> u64 {
    ((word >> 10) & PPN_BITS) << 12
}

/// `x` with bit `i` set to `b`.
pub open spec fn with_bit(x: u64, i: u64, b: bool) -> u64 {
    if b {
        x | (1u64 << i)
    } else {
        x & !(1u64 << i)
    }
}

/// `new` has bit `i` equal to `b` and every other bit as in `old`.
pub open spec fn bit_changed(new: u64, old: u64, i: u64, b: bool) -> bool {
    forall|j: u64| j < 64 ==> #[trigger] bit_set(new, j) == (if j == i { b } else { bit_set(old, j) })
}

/// `x` with its page-number field replaced by that of `address`.
pub open spec fn with_page(x: u64, address: u64) -> u64 {
    (x & !PTE_PPN_MASK) | ((address >> 12) & PPN_BITS) << 10
}

/// Encoding then decoding keeps the page-number bits of the address and the
/// flag bits, and nothing else.
pub proof fn lemma_encode(address: u64, flags: u64, i: u64)
    by (bit_vector)
    requires
        i < 10,
    ensures
        decode_address(encode(address, flags)) == address & 0x00ff_ffff_ffff_f000,
        encode(address, flags) & !PTE_PPN_MASK == flags & !PTE_PPN_MASK,
        (encode(address, flags) >> i) & 1 == (flags >> i) & 1,
        ((flags & !PTE_PPN_MASK) >> i) & 1 == (flags >> i) & 1,
        decode_address(with_page(flags, address)) == address & 0x00ff_ffff_ffff_f000,
        (with_page(flags, address) >> i) & 1 == (flags >> i) & 1,
        with_page(flags, address) & !PTE_PPN_MASK == flags & !PTE_PPN_MASK,
        encode(address, flags) == with_page(flags & !PTE_PPN_MASK, address),
        decode_address(0) == 0,
        (0u64 >> i) & 1 == 0,
{
}

/// Software-reserved bits 8 and 9.
#[derive(Clone, Copy, Debug, PartialEq, Eq, Structural, Hash)]
pub enum Rsw {
    Rsw0,
    Rsw1,
    Rsw2,
    Rsw3,
}

/// Memory type of a page (Svpbmt), bits 61 and 62.
#[derive(Clone, Copy, Debug, PartialEq, Eq, Structural, Hash)]
pub enum Pbmt {
    Pma,
    Nc,
    Io,
    _Reserved,
}

/// The software bits that the 2-bit value `v` encodes.
pub open spec fn rsw_of(v: u64) -> Rsw {
    if v == 0 {
        Rsw::Rsw0
    } else if v == 1 {
        Rsw::Rsw1
    } else if v == 2 {
        Rsw::Rsw2
    } else {
        Rsw::Rsw3
    }
}

/// The memory type that the 2-bit value `v` encodes.
pub open spec fn pbmt_of(v: u64) -> Pbmt {
    if v == 0 {
        Pbmt::Pma
    } else if v == 1 {
        Pbmt::Nc
    } else if v == 2 {
        Pbmt::Io
    } else {
        Pbmt::_Reserved
    }
}

fn rsw_from(v: u64) -> (r: Rsw)
    ensures
        r == rsw_of(v),
{
    if v == 0 {
        Rsw::Rsw0
    } else if v == 1 {
        Rsw::Rsw1
    } else if v == 2 {
        Rsw::Rsw2
    } else {
        Rsw::Rsw3
    }
}

fn pbmt_from(v: u64) -> (r: Pbmt)
    ensures
        r == pbmt_of(v),
{
    if v == 0 {
        Pbmt::Pma
    } else if v == 1 {
        Pbmt::Nc
    } else if v == 2 {
        Pbmt::Io
    } else {
        Pbmt::_Reserved
    }
}

fn get_bit(x: u64, i: u64) -> (r: bool)
    requires
        i < 64,
    ensures
        r == bit_set(x, i),
{
    (x >> i) & 1 == 1
}

fn set_bit(x: u64, i: u64, b: bool) -> (r: u64)
    requires
        i < 64,
    ensures
        r == with_bit(x, i, b),
        bit_changed(r, x, i, b),
{
    proof {
        assert forall|j: u64| j < 64 implies #[trigger] bit_set(with_bit(x, i, b), j) == (if j == i {
            b
        } else {
            bit_set(x, j)
        }) by {
            lemma_set_bit(x, i, j);
        }
    }
    if b {
        x | (1u64 << i)
    } else {
        x & !(1u64 << i)
    }
}

/// The flag bits of an entry, as a 64-bit word.
#[derive(Clone, Copy, Debug, PartialEq, Eq, Structural, Hash)]
pub struct EntryFlags {
    pub bits: u64,
}

impl EntryFlags {
    /// Bit V.
    pub open spec fn spec_valid(self) -> bool {
        bit_set(self.bits, 0)
    }

    /// Bits R, W and X.
    pub open spec fn spec_permissions(self) -> Permissions {
        Permissions {
            read: bit_set(self.bits, 1),
            write: bit_set(self.bits, 2),
            execute: bit_set(self.bits, 3),
        }
    }

    /// A leaf maps a page; a valid entry with none of R, W and X points at a
    /// child table.
    pub open spec fn spec_is_leaf(self) -> bool {
        bit_set(self.bits, 1) || bit_set(self.bits, 2) || bit_set(self.bits, 3)
    }

    /// A builder that starts from no bits set.
    pub fn builder() -> (r: EntryFlagsBuilder)
        ensures
            r.entry.bits == 0,
    {
        EntryFlagsBuilder { entry: EntryFlags { bits: 0 } }
    }

    /// The flags with every bit given.
    pub fn from_bits(bits: u64) -> (r: EntryFlags)
        ensures
            r.bits == bits,
    {
        EntryFlags { bits }
    }

    /// The raw word.
    pub fn bits(&self) -> (r: u64)
        ensures
            r == self.bits,
    {
        self.bits
    }

    /// These flags without the page-number bits.
    pub fn just_flags(&self) -> (r: EntryFlags)
        ensures
            r.bits == self.bits & !PTE_PPN_MASK,
    {
        EntryFlags { bits: self.bits & !PTE_PPN_MASK }
    }

    /// Bits 10 to 18: lowest 9 bits of the page number.
    pub fn ppn_0(self) -> (r: u64)
        ensures
            r == (self.bits >> 10) & 0x1ff,
    {
        (self.bits >> 10) & 0x1ff
    }

    /// Bits 19 to 27: next 9 bits of the page number.
    pub fn ppn_1(self) -> (r: u64)
        ensures
            r == (self.bits >> 19) & 0x1ff,
    {
        (self.bits >> 19) & 0x1ff
    }

    /// Bits 28 to 53: highest 26 bits of the page number.
    pub fn ppn_2(self) -> (r: u64)
        ensures
            r == (self.bits >> 28) & 0x3ff_ffff,
    {
        (self.bits >> 28) & 0x3ff_ffff
    }

    /// The physical address that the page-number bits name.
    pub fn address(self) -> (r: PhysicalAddress)
        ensures
            r.0 == decode_address(self.bits),
    {
        PhysicalAddress(((self.bits >> 10) & PPN_BITS) << 12)
    }

    /// Software-reserved bits 8 and 9.
    pub fn rsw(self) -> (r: Rsw)
        ensures
            r == rsw_of((self.bits >> 8) & 3),
    {
        rsw_from((self.bits >> 8) & 3)
    }

    /// Memory type, bits 61 and 62.
    pub fn pbmt(self) -> (r: Pbmt)
        ensures
            r == pbmt_of((self.bits >> 61) & 3),
    {
        pbmt_from((self.bits >> 61) & 3)
    }

    /// Bit V.
    pub fn valid(self) -> (r: bool)
        ensures
            r == self.spec_valid(),
    {
        get_bit(self.bits, 0)
    }

    /// Whether at least one of R, W and X is set.
    pub fn is_leaf(self) -> (r: bool)
        ensures
            r == self.spec_is_leaf(),
    {
        !self.permissions().is_none()
    }

    /// Bits R, W and X.
    pub fn permissions(self) -> (r: Permissions)
        ensures
            r == self.spec_permissions(),
    {
        Permissions {
            read: get_bit(self.bits, 1),
            write: get_bit(self.bits, 2),
            execute: get_bit(self.bits, 3),
        }
    }

    /// Bit U.
    pub fn user_accessible(self) -> (r: bool)
        ensures
            r == bit_set(self.bits, 4),
    {
        get_bit(self.bits, 4)
    }

    /// Bit G.
    pub fn global(self) -> (r: bool)
        ensures
            r == bit_set(self.bits, 5),
    {
        get_bit(self.bits, 5)
    }

    /// Bit A.
    pub fn accessed(self) -> (r: bool)
        ensures
            r == bit_set(self.bits, 6),
    {
        get_bit(self.bits, 6)
    }

    /// Bit D.
    pub fn dirty(self) -> (r: bool)
        ensures
            r == bit_set(self.bits, 7),
    {
        get_bit(self.bits, 7)
    }
}

/// Assembles entry flags one field at a time.
#[derive(Clone, Copy, Debug, PartialEq, Eq, Structural)]
pub struct EntryFlagsBuilder {
    pub entry: EntryFlags,
}

impl EntryFlagsBuilder {
    /// Sets the page-number field to that of the physical address `offset`.
    pub fn for_offset(self, offset: u64) -> (r: Self)
        ensures
            r.entry.bits == with_page(self.entry.bits, offset),
    {
        EntryFlagsBuilder {
            entry: EntryFlags {
                bits: (self.entry.bits & !PTE_PPN_MASK) | ((offset >> 12) & PPN_BITS) << 10,
            },
        }
    }

    /// Sets or clears V.
    pub fn valid(self, preset: bool) -> (r: Self)
        ensures
            r.entry.bits == with_bit(self.entry.bits, 0, preset),
            bit_changed(r.entry.bits, self.entry.bits, 0, preset),
    {
        EntryFlagsBuilder { entry: EntryFlags { bits: set_bit(self.entry.bits, 0, preset) } }
    }

    /// Sets or clears R.
    pub fn readable(self, preset: bool) -> (r: Self)
        ensures
            r.entry.bits == with_bit(self.entry.bits, 1, preset),
            bit_changed(r.entry.bits, self.entry.bits, 1, preset),
    {
        EntryFlagsBuilder { entry: EntryFlags { bits: set_bit(self.entry.bits, 1, preset) } }
    }

    /// Sets or clears W.
    pub fn writable(self, preset: bool) -> (r: Self)
        ensures
            r.entry.bits == with_bit(self.entry.bits, 2, preset),
            bit_changed(r.entry.bits, self.entry.bits, 2, preset),
    {
        EntryFlagsBuilder { entry: EntryFlags { bits: set_bit(self.entry.bits, 2, preset) } }
    }

    /// Sets or clears X.
    pub fn executable(self, preset: bool) -> (r: Self)
        ensures
            r.entry.bits == with_bit(self.entry.bits, 3, preset),
            bit_changed(r.entry.bits, self.entry.bits, 3, preset),
    {
        EntryFlagsBuilder { entry: EntryFlags { bits: set_bit(self.entry.bits, 3, preset) } }
    }

    /// Sets R, W and X from `perm`; `None` for the reserved combination of
    /// write without read.
    pub fn with_permissions(self, perm: Permission) -> (r: Option<Self>)
        ensures
            r.is_none() == (perm.spec_writable() && !perm.spec_readable()),
            r.is_some() ==> r.unwrap().entry.spec_permissions() == perm.permissions_spec(),
            r.is_some() ==> forall|j: u64|
                j < 64 && (j < 1 || j > 3) ==> #[trigger] bit_set(r.unwrap().entry.bits, j)
                    == bit_set(self.entry.bits, j),
    {
        if perm.writable() && !perm.readable() {
            None
        } else {
            Some(self.readable(perm.readable()).writable(perm.writable()).executable(perm.executable()))
        }
    }

    /// The flags assembled so far.
    pub fn build(self) -> (r: EntryFlags)
        ensures
            r == self.entry,
    {
        self.entry
    }
}

/// One page-table slot.
#[derive(Clone, Copy, Debug, PartialEq, Eq, Structural, Hash)]
pub struct Entry(pub u64);

impl Entry {
    /// The physical address that the entry names.
    pub open spec fn spec_address(self) -> PhysicalAddress {
        PhysicalAddress(decode_address(self.0))
    }

    /// All bits but the page number.
    pub open spec fn spec_flags(self) -> EntryFlags {
        EntryFlags { bits: self.0 & !PTE_PPN_MASK }
    }

    /// Bit V.
    pub open spec fn spec_valid(self) -> bool {
        bit_set(self.0, 0)
    }

    /// Whether the entry maps a page rather than a child table.
    pub open spec fn spec_is_leaf(self) -> bool {
        bit_set(self.0, 1) || bit_set(self.0, 2) || bit_set(self.0, 3)
    }

    /// Bits R, W and X.
    pub open spec fn spec_permissions(self) -> Permissions {
        Permissions { read: bit_set(self.0, 1), write: bit_set(self.0, 2), execute: bit_set(self.0, 3) }
    }

    /// The entry that `Entry::new(address, flags)` builds.
    pub open spec fn spec_new(address: PhysicalAddress, flags: EntryFlags) -> Entry {
        Entry(encode(address.0, flags.bits))
    }

    /// The entry with every bit clear: not valid, no address.
    pub fn empty() -> (r: Entry)
        ensures
            r.0 == 0,
            !r.spec_valid(),
            r.spec_address().0 == 0,
    {
        proof { lemma_encode(0, 0, 0); }
        Entry(0)
    }

    /// The entry holding the page number of `address` and the non-address
    /// bits of `flags`; the offset bits of `address` are not kept.
    pub fn new(address: PhysicalAddress, flags: EntryFlags) -> (r: Entry)
        ensures
            r == Entry::spec_new(address, flags),
            r.spec_address().0 == physical_page_bits(address.0),
            r.spec_flags().bits == flags.bits & !PTE_PPN_MASK,
            forall|i: u64| i < 10 ==> #[trigger] bit_set(r.0, i) == bit_set(flags.bits, i),
    {
        proof {
            lemma_encode(address.0, flags.bits, 0);
            lemma_address_fields(address.0);
            assert forall|i: u64| i < 10 implies #[trigger] bit_set(encode(address.0, flags.bits), i)
                == bit_set(flags.bits, i) by {
                lemma_encode(address.0, flags.bits, i);
            }
        }
        Entry(((address.0 >> 12) & PPN_BITS) << 10 | (flags.bits & !PTE_PPN_MASK))
    }

    /// The physical address of the page (or child table) the entry names.
    pub fn address(&self) -> (r: PhysicalAddress)
        ensures
            r == self.spec_address(),
    {
        PhysicalAddress(((self.0 >> 10) & PPN_BITS) << 12)
    }

    /// Every bit but the page number.
    pub fn flags(&self) -> (r: EntryFlags)
        ensures
            r == self.spec_flags(),
    {
        EntryFlags { bits: self.0 & !PTE_PPN_MASK }
    }

    /// Whether every bit is zero.
    pub fn is_empty(&self) -> (r: bool)
        ensures
            r == (self.0 == 0),
    {
        self.0 == 0
    }

    /// The raw word.
    pub fn bits(&self) -> (r: u64)
        ensures
            r == self.0,
    {
        self.0
    }

    /// A builder that starts from the empty entry.
    pub fn builder() -> (r: EntryBuilder)
        ensures
            r.entry.0 == 0,
    {
        EntryBuilder { entry: Entry(0) }
    }

    /// Bit V.
    pub fn valid(self) -> (r: bool)
        ensures
            r == self.spec_valid(),
    {
        get_bit(self.0, 0)
    }

    /// Bit R.
    pub fn read(self) -> (r: bool)
        ensures
            r == bit_set(self.0, 1),
    {
        get_bit(self.0, 1)
    }

    /// Bit W.
    pub fn write(self) -> (r: bool)
        ensures
            r == bit_set(self.0, 2),
    {
        get_bit(self.0, 2)
    }

    /// Bit X.
    pub fn execute(self) -> (r: bool)
        ensures
            r == bit_set(self.0, 3),
    {
        get_bit(self.0, 3)
    }

    /// Bit U.
    pub fn user(self) -> (r: bool)
        ensures
            r == bit_set(self.0, 4),
    {
        get_bit(self.0, 4)
    }

    /// Bit U.
    pub fn user_accessible(self) -> (r: bool)
        ensures
            r == bit_set(self.0, 4),
    {
        get_bit(self.0, 4)
    }

    /// Bit G.
    pub fn global(self) -> (r: bool)
        ensures
            r == bit_set(self.0, 5),
    {
        get_bit(self.0, 5)
    }

    /// Bit A.
    pub fn accessed(self) -> (r: bool)
        ensures
            r == bit_set(self.0, 6),
    {
        get_bit(self.0, 6)
    }

    /// Bit D.
    pub fn dirty(self) -> (r: bool)
        ensures
            r == bit_set(self.0, 7),
    {
        get_bit(self.0, 7)
    }

    /// Software-reserved bits 8 and 9.
    pub fn rsw(self) -> (r: Rsw)
        ensures
            r == rsw_of((self.0 >> 8) & 3),
    {
        rsw_from((self.0 >> 8) & 3)
    }

    /// Memory type, bits 61 and 62.
    pub fn pbmt(self) -> (r: Pbmt)
        ensures
            r == pbmt_of((self.0 >> 61) & 3),
    {
        pbmt_from((self.0 >> 61) & 3)
    }

    /// Bits R, W and X.
    pub fn permissions(self) -> (r: Permissions)
        ensures
            r == self.spec_permissions(),
    {
        Permissions { read: self.read(), write: self.write(), execute: self.execute() }
    }

    /// Bits 10 to 18: lowest 9 bits of the page number.
    pub fn ppn_0(self) -> (r: u64)
        ensures
            r == (self.0 >> 10) & 0x1ff,
    {
        (self.0 >> 10) & 0x1ff
    }

    /// Bits 19 to 27: next 9 bits of the page number.
    pub fn ppn_1(self) -> (r: u64)
        ensures
            r == (self.0 >> 19) & 0x1ff,
    {
        (self.0 >> 19) & 0x1ff
    }

    /// Bits 28 to 53: highest 26 bits of the page number.
    pub fn ppn_2(self) -> (r: u64)
        ensures
            r == (self.0 >> 28) & 0x3ff_ffff,
    {
        (self.0 >> 28) & 0x3ff_ffff
    }

    /// Bits 10 to 18, as `ppn_0`.
    pub fn ppn0(self) -> (r: u64)
        ensures
            r == (self.0 >> 10) & 0x1ff,
    {
        self.ppn_0()
    }

    /// Bits 19 to 27, as `ppn_1`.
    pub fn ppn1(self) -> (r: u64)
        ensures
            r == (self.0 >> 19) & 0x1ff,
    {
        self.ppn_1()
    }

    /// Bits 28 to 53, as `ppn_2`.
    pub fn ppn2(self) -> (r: u64)
        ensures
            r == (self.0 >> 28) & 0x3ff_ffff,
    {
        self.ppn_2()
    }

    /// Reserved bits 54 to 60, which must be zero.
    pub fn reserved(self) -> (r: u64)
        ensures
            r == (self.0 >> 54) & 0x7f,
    {
        (self.0 >> 54) & 0x7f
    }

    /// Whether the entry maps a page: at least one of R, W and X is set.
    pub fn leaf(self) -> (r: bool)
        ensures
            r == self.spec_is_leaf(),
    {
        self.read() || self.write() || self.execute()
    }

    /// Whether the entry would point at a child table: none of R, W and X
    /// is set.
    pub fn non_leaf(self) -> (r: bool)
        ensures
            r == !self.spec_is_leaf(),
    {
        !self.leaf()
    }
}

/// The entry `Entry::new(p, f)` holds exactly the page-number bits of `p`
/// (bits 12 to 55, no offset) and the non-address bits of `f`.
pub proof fn lemma_entry_round_trip(p: PhysicalAddress, f: EntryFlags)
    ensures
        Entry::spec_new(p, f).spec_address() == PhysicalAddress(physical_page_bits(p.0)),
        Entry::spec_new(p, f).spec_address().0 % 0x1000 == 0,
        Entry::spec_new(p, f).spec_flags() == (EntryFlags { bits: f.bits & !PTE_PPN_MASK }),
{
    lemma_encode(p.0, f.bits, 0);
    lemma_address_fields(p.0);
}

/// Assembles an entry one field at a time.
#[derive(Clone, Copy, Debug, PartialEq, Eq, Structural)]
pub struct EntryBuilder {
    pub entry: Entry,
}

impl EntryBuilder {
    /// Sets the page-number field to that of the physical address `offset`.
    pub fn for_offset(self, offset: u64) -> (r: Self)
        ensures
            r.entry.0 == with_page(self.entry.0, offset),
    {
        EntryBuilder { entry: Entry((self.entry.0 & !PTE_PPN_MASK) | ((offset >> 12) & PPN_BITS) << 10) }
    }

    /// Sets or clears V.
    pub fn valid(self, preset: bool) -> (r: Self)
        ensures
            r.entry.0 == with_bit(self.entry.0, 0, preset),
            bit_changed(r.entry.0, self.entry.0, 0, preset),
    {
        EntryBuilder { entry: Entry(set_bit(self.entry.0, 0, preset)) }
    }

    /// Sets or clears R.
    pub fn readable(self, preset: bool) -> (r: Self)
        ensures
            r.entry.0 == with_bit(self.entry.0, 1, preset),
            bit_changed(r.entry.0, self.entry.0, 1, preset),
    {
        EntryBuilder { entry: Entry(set_bit(self.entry.0, 1, preset)) }
    }

    /// Sets or clears W.
    pub fn writable(self, preset: bool) -> (r: Self)
        ensures
            r.entry.0 == with_bit(self.entry.0, 2, preset),
            bit_changed(r.entry.0, self.entry.0, 2, preset),
    {
        EntryBuilder { entry: Entry(set_bit(self.entry.0, 2, preset)) }
    }

    /// Sets or clears X.
    pub fn executable(self, preset: bool) -> (r: Self)
        ensures
            r.entry.0 == with_bit(self.entry.0, 3, preset),
            bit_changed(r.entry.0, self.entry.0, 3, preset),
    {
        EntryBuilder { entry: Entry(set_bit(self.entry.0, 3, preset)) }
    }

    /// The entry assembled so far.
    pub fn build(self) -> (r: Entry)
        ensures
            r == self.entry,
    {
        self.entry
    }
}

} // verus!
