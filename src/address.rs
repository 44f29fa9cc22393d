//! Physical and virtual addresses and their page-number fields.
use vstd::prelude::*;

use crate::bits::lemma_address_fields;
use crate::level::PageLevel;

verus! {

/// Size of a base page: 4 KiB.
pub const PAGE_SIZE: u64 = 0x1000;
/// Size of a level-1 leaf: 2 MiB.
pub const MEGA_PAGE_SIZE: u64 = 0x20_0000;
/// Size of a level-2 leaf: 1 GiB.
pub const GIGA_PAGE_SIZE: u64 = 0x4000_0000;
/// Size of a level-3 leaf: 512 GiB.
pub const TERA_PAGE_SIZE: u64 = 0x80_0000_0000;
/// Number of entries in one page table.
pub const PAGE_ENTRIES: usize = 512;
/// One past the highest virtual address that four levels translate (2^48).
pub const VIRTUAL_ADDRESS_LIMIT: u64 = 0x1_0000_0000_0000;
/// One past the highest physical address that an entry can hold (2^56).
pub const PHYSICAL_ADDRESS_LIMIT: u64 = 0x100_0000_0000_0000;

/// Paging schemes of the architecture.
#[derive(Clone, Copy, Debug, PartialEq, Eq, Structural, Hash)]
pub enum VirtualMemorySystem {
    Sv39,
    Sv48,
    Sv57,
}

/// The page-aligned part of a physical address that an entry can hold:
/// bits 12 to 55.
pub open spec fn physical_page_bits(p: u64) -> u64 {
    ((p % PHYSICAL_ADDRESS_LIMIT) / PAGE_SIZE * PAGE_SIZE) as u64
}

/// A 64-bit virtual address.
#[derive(Clone, Copy, Debug, PartialEq, Eq, Structural, Hash, PartialOrd, Ord)]
pub struct VirtualAddress(pub u64);

/// A 64-bit physical address.
#[derive(Clone, Copy, Debug, PartialEq, Eq, Structural, Hash, PartialOrd, Ord)]
pub struct PhysicalAddress(pub u64);

impl VirtualAddress {
    /// The address as a virtual address if no bit above bit 47 is set.
    pub fn new(address: u64) -> (r: Option<VirtualAddress>)
        ensures
            r == (if address < VIRTUAL_ADDRESS_LIMIT {
                Some(VirtualAddress(address))
            } else {
                None
            }),
    {
        proof { lemma_address_fields(address); }
        if address & !0xffff_ffff_ffffu64 != 0 {
            None
        } else {
            Some(VirtualAddress(address))
        }
    }

    /// Offset within a page, in `0..4096`.
    pub fn offset_in_vpn(self) -> (r: u64)
        ensures
            r == self.0 % PAGE_SIZE,
    {
        proof { lemma_address_fields(self.0); }
        self.0 & 0xfff
    }

    /// Address of the page that holds this address, within the 48 bits that
    /// are translated.
    pub fn page_address(self) -> (r: VirtualAddress)
        ensures
            r.0 == (self.0 % VIRTUAL_ADDRESS_LIMIT) / PAGE_SIZE * PAGE_SIZE,
    {
        proof { lemma_address_fields(self.0); }
        VirtualAddress(self.0 & 0xffff_ffff_f000)
    }

    /// Virtual page number: the 36 bits above the page offset.
    pub fn vpn(self) -> (r: u64)
        ensures
            r == (self.0 % VIRTUAL_ADDRESS_LIMIT) / PAGE_SIZE,
    {
        proof { lemma_address_fields(self.0); }
        (self.0 & 0xffff_ffff_f000) >> 12
    }

    /// Index into a level-0 table.
    pub fn vpn_0(self) -> (r: u64)
        ensures
            r == vpn_index(self.0, 0),
    {
        proof { lemma_address_fields(self.0); }
        (self.0 >> 12) & 0x1ff
    }

    /// Index into a level-1 table.
    pub fn vpn_1(self) -> (r: u64)
        ensures
            r == vpn_index(self.0, 1),
    {
        proof { lemma_address_fields(self.0); }
        (self.0 >> 21) & 0x1ff
    }

    /// Index into a level-2 table.
    pub fn vpn_2(self) -> (r: u64)
        ensures
            r == vpn_index(self.0, 2),
    {
        proof { lemma_address_fields(self.0); }
        (self.0 >> 30) & 0x1ff
    }

    /// Index into the level-3 (root) table.
    pub fn vpn_3(self) -> (r: u64)
        ensures
            r == vpn_index(self.0, 3),
    {
        proof { lemma_address_fields(self.0); }
        (self.0 >> 39) & 0x1ff
    }

    /// Index into a table at `level`.
    pub fn vpn_for_level(self, level: PageLevel) -> (r: u64)
        ensures
            r == vpn_index(self.0, level.index()),
            r < 512,
    {
        match level {
            PageLevel::Level0 => self.vpn_0(),
            PageLevel::Level1 => self.vpn_1(),
            PageLevel::Level2 => self.vpn_2(),
            PageLevel::Level3 => self.vpn_3(),
        }
    }
}

/// Size of the region that one entry of a table at `level` covers.
pub open spec fn level_span(level: nat) -> u64 {
    if level == 0 {
        PAGE_SIZE
    } else if level == 1 {
        MEGA_PAGE_SIZE
    } else if level == 2 {
        GIGA_PAGE_SIZE
    } else {
        TERA_PAGE_SIZE
    }
}

/// The 9-bit index that virtual address `v` selects in a table at `level`.
pub open spec fn vpn_index(v: u64, level: nat) -> u64 {
    (v / level_span(level)) % 512
}

impl PhysicalAddress {
    /// Offset within the physical page (frame).
    pub fn offset_in_ppn(self) -> (r: u64)
        ensures
            r == self.0 % PAGE_SIZE,
    {
        proof { lemma_address_fields(self.0); }
        self.0 & 0xfff
    }

    /// Offset within the physical page (frame).
    pub fn offset(self) -> (r: u64)
        ensures
            r == self.0 % PAGE_SIZE,
    {
        self.offset_in_ppn()
    }

    /// Offset within the physical page (frame).
    pub fn page_offset(self) -> (r: u64)
        ensures
            r == self.0 % PAGE_SIZE,
    {
        self.offset_in_ppn()
    }

    /// Physical page (frame) number: bits 12 to 55.
    pub fn ppn(self) -> (r: u64)
        ensures
            r == (self.0 / PAGE_SIZE) % 0x1000_0000_0000,
    {
        proof { lemma_address_fields(self.0); }
        (self.0 >> 12) & 0xfff_ffff_ffff
    }

    /// Bits 12 to 20 of the address.
    pub fn ppn_0(self) -> (r: u64)
        ensures
            r == (self.0 / PAGE_SIZE) % 512,
    {
        proof { lemma_address_fields(self.0); }
        (self.0 >> 12) & 0x1ff
    }

    /// Bits 21 to 29 of the address.
    pub fn ppn_1(self) -> (r: u64)
        ensures
            r == (self.0 / MEGA_PAGE_SIZE) % 512,
    {
        proof { lemma_address_fields(self.0); }
        (self.0 >> 21) & 0x1ff
    }

    /// Bits 30 to 38 of the address.
    pub fn ppn_2(self) -> (r: u64)
        ensures
            r == (self.0 / GIGA_PAGE_SIZE) % 512,
    {
        proof { lemma_address_fields(self.0); }
        (self.0 >> 30) & 0x1ff
    }

    /// Bits 39 to 55 of the address.
    pub fn ppn_3(self) -> (r: u64)
        ensures
            r == (self.0 / TERA_PAGE_SIZE) % 0x2_0000,
    {
        proof { lemma_address_fields(self.0); }
        (self.0 >> 39) & 0x1_ffff
    }
}

/// A physical address as the three-level scheme splits it: a 12-bit offset,
/// two 9-bit fields and a 26-bit top field.
#[derive(Clone, Copy, Debug, PartialEq, Eq, Structural, Hash, PartialOrd, Ord)]
pub struct PhysicalAddr(pub u64);

impl PhysicalAddr {
    /// Bits 0 to 11.
    pub fn page_offset(&self) -> (r: u64)
        ensures
            r == self.0 % PAGE_SIZE,
    {
        proof { lemma_address_fields(self.0); }
        self.0 & 0xfff
    }

    /// Bits 12 to 20.
    pub fn ppn0(&self) -> (r: u64)
        ensures
            r == (self.0 / PAGE_SIZE) % 512,
    {
        proof { lemma_address_fields(self.0); }
        (self.0 >> 12) & 0x1ff
    }

    /// Bits 21 to 29.
    pub fn ppn1(&self) -> (r: u64)
        ensures
            r == (self.0 / MEGA_PAGE_SIZE) % 512,
    {
        proof { lemma_address_fields(self.0); }
        (self.0 >> 21) & 0x1ff
    }

    /// Bits 30 to 55.
    pub fn ppn2(&self) -> (r: u64)
        ensures
            r == (self.0 / GIGA_PAGE_SIZE) % 0x400_0000,
    {
        proof { lemma_address_fields(self.0); }
        (self.0 >> 30) & 0x3ff_ffff
    }
}

} // verus!
