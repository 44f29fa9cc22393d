use riscv_os::address::{PhysicalAddress, VirtualAddress};
use riscv_os::entry::Entry;
use riscv_os::level::PageLevel;
use riscv_os::memory_map::MemoryRegions;
use riscv_os::permission::{Permission, Permissions};
use riscv_os::table::{dumb_map, place_dumb_map, MapError, PageTable, PageTableRoot};

const BASE: u64 = 0x8800_0000;

fn root() -> PageTableRoot {
    PageTableRoot::new(PhysicalAddress(BASE))
}

fn physical_of(root: &PageTableRoot, v: u64) -> Option<(u64, Permissions)> {
    root.translate(VirtualAddress(v)).map(|(e, level)| {
        let span = match level {
            PageLevel::Level0 => 0x1000,
            PageLevel::Level1 => 0x20_0000,
            PageLevel::Level2 => 0x4000_0000,
            PageLevel::Level3 => 0x80_0000_0000,
        };
        (e.address().0 + v % span, e.permissions())
    })
}

#[test]
fn fresh_root_translates_nothing() {
    let r = root();
    assert_eq!(r.translate(VirtualAddress(0)), None);
    assert_eq!(r.table_count(), 1);
    assert_eq!(r.root_address(), PhysicalAddress(BASE));
}

#[test]
fn map_addr_then_walk_finds_leaf() {
    let mut r = root();
    assert_eq!(r.map_addr(PhysicalAddress(0x8020_3000), VirtualAddress(0x0000_7f00_1234_5000), Permission::rw()), Ok(()));
    let (e, level) = r.translate(VirtualAddress(0x0000_7f00_1234_5000)).unwrap();
    assert_eq!(level, PageLevel::Level0);
    assert_eq!(e.address(), PhysicalAddress(0x8020_3000));
    assert_eq!(e.permissions(), Permissions { read: true, write: true, execute: false });
    assert!(e.valid());
    assert_eq!(r.table_count(), 4);
    assert_eq!(physical_of(&r, 0x0000_7f00_1234_5abc).unwrap().0, 0x8020_3abc);
    assert_eq!(r.translate(VirtualAddress(0x0000_7f00_1234_6000)), None);
}

#[test]
fn map_addr_twice_fails() {
    let mut r = root();
    assert_eq!(r.map_addr(PhysicalAddress(0x1000), VirtualAddress(0x5000), Permission::r()), Ok(()));
    assert_eq!(r.map_addr(PhysicalAddress(0x2000), VirtualAddress(0x5000), Permission::rx()), Err(MapError::AlreadyMapped));
    assert_eq!(physical_of(&r, 0x5000).unwrap().0, 0x1000);
    assert_eq!(r.map_addr(PhysicalAddress(0x2000), VirtualAddress(0x6000), Permission::rx()), Ok(()));
    assert_eq!(r.table_count(), 4);
}

#[test]
fn map_page_rejections() {
    let mut r = root();
    assert_eq!(r.map_addr(PhysicalAddress(0x1000), VirtualAddress(1 << 48), Permission::r()), Err(MapError::InvalidAddress));
    assert_eq!(r.map_addr(PhysicalAddress(1 << 56), VirtualAddress(0x1000), Permission::r()), Err(MapError::InvalidAddress));
    assert_eq!(r.map_addr(PhysicalAddress(0x1001), VirtualAddress(0x1000), Permission::r()), Err(MapError::Misaligned));
    assert_eq!(
        r.map_page(PhysicalAddress(0x1000), VirtualAddress(0x20_0000), Permission::r(), PageLevel::Level1),
        Err(MapError::Misaligned)
    );
    assert_eq!(r.map_addr(PhysicalAddress(0x1000), VirtualAddress(0x1000), Permission::none()), Err(MapError::InvalidPermission));
    assert_eq!(r.map_addr(PhysicalAddress(0x1000), VirtualAddress(0x1000), Permission::w()), Err(MapError::InvalidPermission));
    assert_eq!(r.table_count(), 1);
}

#[test]
fn huge_page_blocks_smaller_mapping() {
    let mut r = root();
    assert_eq!(
        r.map_page(PhysicalAddress(0x4000_0000), VirtualAddress(0x4000_0000), Permission::rwx(), PageLevel::Level2),
        Ok(())
    );
    assert_eq!(r.table_count(), 2);
    assert_eq!(
        r.map_addr(PhysicalAddress(0x1000), VirtualAddress(0x4000_1000), Permission::r()),
        Err(MapError::HugePageInTheWay)
    );
    assert_eq!(physical_of(&r, 0x7fff_fff8).unwrap().0, 0x7fff_fff8);
    assert_eq!(
        r.map_page(PhysicalAddress(0), VirtualAddress(0), Permission::rwx(), PageLevel::Level3),
        Err(MapError::AlreadyMapped)
    );
}

#[test]
fn map_all_maps_every_region_with_rights() {
    let mut regions = MemoryRegions::new();
    assert!(regions.add(0x0..0x1_0000, "NULL", Permission::none()));
    assert!(regions.add(0x1000_0000..0x1000_0100, "uart", Permission::rw()));
    assert!(regions.add(0x8000_0000..0x8060_1000, "kernel", Permission::rx()));
    let mut r = root();
    assert_eq!(r.map_all(regions), Ok(()));
    assert_eq!(r.translate(VirtualAddress(0x0)), None);
    assert_eq!(physical_of(&r, 0x1000_0010), Some((0x1000_0010, Permissions { read: true, write: true, execute: false })));
    assert_eq!(physical_of(&r, 0x1000_0fff).unwrap().0, 0x1000_0fff);
    assert_eq!(r.translate(VirtualAddress(0x1000_1000)), None);
    assert_eq!(physical_of(&r, 0x8012_3456), Some((0x8012_3456, Permissions { read: true, write: false, execute: true })));
    assert_eq!(r.translate(VirtualAddress(0x8040_0000)).unwrap().1, PageLevel::Level1);
    assert_eq!(r.translate(VirtualAddress(0x8060_0000)).unwrap().1, PageLevel::Level0);
    assert_eq!(r.translate(VirtualAddress(0x8060_1000)), None);
}

#[test]
fn map_all_rejects_unaligned_region() {
    let mut regions = MemoryRegions::new();
    assert!(regions.add(0x0..0x10, "a", Permission::r()));
    assert!(regions.add(0x10..0x20, "b", Permission::r()));
    let mut r = root();
    assert_eq!(r.map_all(regions), Err(MapError::Misaligned));
    assert_eq!(physical_of(&r, 0x8).unwrap().0, 0x8);
}

#[test]
fn satp_holds_mode_asid_and_root() {
    let r = PageTableRoot::new(PhysicalAddress(0x8020_0000));
    assert_eq!(r.satp(5), 0x9000_5000_0008_0200);
}

#[test]
fn dumb_map_places_two_giga_pages() {
    let t = dumb_map(PhysicalAddress(0x9000_0000));
    assert_eq!(t.level(), PageLevel::Level2);
    assert_eq!(t.address(), 0x9000_0000);
    assert_eq!(t.entry(0).valid(), true);
    assert_eq!(t.entry(1).flags().address(), PhysicalAddress(0));
    assert_eq!(t.entry(1).flags().bits(), 0b1111);
    assert!(!t.entry(2).valid());
    assert!(!t.is_empty());
}

#[test]
fn place_dumb_map_identity_maps_four_gib() {
    let mut r = root();
    assert_eq!(r.map_addr(PhysicalAddress(0x1000), VirtualAddress(0x80_0000_0000), Permission::r()), Ok(()));
    assert_eq!(place_dumb_map(&mut r), Ok(()));
    assert_eq!(r.translate(VirtualAddress(0x80_0000_0000)), None);
    for v in [0u64, 0x1234_5678, 0x8000_0000, 0xffff_ffff] {
        assert_eq!(physical_of(&r, v), Some((v, Permissions { read: true, write: true, execute: true })));
    }
    assert_eq!(r.translate(VirtualAddress(0x1_0000_0000)), None);
}

#[test]
fn page_table_entries() {
    let mut t = PageTable::allocate(PageLevel::Level1, 0x5000);
    assert!(t.is_empty());
    assert_eq!(t.address(), 0x5000);
    assert_eq!(t.entry(3).flags().bits(), 0);
    let m = t.entry_mut(7);
    assert!(!m.valid());
    assert_eq!(m.flags().bits(), 0);
    assert_eq!(Entry::empty(), Entry(0));
}

#[test]
fn try_free_only_empty_tables() {
    let t = PageTable::allocate(PageLevel::Level0, 0x3000);
    assert!(t.try_free().is_ok());
    let full = dumb_map(PhysicalAddress(0x4000));
    let back = full.try_free().unwrap_err();
    assert_eq!(back.address(), 0x4000);
}

#[test]
fn root_dumb_map_covers_512_gib() {
    let mut r = root();
    assert_eq!(r.dumb_map(), Ok(()));
    assert_eq!(r.table_count(), 2);
    for v in [0u64, 0x4000_0000, 0x7f_ffff_ffff] {
        assert_eq!(physical_of(&r, v), Some((v, Permissions { read: true, write: true, execute: true })));
    }
    assert_eq!(r.translate(VirtualAddress(0x80_0000_0000)), None);
}

#[test]
fn valid_entries_lists_the_tree() {
    let mut r = root();
    assert_eq!(r.map_addr(PhysicalAddress(0x2000), VirtualAddress(0x40_1000), Permission::r()), Ok(()));
    let dump = r.valid_entries();
    let keys: Vec<(usize, PageLevel, usize)> = dump.iter().map(|(n, l, i, _)| (*n, *l, *i)).collect();
    assert_eq!(keys, vec![(0, PageLevel::Level3, 0), (1, PageLevel::Level2, 0), (2, PageLevel::Level1, 2), (3, PageLevel::Level0, 1)]);
    assert_eq!(dump[3].3.address(), PhysicalAddress(0x2000));
    assert_eq!(dump[0].3.address(), PhysicalAddress(BASE + 0x1000));
    assert!(dump[0].3.non_leaf());
}

#[test]
fn arena_runs_out_of_tables() {
    let mut r = root();
    let mut slot: u64 = 0;
    loop {
        let v = slot << 30;
        match r.map_addr(PhysicalAddress(0x1000), VirtualAddress(v), Permission::r()) {
            Ok(()) => slot += 1,
            Err(e) => {
                assert_eq!(e, MapError::OutOfTables);
                break;
            }
        }
    }
    let before = r.table_count();
    assert!(before as u64 + 2 > riscv_os::table::MAX_TABLES);
    assert_eq!(r.translate(VirtualAddress(slot << 30)), None);
    assert_eq!(place_dumb_map(&mut r), if (before as u64) < riscv_os::table::MAX_TABLES { Ok(()) } else { Err(MapError::OutOfTables) });
}
