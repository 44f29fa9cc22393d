use riscv_os::address::PhysicalAddress;
use riscv_os::entry::{Entry, EntryFlags, Pbmt, Rsw, FLAG_A, FLAG_D, FLAG_G, FLAG_R, FLAG_U, FLAG_V, FLAG_W, FLAG_X};
use riscv_os::permission::{Permission, Permissions};

#[test]
fn entry_round_trip_keeps_page_number_only() {
    let p = PhysicalAddress(0x1234_5678_9abc_def0);
    let e = Entry::new(p, EntryFlags::from_bits(u64::MAX));
    assert_eq!(e.address(), PhysicalAddress(0x0034_5678_9abc_d000));
    assert_eq!(e.bits(), 0xffcd_159e_26af_37ff);
    assert_eq!(e.flags().bits(), 0xffc0_0000_0000_03ff);
    let z = Entry::new(PhysicalAddress(0x8020_0000), EntryFlags::from_bits(0));
    assert_eq!(z.address(), PhysicalAddress(0x8020_0000));
    assert_eq!(z.flags().bits(), 0);
    assert_eq!(z.bits(), (0x8020_0000u64 >> 12) << 10);
}

#[test]
fn page_entry_flags() {
    assert!(Entry(1 << 0).valid());
    assert!(Entry(1 << 1).read());
    assert!(Entry(1 << 2).write());
    assert!(Entry(1 << 3).execute());
    assert!(Entry(1 << 4).user());
    assert!(Entry(1 << 5).global());
    assert!(Entry(1 << 6).accessed());
    assert!(Entry(1 << 7).dirty());
    assert!(!Entry(0xfe).valid());
    assert!(Entry(1 << 4).user_accessible());
}

#[test]
fn entry_leaf_needs_a_right() {
    assert!(!Entry(1).leaf());
    assert!(Entry(1).non_leaf());
    assert!(Entry(0b0011).leaf());
    assert!(Entry(0b1001).leaf());
    assert!(!EntryFlags::from_bits(0b0001).is_leaf());
    assert!(EntryFlags::from_bits(0b0101).is_leaf());
}

#[test]
fn entry_fields() {
    let e = Entry((3 << 8) | (0x1ff << 10) | (0x2 << 19) | (0x3ff_ffff << 28) | (0x55 << 54) | (2 << 61));
    assert_eq!(e.rsw(), Rsw::Rsw3);
    assert_eq!(e.ppn_0(), 0x1ff);
    assert_eq!(e.ppn_1(), 0x2);
    assert_eq!(e.ppn_2(), 0x3ff_ffff);
    assert_eq!(e.ppn0(), 0x1ff);
    assert_eq!(e.ppn1(), 0x2);
    assert_eq!(e.ppn2(), 0x3ff_ffff);
    assert_eq!(e.reserved(), 0x55);
    assert_eq!(e.pbmt(), Pbmt::Io);
    assert_eq!(Entry(1 << 8).rsw(), Rsw::Rsw1);
    assert_eq!(Entry(1 << 61).pbmt(), Pbmt::Nc);
    assert_eq!(Entry(3 << 61).pbmt(), Pbmt::_Reserved);
    assert_eq!(Entry(0).pbmt(), Pbmt::Pma);
}

#[test]
fn entry_permissions_decode_set_bits() {
    let e = Entry(0b1011);
    assert_eq!(e.permissions(), Permissions { read: true, write: false, execute: true });
    let f = EntryFlags::from_bits(0b0110_0110);
    assert_eq!(f.permissions(), Permissions { read: true, write: true, execute: false });
    assert!(f.global());
    assert!(f.accessed());
    assert!(!f.dirty());
    assert!(!f.user_accessible());
    assert!(!f.valid());
}

#[test]
fn empty_entry() {
    let e = Entry::empty();
    assert!(e.is_empty());
    assert!(!e.valid());
    assert_eq!(e.address(), PhysicalAddress(0));
    assert!(!Entry(1).is_empty());
}

#[test]
fn flags_builder_sets_fields() {
    let f = EntryFlags::builder().valid(true).readable(true).writable(true).executable(false).build();
    assert_eq!(f.bits(), 0b0111);
    let g = EntryFlags::builder().valid(true).readable(true).valid(false).build();
    assert_eq!(g.bits(), 0b0010);
    let h = EntryFlags::builder().for_offset(0x4000_3123).build();
    assert_eq!(h.address(), PhysicalAddress(0x4000_3000));
    assert_eq!(h.ppn_0(), 3);
    assert_eq!(h.ppn_1(), 0);
    assert_eq!(h.ppn_2(), 1);
    let j = EntryFlags::from_bits(u64::MAX).just_flags();
    assert_eq!(j.bits(), 0xffc0_0000_0000_03ff);
}

#[test]
fn flags_builder_with_permissions() {
    let b = EntryFlags::builder().valid(true);
    let f = b.with_permissions(Permission::rx()).unwrap().build();
    assert_eq!(f.bits(), 0b1011);
    assert!(b.with_permissions(Permission::w()).is_none());
    let n = b.with_permissions(Permission::none()).unwrap().build();
    assert_eq!(n.bits(), 0b0001);
}

#[test]
fn entry_builder_sets_fields() {
    let e = Entry::builder().for_offset(0x4000_0000).valid(true).readable(true).writable(true).executable(true).build();
    assert_eq!(e.address(), PhysicalAddress(0x4000_0000));
    assert_eq!(e.flags().bits(), 0b1111);
    let d = Entry::builder().readable(true).readable(false).build();
    assert!(d.is_empty());
}

#[test]
fn permissions_reject_write_without_read() {
    assert_eq!(Permissions::try_new(false, true, false), None);
    assert_eq!(Permissions::try_new(true, true, false), Some(Permissions { read: true, write: true, execute: false }));
    assert!(Permissions::try_new(false, false, false).unwrap().is_none());
    assert!(!Permissions::try_new(false, false, true).unwrap().is_none());
}

#[test]
fn permission_sets() {
    assert!(Permission::rw().readable() && Permission::rw().writable() && !Permission::rw().executable());
    assert_eq!(Permission::rx().bits(), 5);
    assert_eq!(Permission::rwx().bits(), 7);
    assert_eq!(Permission::from_bits(8), None);
    assert_eq!(Permission::from_bits(4), Some(Permission::x()));
    assert_eq!(Permission::r().permissions(), Permissions { read: true, write: false, execute: false });
}

#[test]
fn flag_constants_name_the_bits() {
    let f = EntryFlags::from_bits(FLAG_V | FLAG_R | FLAG_X | FLAG_U | FLAG_G | FLAG_A | FLAG_D);
    assert!(f.valid());
    assert_eq!(f.permissions(), Permissions { read: true, write: false, execute: true });
    assert!(f.user_accessible() && f.global() && f.accessed() && f.dirty());
    assert!(!EntryFlags::from_bits(FLAG_W).valid());
    assert_eq!(f.bits(), 0xfb);
}
