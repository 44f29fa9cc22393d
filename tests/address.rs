use riscv_os::address::{PhysicalAddr, PhysicalAddress, VirtualAddress};
use riscv_os::level::PageLevel;

#[test]
fn virtual_address_rejects_high_bits() {
    assert_eq!(VirtualAddress::new(0x0000_ffff_ffff_ffff), Some(VirtualAddress(0x0000_ffff_ffff_ffff)));
    assert_eq!(VirtualAddress::new(0x0001_0000_0000_0000), None);
    assert_eq!(VirtualAddress::new(0xffff_ffff_ffff_f000), None);
}

#[test]
fn virtual_address_fields() {
    let v = VirtualAddress(0x0000_7fff_ffff_f123);
    assert_eq!(v.offset_in_vpn(), 0x123);
    assert_eq!(v.vpn_0(), 0x1ff);
    assert_eq!(v.vpn_1(), 0x1ff);
    assert_eq!(v.vpn_2(), 0x1ff);
    assert_eq!(v.vpn_3(), 0xff);
    let w = VirtualAddress(0x0000_0080_4020_1abc);
    assert_eq!(w.vpn_for_level(PageLevel::Level0), 1);
    assert_eq!(w.vpn_for_level(PageLevel::Level1), 1);
    assert_eq!(w.vpn_for_level(PageLevel::Level2), 1);
    assert_eq!(w.vpn_for_level(PageLevel::Level3), 1);
    assert_eq!(w.page_address(), VirtualAddress(0x0080_4020_1000));
    assert_eq!(w.vpn(), 0x0804_0201);
    assert_eq!(VirtualAddress(0xffff_0000_0000_1000).page_address(), VirtualAddress(0x1000));
}

#[test]
fn physical_address_fields() {
    let p = PhysicalAddress(0xff12_3456_789a_bcde);
    assert_eq!(p.offset(), 0xcde);
    assert_eq!(p.offset_in_ppn(), 0xcde);
    assert_eq!(p.page_offset(), 0xcde);
    assert_eq!(p.ppn(), 0x123_4567_89ab);
    assert_eq!(p.ppn_0(), (0x123_4567_89ab & 0x1ff));
    assert_eq!(p.ppn_1(), (0x123_4567_89ab >> 9) & 0x1ff);
    assert_eq!(p.ppn_2(), (0x123_4567_89ab >> 18) & 0x1ff);
    assert_eq!(p.ppn_3(), (0x123_4567_89ab >> 27) & 0x1_ffff);
}

#[test]
fn page_offset_all1s() {
    assert_eq!(0b111111111111, PhysicalAddr(u64::MAX).page_offset())
}

#[test]
fn pp0_all1s() {
    assert_eq!(0b111111111, PhysicalAddr(u64::MAX).ppn0())
}

#[test]
fn pp2_all1s() {
    assert_eq!(0b111111111, PhysicalAddr(u64::MAX).ppn1())
}

#[test]
fn pp3_all1s() {
    assert_eq!(0b11111111111111111111111111, PhysicalAddr(u64::MAX).ppn2())
}

#[test]
fn physical_addr_fields_are_separate() {
    let p = PhysicalAddr(0x0000_0040_0060_3abc);
    assert_eq!(p.page_offset(), 0xabc);
    assert_eq!(p.ppn0(), 3);
    assert_eq!(p.ppn1(), 3);
    assert_eq!(p.ppn2(), 0x100);
}
