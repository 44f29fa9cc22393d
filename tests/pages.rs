use riscv_os::level::{BigPage, HierarchicalLevel, Level0, Level1, Level2, Level3, PageLevel, TableLevel};
use riscv_os::range::{PhysicalAddressKind, PhysicalAddressRange};

#[test]
fn page_for_giga_page() {
    assert_eq!(BigPage::page_for(0x4000_0000, 0x4000_0000), BigPage::GigaPage(0x4000_0000));
}

#[test]
fn page_for_small_budget() {
    assert_eq!(BigPage::page_for(0x1000, 0x3000), BigPage::Page(0x1000));
}

#[test]
fn page_for_picks_largest_aligned() {
    assert_eq!(BigPage::page_for(0x20_0000, 0x4000_0000), BigPage::MegaPage(0x20_0000));
    assert_eq!(BigPage::page_for(0, u64::MAX), BigPage::TeraPage(0));
    assert_eq!(BigPage::page_for(0x4000_0000, 0x3fff_ffff), BigPage::MegaPage(0x4000_0000));
    assert_eq!(BigPage::page_for(0x4000_1000, 0x8000_0000), BigPage::Page(0x4000_1000));
}

#[test]
fn big_page_accessors() {
    let p = BigPage::new(PageLevel::Level1, 0x60_0000);
    assert_eq!(p, BigPage::MegaPage(0x60_0000));
    assert_eq!(p.level(), PageLevel::Level1);
    assert_eq!(p.size(), 0x20_0000);
    assert_eq!(p.position(), 0x60_0000);
    assert_eq!(BigPage::TeraPage(0).size(), 0x80_0000_0000);
    assert_eq!(BigPage::GigaPage(0).size(), 0x4000_0000);
    assert_eq!(BigPage::Page(0).size(), 0x1000);
}

#[test]
fn page_levels_navigate() {
    assert_eq!(PageLevel::Level0.up(), Some(PageLevel::Level1));
    assert_eq!(PageLevel::Level3.up(), None);
    assert_eq!(PageLevel::Level0.down(), None);
    assert_eq!(PageLevel::Level3.down(), Some(PageLevel::Level2));
    assert!(PageLevel::Level3.top());
    assert!(!PageLevel::Level2.top());
    assert!(PageLevel::Level0.bottom());
    assert!(!PageLevel::Level1.bottom());
    assert_eq!(Level3::level(), PageLevel::Level3);
    assert_eq!(Level0::level(), PageLevel::Level0);
    assert_eq!(Level2::next(), PageLevel::Level1);
    assert_eq!(Level1::next(), PageLevel::Level0);
}

#[test]
fn big_pages_tile_a_range() {
    let r = PhysicalAddressRange::new(0x3fe0_0000..0x8020_1000, PhysicalAddressKind::Usable, "ram");
    let pages = r.big_pages();
    assert_eq!(
        pages,
        vec![
            BigPage::MegaPage(0x3fe0_0000),
            BigPage::GigaPage(0x4000_0000),
            BigPage::MegaPage(0x8000_0000),
            BigPage::Page(0x8020_0000),
        ]
    );
    let mut next = r.start;
    for p in &pages {
        assert_eq!(p.position(), next);
        assert_eq!(p.position() % p.size(), 0);
        next += p.size();
    }
    assert_eq!(next, 0x8020_1000);
}

#[test]
fn big_pages_unaligned_start_of_range() {
    let r = PhysicalAddressRange::new(0x1f_f000..0x60_1000, PhysicalAddressKind::Usable, "ram");
    assert_eq!(
        r.big_pages(),
        vec![
            BigPage::Page(0x1f_f000),
            BigPage::MegaPage(0x20_0000),
            BigPage::MegaPage(0x40_0000),
            BigPage::Page(0x60_0000),
        ]
    );
}

#[test]
fn big_pages_round_up_the_end() {
    let r = PhysicalAddressRange::new(0x1000..0x1001, PhysicalAddressKind::Mmio, "uart");
    assert_eq!(r.big_pages(), vec![BigPage::Page(0x1000)]);
    let e = PhysicalAddressRange::new(0x2000..0x2000, PhysicalAddressKind::Mmio, "none");
    assert_eq!(e.big_pages(), vec![]);
    assert_eq!(r.as_range(), 0x1000..0x1001);
}

#[test]
fn page_numbers_step_by_page() {
    let r = PhysicalAddressRange::new(0x1800..0x4000, PhysicalAddressKind::Usable, "ram");
    assert_eq!(r.page_numbers(), vec![1, 2, 3]);
    let e = PhysicalAddressRange::new(0x5000..0x5000, PhysicalAddressKind::Usable, "ram");
    assert_eq!(e.page_numbers(), Vec::<u64>::new());
}
