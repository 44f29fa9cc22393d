use riscv_os::address::VirtualAddress;
use riscv_os::memory_map::{BootMemory, DeviceRange, LinkerInfo, MemoryRegions, Region};
use riscv_os::permission::Permission;
use riscv_os::regions::{MemoryRange, RegionKind};

fn region(start: u64, end: u64, desc: &'static str) -> Region {
    Region { address: VirtualAddress(start), end: VirtualAddress(end), desc, perms: Permission::r(), maps_to: None }
}

#[test]
fn test_overlap_true() {
    let a = region(0, 10, "a");
    let b = region(5, 15, "b");
    assert!(a.overlaps(&b));
    assert!(b.overlaps(&a));
}

#[test]
fn test_overlap_false() {
    let a = region(0, 10, "a");
    let b = region(10, 15, "b");
    assert!(!a.overlaps(&b));
    assert!(!b.overlaps(&a));
}

#[test]
fn region_accessors() {
    let a = region(0x1000, 0x3000, "a");
    assert_eq!(a.start(), VirtualAddress(0x1000));
    assert_eq!(a.end(), VirtualAddress(0x3000));
    assert_eq!(a.len(), VirtualAddress(0x2000));
}

#[test]
fn test_add_to_region() {
    let mut regions = MemoryRegions::new();
    assert!(regions.add(0..10, "test", Permission::r()));
    assert!(regions.add(10..20, "test", Permission::r()));
    assert!(!regions.add(5..15, "test", Permission::r()));
    assert!(!regions.add(15..25, "test", Permission::r()));
    assert!(regions.add(25..35, "test", Permission::r()));
    assert!(!regions.add(5..25, "test", Permission::r()));
    assert!(!regions.add(30..30, "test", Permission::r()));
}

#[test]
fn add_scenario_keeps_three_regions() {
    let mut regions = MemoryRegions::new();
    assert!(regions.add(0..10, "a", Permission::r()));
    assert!(regions.add(10..20, "b", Permission::r()));
    assert!(!regions.add(5..15, "c", Permission::r()));
    assert!(regions.add(25..35, "d", Permission::r()));
    assert_eq!(regions.len(), 3);
    let spans: Vec<(u64, u64)> = (0..regions.len()).map(|i| (regions.get(i).start().0, regions.get(i).end().0)).collect();
    assert_eq!(spans, vec![(0, 10), (10, 20), (25, 35)]);
}

#[test]
fn add_sorts_by_start() {
    let mut regions = MemoryRegions::new();
    assert!(regions.add(0x3000..0x4000, "c", Permission::rw()));
    assert!(regions.add(0x1000..0x2000, "a", Permission::rx()));
    assert!(regions.add(0x2000..0x3000, "b", Permission::none()));
    assert!(!regions.add(0x0..0x0, "empty", Permission::r()));
    let names: Vec<&str> = (0..regions.len()).map(|i| regions.get(i).desc).collect();
    assert_eq!(names, vec!["a", "b", "c"]);
    assert_eq!(regions.get(0).perms, Permission::rx());
    assert!(regions.get(1).maps_to.is_none());
}

#[test]
fn rejected_add_changes_nothing() {
    let mut regions = MemoryRegions::new();
    assert!(regions.add(100..200, "a", Permission::r()));
    assert!(!regions.add(150..160, "inner", Permission::rw()));
    assert!(!regions.add(50..101, "left", Permission::rw()));
    assert_eq!(regions.len(), 1);
    assert_eq!(regions.get(0).desc, "a");
}

fn device(name: &'static str, start: u64, end: u64) -> DeviceRange {
    DeviceRange { name, reg: start..end }
}

#[test]
fn initial_memory_adds_devices_and_kernel() {
    let hw = BootMemory {
        uart: device("uart", 0x1000_0000, 0x1000_0100),
        clint: device("clint", 0x0200_0000, 0x0201_0000),
        plic: device("plic", 0x0c00_0000, 0x0c60_0000),
        rtc: device("rtc", 0x0010_1000, 0x0010_2000),
        reserved_memory: vec![0x8000_0000..0x8020_0000, 0x1000_0000..0x1000_1000],
        stack_guard: 0x8040_8000..0x8040_9000,
        heap: 0x8100_0000..0x8200_0000,
    };
    let image = LinkerInfo {
        image: 0x8020_0000..0x8050_0000,
        text: 0x8020_0000..0x8030_0000,
        rodata: 0x8030_0000..0x8038_0000,
        data: 0x8038_0000..0x8040_0000,
        bss: 0x8040_0000..0x8048_0000,
        tdata: 0x8048_0000..0x8048_0000,
        tbss: 0x8048_0000..0x8049_0000,
    };
    let mut regions = MemoryRegions::new();
    regions.add_inital_memory(&hw, &image);
    let got: Vec<(u64, u64, &str)> =
        (0..regions.len()).map(|i| (regions.get(i).start().0, regions.get(i).end().0, regions.get(i).desc)).collect();
    assert_eq!(
        got,
        vec![
            (0, 0x1_0000, "NULL"),
            (0x0010_1000, 0x0010_2000, "rtc"),
            (0x0200_0000, 0x0201_0000, "clint"),
            (0x0c00_0000, 0x0c60_0000, "plic"),
            (0x1000_0000, 0x1000_0100, "uart"),
            (0x8000_0000, 0x8020_0000, "Reserved"),
            (0x8020_0000, 0x8030_0000, "Kernel text"),
            (0x8030_0000, 0x8038_0000, "Kernel rodata"),
            (0x8038_0000, 0x8040_0000, "Kernel data"),
            (0x8040_0000, 0x8040_8000, "Kernel bss"),
            (0x8040_8000, 0x8040_9000, "Stack guard"),
            (0x8040_9000, 0x8048_0000, "Kernel stack"),
            (0x8048_0000, 0x8049_0000, "Kernel thread template bss"),
            (0x8100_0000, 0x8200_0000, "Kernel heap"),
        ]
    );
    assert_eq!(regions.get(6).perms, Permission::rx());
    assert_eq!(regions.get(10).perms, Permission::none());
}

#[test]
fn memory_range_subtract() {
    let r = MemoryRange::new(10, 20);
    assert_eq!(r.subtract_overlap(&MemoryRange { start: 30, end: 40 }), (Some(r), None));
    assert_eq!(r.subtract_overlap(&MemoryRange { start: 0, end: 5 }), (None, Some(r)));
    assert_eq!(
        r.subtract_overlap(&MemoryRange { start: 12, end: 15 }),
        (Some(MemoryRange::new(10, 12)), Some(MemoryRange::new(15, 20)))
    );
    assert_eq!(r.subtract_overlap(&MemoryRange { start: 0, end: 15 }), (None, Some(MemoryRange::new(15, 20))));
    assert_eq!(r.subtract_overlap(&MemoryRange { start: 15, end: 25 }), (Some(MemoryRange::new(10, 15)), None));
    assert_eq!(r.subtract_overlap(&MemoryRange { start: 5, end: 25 }), (None, None));
    assert_ne!(RegionKind::Mmio, RegionKind::Reserved);
}
