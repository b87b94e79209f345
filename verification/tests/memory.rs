use blog_os::memory::{
    frame_containing_address, level_4_table_addr, BootInfoFrameAllocator, EmptyFrameAllocator,
    FrameRange,
};
use bootloader::bootinfo::{FrameRange as BootFrameRange, MemoryMap, MemoryRegion, MemoryRegionType};

fn region(start: u64, end: u64, region_type: MemoryRegionType) -> MemoryRegion {
    MemoryRegion { range: BootFrameRange::new(start, end), region_type }
}

fn leak(map: MemoryMap) -> &'static MemoryMap {
    Box::leak(Box::new(map))
}

#[test]
fn empty_frame_allocator_has_nothing() {
    let mut allocator = EmptyFrameAllocator;
    assert_eq!(allocator.allocate_frame(), None);
    assert_eq!(allocator.allocate_frame(), None);
}

#[test]
fn frame_range_addresses() {
    let range = FrameRange { start_frame_number: 3, end_frame_number: 5 };
    assert_eq!(range.start_addr(), 0x3000);
    assert_eq!(range.end_addr(), 0x5000);
}

#[test]
fn frame_containing_address_rounds_down() {
    assert_eq!(frame_containing_address(0x1234), 0x1000);
    assert_eq!(frame_containing_address(0x2000), 0x2000);
    assert_eq!(frame_containing_address(0xfff), 0);
    assert_eq!(frame_containing_address(0xf_ffff_ffff_ffff), 0xf_ffff_ffff_f000);
}

#[test]
fn boot_info_allocator_hands_out_usable_frames_in_order() {
    let mut map = MemoryMap::new();
    map.add_region(region(0x0, 0x1000, MemoryRegionType::FrameZero));
    map.add_region(region(0x1000, 0x3000, MemoryRegionType::Usable));
    map.add_region(region(0x3000, 0x10000, MemoryRegionType::Kernel));
    map.add_region(region(0x10000, 0x11000, MemoryRegionType::Usable));
    map.add_region(region(0x11000, 0x20000, MemoryRegionType::Reserved));
    let mut allocator = BootInfoFrameAllocator::init(leak(map));
    assert_eq!(allocator.allocate_frame(), Some(0x1000));
    assert_eq!(allocator.allocate_frame(), Some(0x2000));
    assert_eq!(allocator.allocate_frame(), Some(0x10000));
    assert_eq!(allocator.allocate_frame(), None);
    assert_eq!(allocator.allocate_frame(), None);
}

#[test]
fn usable_frame_counts_across_regions() {
    let mut map = MemoryMap::new();
    map.add_region(region(0x100000, 0x104000, MemoryRegionType::Usable));
    map.add_region(region(0x104000, 0x200000, MemoryRegionType::InUse));
    map.add_region(region(0x200000, 0x202000, MemoryRegionType::Usable));
    let allocator = BootInfoFrameAllocator::init(leak(map));
    assert_eq!(allocator.usable_frame(0), Some(0x100000));
    assert_eq!(allocator.usable_frame(3), Some(0x103000));
    assert_eq!(allocator.usable_frame(4), Some(0x200000));
    assert_eq!(allocator.usable_frame(5), Some(0x201000));
    assert_eq!(allocator.usable_frame(6), None);
    assert_eq!(allocator.usable_frame(1000), None);
}

#[test]
fn boot_info_allocator_on_empty_map() {
    let mut allocator = BootInfoFrameAllocator::init(leak(MemoryMap::new()));
    assert_eq!(allocator.allocate_frame(), None);
}

#[test]
fn boot_info_allocator_never_repeats_a_frame() {
    let mut map = MemoryMap::new();
    map.add_region(region(0x1000, 0x9000, MemoryRegionType::Usable));
    map.add_region(region(0x20000, 0x24000, MemoryRegionType::Usable));
    let mut allocator = BootInfoFrameAllocator::init(leak(map));
    let mut seen = std::collections::HashSet::new();
    while let Some(frame) = allocator.allocate_frame() {
        assert_eq!(frame % 4096, 0);
        assert!(seen.insert(frame));
    }
    assert_eq!(seen.len(), 8 + 4);
}

#[test]
fn level_4_table_addr_adds_the_offset() {
    assert_eq!(level_4_table_addr(0x0000_1000_0000_0000, 0x1000), 0x0000_1000_0000_1000);
    assert_eq!(level_4_table_addr(0xffff_8000_0000_0000, 0x2000), 0xffff_8000_0000_2000);
}

#[test]
fn level_4_table_addr_sign_extends_bit_47() {
    assert_eq!(level_4_table_addr(0x7fff_0000_0000, 0x1_0000_0000), 0xffff_8000_0000_0000);
}

#[test]
fn frame_lookup_safe_flags_frames_beyond_the_address_space() {
    let mut map = MemoryMap::new();
    map.add_region(region(0x1000, 0x2000, MemoryRegionType::Usable));
    map.add_region(MemoryRegion {
        range: BootFrameRange { start_frame_number: 1 << 40, end_frame_number: (1 << 40) + 2 },
        region_type: MemoryRegionType::Usable,
    });
    let allocator = BootInfoFrameAllocator::init(leak(map));
    assert!(allocator.frame_lookup_safe(0));
    assert!(!allocator.frame_lookup_safe(1));
    assert!(!allocator.frame_lookup_safe(5));
    assert!(allocator.can_allocate_frame());
}

#[test]
fn frame_lookup_safe_flags_overflowing_region_addresses() {
    let mut map = MemoryMap::new();
    map.add_region(region(0x1000, 0x3000, MemoryRegionType::Usable));
    map.add_region(MemoryRegion {
        range: BootFrameRange { start_frame_number: 1 << 60, end_frame_number: (1 << 60) + 1 },
        region_type: MemoryRegionType::Usable,
    });
    let allocator = BootInfoFrameAllocator::init(leak(map));
    // The first two frames lie in the first region; the lookup stops there.
    assert!(allocator.frame_lookup_safe(1));
    // Looking further visits the second region, whose addresses do not fit.
    assert!(!allocator.frame_lookup_safe(2));
}

#[test]
fn frame_lookup_ignores_unusable_regions_out_of_range() {
    let mut map = MemoryMap::new();
    map.add_region(region(0x1000, 0x2000, MemoryRegionType::Usable));
    map.add_region(MemoryRegion {
        range: BootFrameRange { start_frame_number: 1 << 60, end_frame_number: (1 << 60) + 1 },
        region_type: MemoryRegionType::Reserved,
    });
    let mut allocator = BootInfoFrameAllocator::init(leak(map));
    assert!(allocator.frame_lookup_safe(7));
    assert_eq!(allocator.allocate_frame(), Some(0x1000));
    assert!(allocator.can_allocate_frame());
    assert_eq!(allocator.allocate_frame(), None);
}

#[test]
fn allocated_frames_lie_in_usable_regions() {
    let regions = [(0x5000u64, 0x8000u64), (0x40000, 0x42000)];
    let mut map = MemoryMap::new();
    map.add_region(region(0x0, 0x5000, MemoryRegionType::InUse));
    for &(start, end) in regions.iter() {
        map.add_region(region(start, end, MemoryRegionType::Usable));
    }
    map.add_region(region(0x8000, 0x40000, MemoryRegionType::Bootloader));
    let mut allocator = BootInfoFrameAllocator::init(leak(map));
    let mut count = 0;
    while let Some(frame) = allocator.allocate_frame() {
        assert!(regions.iter().any(|&(start, end)| start <= frame && frame + 4096 <= end));
        count += 1;
    }
    assert_eq!(count, 3 + 2);
}
