use kros::memory::{
    is_valid_memory_map, BootInfoFrameAllocator, EmptyFrameAllocator, FrameAllocator, FrameRange,
    MemoryRegion, MemoryRegionType, FRAME_NUMBER_LIMIT,
};

fn region(start: u64, end: u64, region_type: MemoryRegionType) -> MemoryRegion {
    MemoryRegion {
        range: FrameRange { start_frame_number: start, end_frame_number: end },
        region_type,
    }
}

fn sample_map() -> Vec<MemoryRegion> {
    vec![
        region(0, 1, MemoryRegionType::FrameZero),
        region(1, 4, MemoryRegionType::Usable),
        region(4, 0x100, MemoryRegionType::Kernel),
        region(0x100, 0x100, MemoryRegionType::Usable),
        region(0x100, 0x102, MemoryRegionType::Usable),
        region(0x102, 0x200, MemoryRegionType::Reserved),
        region(0x200, 0x201, MemoryRegionType::Usable),
    ]
}

#[test]
fn frame_range_gives_its_addresses() {
    let range = FrameRange { start_frame_number: 3, end_frame_number: 0x100 };
    assert_eq!(range.start_addr(), 0x3000);
    assert_eq!(range.end_addr(), 0x10_0000);
    assert!(!range.is_empty());
    assert!(FrameRange { start_frame_number: 7, end_frame_number: 7 }.is_empty());
    let theirs = bootloader::bootinfo::FrameRange::new(0x3000, 0x10_0000);
    assert_eq!(theirs.start_frame_number, range.start_frame_number);
    assert_eq!(theirs.end_frame_number, range.end_frame_number);
    assert_eq!(theirs.start_addr(), range.start_addr());
    assert_eq!(theirs.end_addr(), range.end_addr());
}

#[test]
fn frames_come_region_by_region() {
    let map = sample_map();
    let mut frames = BootInfoFrameAllocator::init(&map);
    let mut handed_out = Vec::new();
    while let Some(frame) = frames.allocate_frame() {
        handed_out.push(frame.start_address().as_u64());
    }
    assert_eq!(handed_out, vec![0x1000, 0x2000, 0x3000, 0x10_0000, 0x10_1000, 0x20_0000]);
}

#[test]
fn exhausted_allocator_stays_exhausted() {
    let map = sample_map();
    let mut frames = BootInfoFrameAllocator::init(&map);
    for _ in 0..6 {
        assert!(frames.allocate_frame().is_some());
    }
    for _ in 0..10 {
        assert_eq!(frames.allocate_frame(), None);
    }
}

#[test]
fn every_call_is_counted() {
    let map = sample_map();
    let mut frames = BootInfoFrameAllocator::init(&map);
    assert_eq!(frames.next(), 0);
    for call in 0..6 {
        assert!(frames.allocate_frame().is_some());
        assert_eq!(frames.next(), call + 1);
    }
    // the count goes on when the map is exhausted
    assert_eq!(frames.allocate_frame(), None);
    assert_eq!(frames.next(), 7);
    assert_eq!(frames.allocate_frame(), None);
    assert_eq!(frames.next(), 8);
}

#[test]
fn counter_passes_the_last_frame() {
    let map = [
        region(0, 1, MemoryRegionType::Reserved),
        region(1, 3, MemoryRegionType::Usable),
    ];
    let mut frames = BootInfoFrameAllocator::init(&map);
    assert_eq!(frames.allocate_frame().unwrap().start_address().as_u64(), 0x1000);
    assert_eq!(frames.allocate_frame().unwrap().start_address().as_u64(), 0x2000);
    assert_eq!(frames.allocate_frame(), None);
    assert_eq!(frames.next(), 3);
    // asking by position does not count
    assert_eq!(frames.usable_frame(1).unwrap().start_address().as_u64(), 0x2000);
    assert_eq!(frames.next(), 3);
    let mut empty = BootInfoFrameAllocator::init(&[]);
    assert_eq!(empty.allocate_frame(), None);
    assert_eq!(empty.next(), 1);
}

#[test]
fn no_frame_is_handed_out_twice() {
    let mut map = Vec::new();
    for i in 0..20u64 {
        let kind = if i % 2 == 0 { MemoryRegionType::Usable } else { MemoryRegionType::InUse };
        map.push(region(i * 50, i * 50 + 50, kind));
    }
    let mut frames = BootInfoFrameAllocator::init(&map);
    let mut seen = std::collections::HashSet::new();
    let mut previous = None;
    let mut count = 0;
    while let Some(frame) = frames.allocate_frame() {
        assert_ne!(Some(frame), previous);
        assert!(seen.insert(frame.start_address().as_u64()));
        previous = Some(frame);
        count += 1;
    }
    assert_eq!(count, 500);
}

#[test]
fn usable_frame_is_found_by_its_position() {
    let map = sample_map();
    let frames = BootInfoFrameAllocator::init(&map);
    assert_eq!(frames.usable_frame(0).unwrap().start_address().as_u64(), 0x1000);
    assert_eq!(frames.usable_frame(2).unwrap().start_address().as_u64(), 0x3000);
    assert_eq!(frames.usable_frame(3).unwrap().start_address().as_u64(), 0x10_0000);
    assert_eq!(frames.usable_frame(5).unwrap().start_address().as_u64(), 0x20_0000);
    assert_eq!(frames.usable_frame(6), None);
    assert_eq!(frames.usable_frame(usize::MAX), None);
}

#[test]
fn map_without_usable_region_offers_nothing() {
    let map = [
        region(0, 0x100, MemoryRegionType::Reserved),
        region(0x100, 0x200, MemoryRegionType::Bootloader),
        region(0x300, 0x200, MemoryRegionType::Usable),
    ];
    let mut frames = BootInfoFrameAllocator::init(&map);
    assert_eq!(frames.allocate_frame(), None);
    let mut frames = BootInfoFrameAllocator::init(&[]);
    assert_eq!(frames.allocate_frame(), None);
}

#[test]
fn empty_frame_allocator_offers_nothing() {
    let mut frames = EmptyFrameAllocator;
    assert_eq!(frames.allocate_frame(), None);
    assert_eq!(frames.allocate_frame(), None);
}

#[test]
fn memory_map_is_checked() {
    assert!(is_valid_memory_map(&sample_map()));
    assert!(is_valid_memory_map(&[]));
    assert!(is_valid_memory_map(&[region(0, FRAME_NUMBER_LIMIT, MemoryRegionType::Usable)]));
    assert!(!is_valid_memory_map(&[region(0, FRAME_NUMBER_LIMIT + 1, MemoryRegionType::Usable)]));
    assert!(!is_valid_memory_map(&[region(u64::MAX, 0, MemoryRegionType::Usable)]));
    // what is not usable is not looked at
    assert!(is_valid_memory_map(&[region(u64::MAX, u64::MAX, MemoryRegionType::Reserved)]));
}

#[test]
fn last_frame_of_physical_memory_can_be_handed_out() {
    let map = [region(FRAME_NUMBER_LIMIT - 1, FRAME_NUMBER_LIMIT, MemoryRegionType::Usable)];
    let mut frames = BootInfoFrameAllocator::init(&map);
    let frame = frames.allocate_frame().unwrap();
    assert_eq!(frame.start_address().as_u64(), 0x000f_ffff_ffff_f000);
    assert_eq!(frames.allocate_frame(), None);
}
