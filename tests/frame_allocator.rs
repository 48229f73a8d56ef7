use blog_kernel::frame_allocator::{
    BootInfoFrameAllocator, MemoryMapError, MemoryRegion, MemoryRegionType, PhysFrame,
};

fn region(start: u64, length: u64, kind: MemoryRegionType) -> MemoryRegion {
    MemoryRegion { start, length, kind }
}

fn drain(a: &mut BootInfoFrameAllocator) -> Vec<u64> {
    let mut out = Vec::new();
    while let Some(f) = a.allocate_frame() {
        out.push(f.start_address);
    }
    out
}

#[test]
fn single_region_yields_four_frames_in_order() {
    let mut a =
        BootInfoFrameAllocator::init(vec![region(0x1000, 0x4000, MemoryRegionType::Usable)]).unwrap();
    assert_eq!(a.allocate_frame(), Some(PhysFrame { start_address: 0x1000 }));
    assert_eq!(a.allocate_frame(), Some(PhysFrame { start_address: 0x2000 }));
    assert_eq!(a.allocate_frame(), Some(PhysFrame { start_address: 0x3000 }));
    assert_eq!(a.allocate_frame(), Some(PhysFrame { start_address: 0x4000 }));
    assert_eq!(a.allocate_frame(), None);
    assert_eq!(a.allocate_frame(), None);
}

#[test]
fn frames_are_distinct_and_inside_usable_regions() {
    let map = vec![
        region(0x0, 0x1000, MemoryRegionType::Reserved),
        region(0x1000, 0x3000, MemoryRegionType::Usable),
        region(0x4000, 0x2000, MemoryRegionType::Reclaimable),
        region(0x6800, 0x3000, MemoryRegionType::Usable),
        region(0x10000, 0x2000, MemoryRegionType::Usable),
    ];
    let mut a = BootInfoFrameAllocator::init(map.clone()).unwrap();
    let frames = drain(&mut a);
    assert_eq!(frames, vec![0x1000, 0x2000, 0x3000, 0x7000, 0x8000, 0x10000, 0x11000]);
    for (i, f) in frames.iter().enumerate() {
        assert_eq!(f % 4096, 0);
        assert!(frames[i + 1..].iter().all(|g| g != f));
        assert!(map.iter().any(|r| r.kind == MemoryRegionType::Usable
            && r.start <= *f
            && f + 4096 <= r.start + r.length));
    }
}

#[test]
fn exhaustion_comes_exactly_at_capacity() {
    let map = vec![
        region(0x1000, 0x2800, MemoryRegionType::Usable),
        region(0x5000, 0x1000, MemoryRegionType::Usable),
    ];
    let mut a = BootInfoFrameAllocator::init(map).unwrap();
    for _ in 0..3 {
        assert!(a.allocate_frame().is_some());
    }
    assert_eq!(a.allocate_frame(), None);
}

#[test]
fn empty_map_has_no_frames() {
    let mut a = BootInfoFrameAllocator::init(Vec::new()).unwrap();
    assert_eq!(a.allocate_frame(), None);
}

#[test]
fn small_and_reserved_regions_give_nothing() {
    let map = vec![
        region(0x1000, 0xfff, MemoryRegionType::Usable),
        region(0x2001, 0x1ffe, MemoryRegionType::Usable),
        region(0x8000, 0x8000, MemoryRegionType::Reserved),
    ];
    let mut a = BootInfoFrameAllocator::init(map).unwrap();
    assert_eq!(a.allocate_frame(), None);
}

#[test]
fn region_at_top_of_address_space() {
    let map = vec![region(u64::MAX - 0x2fff, 0x2fff, MemoryRegionType::Usable)];
    let mut a = BootInfoFrameAllocator::init(map).unwrap();
    assert_eq!(drain(&mut a), vec![u64::MAX - 0x2fff, u64::MAX - 0x1fff]);
}

#[test]
fn overflowing_region_is_refused() {
    let map = vec![
        region(0x1000, 0x1000, MemoryRegionType::Usable),
        region(u64::MAX - 0xfff, 0x1000, MemoryRegionType::Usable),
    ];
    assert_eq!(
        BootInfoFrameAllocator::init(map).err(),
        Some(MemoryMapError::InvalidRegion { index: 1 })
    );
}

#[test]
fn overlapping_regions_are_refused() {
    let map = vec![
        region(0x1000, 0x2000, MemoryRegionType::Usable),
        region(0x2000, 0x2000, MemoryRegionType::Usable),
    ];
    assert_eq!(
        BootInfoFrameAllocator::init(map).err(),
        Some(MemoryMapError::InvalidRegion { index: 1 })
    );
}
