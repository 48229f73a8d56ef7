use blog_kernel::paging::{MapperError, OffsetPageTable, PageTable, TranslateError, MAX_PHYS_OFFSET};

const OFFSET: u64 = 0x0000_1000_0000_0000;

fn index(addr: u64, shift: u32) -> usize {
    ((addr >> shift) & 0x1ff) as usize
}

/// Tables at 0x1000 (L4), 0x2000 (L3), 0x3000 (L2), 0x4000 (L1) mapping the
/// page of `virt` to physical frame `frame`.
fn map_one(virt: u64, frame: u64) -> OffsetPageTable {
    let mut m = OffsetPageTable::new(OFFSET, 0x1000).unwrap();
    let mut l4 = PageTable::new();
    let mut l3 = PageTable::new();
    let mut l2 = PageTable::new();
    let mut l1 = PageTable::new();
    l4.set_entry(index(virt, 39), 0x2000 | 0x3);
    l3.set_entry(index(virt, 30), 0x3000 | 0x3);
    l2.set_entry(index(virt, 21), 0x4000 | 0x3);
    l1.set_entry(index(virt, 12), frame | 0x3);
    m.add_table(0x1000, l4).unwrap();
    m.add_table(0x2000, l3).unwrap();
    m.add_table(0x3000, l2).unwrap();
    m.add_table(0x4000, l1).unwrap();
    m
}

#[test]
fn empty_window_maps_nothing() {
    let m = OffsetPageTable::new(OFFSET, 0x1000).unwrap();
    for addr in [0u64, 0xb8000, OFFSET, 0x4444_0000_1234, u64::MAX] {
        assert_eq!(m.translate(addr), Ok(None));
    }
}

#[test]
fn offset_base_translates_to_zero() {
    let m = map_one(OFFSET, 0);
    assert_eq!(m.translate(OFFSET), Ok(Some(0)));
}

#[test]
fn mapped_page_keeps_page_offset() {
    let m = map_one(0x4444_0000_0000, 0x0020_0000);
    assert_eq!(m.translate(0x4444_0000_0123), Ok(Some(0x0020_0123)));
    assert_eq!(m.translate(0x4444_0000_0fff), Ok(Some(0x0020_0fff)));
}

#[test]
fn addresses_not_mapped_are_unmapped() {
    let m = map_one(0x4444_0000_0000, 0x0020_0000);
    assert_eq!(m.translate(0x4444_0000_1000), Ok(None));
    assert_eq!(m.translate(0x4444_4000_0000), Ok(None));
    assert_eq!(m.translate(0x0000_0000_0000), Ok(None));
}

#[test]
fn huge_page_is_reported() {
    let virt = 0x4444_0000_0000u64;
    let mut m = OffsetPageTable::new(OFFSET, 0x1000).unwrap();
    let mut l4 = PageTable::new();
    let mut l3 = PageTable::new();
    l4.set_entry(index(virt, 39), 0x2000 | 0x3);
    l3.set_entry(index(virt, 30), 0x4000_0000 | 0x83);
    m.add_table(0x1000, l4).unwrap();
    m.add_table(0x2000, l3).unwrap();
    assert_eq!(m.translate(virt), Err(TranslateError::HugePage));
}

#[test]
fn not_present_entry_stops_walk() {
    let virt = 0x4444_0000_0000u64;
    let mut m = OffsetPageTable::new(OFFSET, 0x1000).unwrap();
    let mut l4 = PageTable::new();
    l4.set_entry(index(virt, 39), 0x2000 | 0x2);
    m.add_table(0x1000, l4).unwrap();
    assert_eq!(m.translate(virt), Ok(None));
}

#[test]
fn later_table_replaces_earlier() {
    let virt = 0x4444_0000_0000u64;
    let mut m = map_one(virt, 0x0020_0000);
    m.add_table(0x4000, PageTable::new()).unwrap();
    assert_eq!(m.translate(virt), Ok(None));
}

#[test]
fn translate_leaves_tables_unchanged() {
    let virt = 0x4444_0000_0000u64;
    let m = map_one(virt, 0x0020_0000);
    let first = m.translate(virt);
    let second = m.translate(virt);
    assert_eq!(first, second);
    assert_eq!(second, Ok(Some(0x0020_0000)));
}

#[test]
fn bad_offset_is_refused() {
    assert_eq!(OffsetPageTable::new(MAX_PHYS_OFFSET + 0x1000, 0x1000).err(), Some(MapperError::InvalidOffset));
    assert_eq!(OffsetPageTable::new(0x10, 0x1000).err(), Some(MapperError::InvalidOffset));
}

#[test]
fn bad_root_is_refused() {
    assert_eq!(OffsetPageTable::new(OFFSET, 0x1234).err(), Some(MapperError::InvalidRoot));
    assert_eq!(OffsetPageTable::new(OFFSET, 1u64 << 60).err(), Some(MapperError::InvalidRoot));
}

#[test]
fn table_outside_window_is_refused() {
    let mut m = OffsetPageTable::new(MAX_PHYS_OFFSET, 0x1000).unwrap();
    assert_eq!(m.add_table(u64::MAX - 0xfff, PageTable::new()), Err(MapperError::OutsideWindow));
}
