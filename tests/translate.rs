use paging::entry::PageTableEntry;
use paging::error::TranslationError;
use paging::frame::FrameAllocator;
use paging::memory::PhysicalMemory;
use paging::table::PageTable;
use paging::translate::translate_virtual_to_physical_address;

const ROOT: u64 = 0x1000;

fn fresh_memory() -> PhysicalMemory {
    let mut m = PhysicalMemory::new();
    m.store_page_table(ROOT, PageTable::new());
    m
}

#[test]
fn translate_builds_hierarchy_then_reuses_it() {
    let mut m = fresh_memory();
    let mut a = FrameAllocator::new(2, 64);
    let first = translate_virtual_to_physical_address(0x1000, ROOT, &mut m, &mut a);
    // PDPT at 0x2000, PD at 0x3000, PT at 0x4000, data frame at 0x5000.
    assert_eq!(first, Ok(0x5000));
    let root = m.get_page_table(ROOT).unwrap();
    assert_eq!(root.get_entry(0).unwrap().get_phys_address(), 0x2000);
    let pt = m.get_page_table(0x4000).unwrap();
    assert_eq!(pt.get_entry(1).unwrap().get_phys_address(), 0x5000);
    assert!(pt.get_entry(1).unwrap().is_present());
    let second = translate_virtual_to_physical_address(0x1000, ROOT, &mut m, &mut a);
    assert_eq!(second, first);
    // Four frames were taken by the first call and none by the second.
    assert_eq!(a.allocate_frame(), Ok(6 * 4096));
}

#[test]
fn translate_adds_offset() {
    let mut m = fresh_memory();
    let mut a = FrameAllocator::new(2, 64);
    assert_eq!(translate_virtual_to_physical_address(0x1ABC, ROOT, &mut m, &mut a), Ok(0x5ABC));
    assert_eq!(translate_virtual_to_physical_address(0x1000, ROOT, &mut m, &mut a), Ok(0x5000));
    assert_eq!(a.allocate_frame(), Ok(6 * 4096));
}

#[test]
fn translate_is_idempotent() {
    let mut m = fresh_memory();
    let mut a = FrameAllocator::new(2, 64);
    let v: u64 = 0x0000_1234_5678_9ABC;
    let first = translate_virtual_to_physical_address(v, ROOT, &mut m, &mut a).unwrap();
    let second = translate_virtual_to_physical_address(v, ROOT, &mut m, &mut a).unwrap();
    assert_eq!(first, second);
    assert_eq!(first & 0xFFF, 0xABC);
    assert_eq!(a.allocate_frame(), Ok(6 * 4096));
}

#[test]
fn translate_isolates_pt_slots() {
    let mut m = fresh_memory();
    let mut a = FrameAllocator::new(2, 64);
    let p1 = translate_virtual_to_physical_address(0x1000, ROOT, &mut m, &mut a).unwrap();
    let p2 = translate_virtual_to_physical_address(0x2000, ROOT, &mut m, &mut a).unwrap();
    // Only one more frame: the data frame of the second address.
    assert_eq!(p1, 0x5000);
    assert_eq!(p2, 0x6000);
    let pt = m.get_page_table(0x4000).unwrap();
    assert_eq!(pt.get_entry(1).unwrap().get_phys_address(), 0x5000);
    assert_eq!(pt.get_entry(2).unwrap().get_phys_address(), 0x6000);
    assert_eq!(translate_virtual_to_physical_address(0x1000, ROOT, &mut m, &mut a), Ok(p1));
    assert_eq!(a.allocate_frame(), Ok(7 * 4096));
}

#[test]
fn translate_rejects_non_canonical() {
    let mut m = fresh_memory();
    let mut a = FrameAllocator::new(2, 64);
    assert_eq!(
        translate_virtual_to_physical_address(0x0000_8000_0000_0000, ROOT, &mut m, &mut a),
        Err(TranslationError::InvalidAddress)
    );
    assert_eq!(
        translate_virtual_to_physical_address(0x1234_0000_0000_1000, ROOT, &mut m, &mut a),
        Err(TranslationError::InvalidAddress)
    );
    // Nothing was allocated or linked.
    assert_eq!(a.allocate_frame(), Ok(2 * 4096));
    assert!(!m.get_page_table(ROOT).unwrap().get_entry(0).unwrap().is_present());
}

#[test]
fn translate_accepts_upper_half() {
    let mut m = fresh_memory();
    let mut a = FrameAllocator::new(2, 64);
    assert_eq!(
        translate_virtual_to_physical_address(0xFFFF_8000_0000_0010, ROOT, &mut m, &mut a),
        Ok(0x5010)
    );
    assert!(m.get_page_table(ROOT).unwrap().get_entry(256).unwrap().is_present());
}

#[test]
fn translate_out_of_memory_keeps_partial_walk() {
    let mut m = fresh_memory();
    let mut a = FrameAllocator::new(2, 4);
    assert_eq!(
        translate_virtual_to_physical_address(0x1000, ROOT, &mut m, &mut a),
        Err(TranslationError::OutOfMemory)
    );
    assert!(m.get_page_table(0x2000).is_some());
    assert!(m.get_page_table(0x3000).is_some());
    assert!(m.get_page_table(0x4000).is_none());
    assert_eq!(
        translate_virtual_to_physical_address(0x1000, ROOT, &mut m, &mut a),
        Err(TranslationError::OutOfMemory)
    );
}

#[test]
fn translate_missing_root_table() {
    let mut m = PhysicalMemory::new();
    let mut a = FrameAllocator::new(2, 64);
    assert_eq!(
        translate_virtual_to_physical_address(0x1000, ROOT, &mut m, &mut a),
        Err(TranslationError::MissingTable)
    );
    assert_eq!(a.allocate_frame(), Ok(2 * 4096));
}

#[test]
fn translate_follows_existing_entries() {
    let mut m = fresh_memory();
    let mut a = FrameAllocator::new(100, 200);
    let link = |f: u64| PageTableEntry::new(f, true, true, false).unwrap();
    m.get_mut_page_table(ROOT).unwrap().add_entry(0, link(0x2000)).unwrap();
    let mut pdpt = PageTable::new();
    pdpt.add_entry(0, link(0x3000)).unwrap();
    m.store_page_table(0x2000, pdpt);
    let mut pd = PageTable::new();
    pd.add_entry(0, link(0x4000)).unwrap();
    m.store_page_table(0x3000, pd);
    let mut pt = PageTable::new();
    pt.add_entry(1, link(0x9_9000)).unwrap();
    m.store_page_table(0x4000, pt);
    assert_eq!(translate_virtual_to_physical_address(0x1004, ROOT, &mut m, &mut a), Ok(0x9_9004));
    assert_eq!(a.allocate_frame(), Ok(100 * 4096));
}
