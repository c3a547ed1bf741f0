use bxr::memory::{MemoryError, PhysicalMemory, PAGE_SIZE};

#[test]
fn rejects_unaligned_size() {
    assert_eq!(
        PhysicalMemory::new(PAGE_SIZE + 1),
        Err(MemoryError::SizeMustBePageAligned)
    );
}

#[test]
fn write_marks_dirty_pages() {
    let mut memory = PhysicalMemory::new(PAGE_SIZE * 2).unwrap();
    memory.write((PAGE_SIZE - 2) as u64, &[1, 2, 3, 4]).unwrap();
    assert_eq!(memory.dirty_pages(), vec![0, 1]);
}

#[test]
fn executable_write_advances_generation() {
    let mut memory = PhysicalMemory::new(PAGE_SIZE).unwrap();
    memory.mark_executable(0);
    assert_eq!(memory.page_generation(0), Some(0));
    memory.write(0, &[0x90]).unwrap();
    assert_eq!(memory.page_generation(0), Some(1));
}

#[test]
fn reports_page_index_for_in_bounds_address() {
    let memory = PhysicalMemory::new(PAGE_SIZE * 2).unwrap();

    assert_eq!(memory.page_index_for_addr(0), Some(0));
    assert_eq!(memory.page_index_for_addr(PAGE_SIZE as u64), Some(1));
    assert_eq!(memory.page_index_for_addr((PAGE_SIZE * 2) as u64), None);
}

#[test]
fn executable_range_marks_cross_page_code() {
    let mut memory = PhysicalMemory::new(PAGE_SIZE * 2).unwrap();
    memory
        .mark_executable_range((PAGE_SIZE - 1) as u64, 2)
        .unwrap();

    memory.write((PAGE_SIZE - 1) as u64, &[0x90, 0x90]).unwrap();

    assert_eq!(memory.page_generation(0), Some(1));
    assert_eq!(memory.page_generation(1), Some(1));
}

#[test]
fn read_returns_what_write_stored() {
    let mut memory = PhysicalMemory::new(PAGE_SIZE).unwrap();
    memory.write(10, &[7, 8, 9]).unwrap();
    let mut out = [0u8; 3];
    memory.read(10, &mut out).unwrap();
    assert_eq!(out, [7, 8, 9]);
    assert_eq!(memory.read_u8(11), Ok(8));
}

#[test]
fn u64_round_trips_little_endian() {
    let mut memory = PhysicalMemory::new(PAGE_SIZE).unwrap();
    memory.write_u64_le(0x20, 0x1122_3344_5566_7788).unwrap();
    assert_eq!(memory.read_u64_le(0x20), Ok(0x1122_3344_5566_7788));
    assert_eq!(memory.read_u8(0x20), Ok(0x88));
    assert_eq!(memory.read_u8(0x27), Ok(0x11));
}

#[test]
fn out_of_bounds_access_is_rejected_and_changes_nothing() {
    let mut memory = PhysicalMemory::new(PAGE_SIZE).unwrap();
    assert_eq!(
        memory.write(PAGE_SIZE as u64 - 1, &[1, 2]),
        Err(MemoryError::OutOfBounds {
            addr: PAGE_SIZE as u64 - 1,
            len: 2
        })
    );
    assert_eq!(memory.dirty_pages(), Vec::<usize>::new());
    assert_eq!(
        memory.read_u64_le(PAGE_SIZE as u64 - 4),
        Err(MemoryError::OutOfBounds {
            addr: PAGE_SIZE as u64 - 4,
            len: 8
        })
    );
    assert_eq!(
        memory.mark_executable_range(u64::MAX, 1),
        Err(MemoryError::OutOfBounds {
            addr: u64::MAX,
            len: 1
        })
    );
}

#[test]
fn clear_dirty_forgets_writes_and_plain_pages_keep_generation() {
    let mut memory = PhysicalMemory::new(PAGE_SIZE * 2).unwrap();
    memory.write(0, &[1]).unwrap();
    assert_eq!(memory.page_generation(0), Some(0));
    assert_eq!(memory.dirty_pages(), vec![0]);
    memory.clear_dirty();
    assert_eq!(memory.dirty_pages(), Vec::<usize>::new());
    assert_eq!(memory.len(), PAGE_SIZE * 2);
    assert!(!memory.is_empty());
    assert_eq!(memory.page_generation(2), None);
}
