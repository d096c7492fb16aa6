use bench_suite::disk::{aligned_offset, alloc_aligned, ALIGNMENT, BASE_FILE_SIZE};

#[test]
fn aligned_offset_reaches_the_next_block() {
    assert_eq!(aligned_offset(0), 0);
    assert_eq!(aligned_offset(4096), 0);
    assert_eq!(aligned_offset(1), 4095);
    assert_eq!(aligned_offset(4097), 4095);
    assert_eq!(aligned_offset(8191), 1);
    assert_eq!(aligned_offset(usize::MAX), 1);
}

#[test]
fn alloc_aligned_leaves_room_for_the_transfer() {
    let (buffer, offset) = alloc_aligned(100);
    assert_eq!(buffer.len(), 100 + ALIGNMENT);
    assert!(offset < ALIGNMENT);
    assert!(offset + 100 <= buffer.len());
    assert!(buffer.iter().all(|&b| b == 0));
    assert_eq!((buffer.as_ptr() as usize + offset) % ALIGNMENT, 0);
}

#[test]
fn alloc_aligned_of_nothing() {
    let (buffer, offset) = alloc_aligned(0);
    assert_eq!(buffer.len(), 4096);
    assert!(offset < 4096);
}

#[test]
fn disk_kernel_sizes() {
    assert_eq!(BASE_FILE_SIZE, 50_000_000);
    assert_eq!(ALIGNMENT, 4096);
}
