use bench_suite::memory::{fill_pattern, sum_bytes, BASE_BUFFER_SIZE, NUM_THREADS};

#[test]
fn test_memory_buffer_operations() {
    let buffer_size = 1_000_000; // 1 MB for testing
    let mut buffer = vec![0u8; buffer_size];

    // Write
    fill_pattern(&mut buffer, 0);

    // Verify write
    for (i, byte) in buffer.iter().enumerate() {
        assert_eq!(*byte, (i % 256) as u8);
    }

    // Read
    let sum = sum_bytes(&buffer);

    assert!(
        sum > 0,
        "Memory read operation should accumulate non-zero sum"
    );
}

#[test]
fn fill_pattern_starts_at_the_thread_number() {
    let mut buffer = vec![0u8; 1000];
    fill_pattern(&mut buffer, 3);
    assert_eq!(buffer[0], 3);
    assert_eq!(buffer[252], 255);
    assert_eq!(buffer[253], 0);
    assert_eq!(buffer.len(), 1000);
    assert_eq!(sum_bytes(&buffer), 125412);
}

#[test]
fn sum_bytes_adds_every_byte() {
    assert_eq!(sum_bytes(&Vec::new()), 0);
    assert_eq!(sum_bytes(&vec![1, 2, 3]), 6);
    assert_eq!(sum_bytes(&vec![255u8; 1000]), 255_000);
    let mut buffer = vec![0u8; 1_000_000];
    fill_pattern(&mut buffer, 0);
    assert_eq!(sum_bytes(&buffer), 127493856);
}

#[test]
fn memory_kernel_sizes() {
    assert_eq!(BASE_BUFFER_SIZE, 512_000_000);
    assert_eq!(NUM_THREADS, 8);
}
