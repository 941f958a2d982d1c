use bochservisor::dirty::{merge_dirty_bitmap, reset_dirty_pages};

#[test]
fn dirty_restore_single_byte() {
    let size = 0x40_0000usize;
    let original: Vec<u8> = (0..size).map(|i| (i % 251) as u8).collect();
    let mut memory = original.clone();
    memory[0x12345] = 0xAA;
    let mut l1 = vec![0u64; 1];
    let mut l2 = vec![0u64; 256];
    let mut bitmap = vec![0u64; 16];
    bitmap[0] = 1u64 << 0x12;
    merge_dirty_bitmap(&mut l1, &mut l2, 0, size as u64, &bitmap);
    assert_eq!(l1[0], 1);
    assert_eq!(l2[0], 1u64 << 0x12);
    reset_dirty_pages(&original, &mut memory, &mut l1, &mut l2);
    assert_eq!(memory[0x12345], original[0x12345]);
    assert!(memory == original);
    assert!(l1.iter().all(|&w| w == 0));
    assert!(l2.iter().all(|&w| w == 0));
}

#[test]
fn restore_touches_only_marked_pages() {
    let size = 0x20_0000usize;
    let original = vec![0u8; size];
    let mut memory = vec![0u8; size];
    memory[0x1000] = 1;
    memory[0x15_0000] = 2;
    let mut l1 = vec![0u64; 1];
    let mut l2 = vec![0u64; 256];
    // The hypervisor reports only the page at 0x1000 of a region at 1 MiB.
    let mut bitmap = vec![0u64; 4];
    bitmap[1] = 1u64 << 16;
    merge_dirty_bitmap(&mut l1, &mut l2, 0x10_0000, 0x10_0000, &bitmap[..]);
    assert_eq!(l1[0], 0b10);
    reset_dirty_pages(&original, &mut memory, &mut l1, &mut l2);
    assert_eq!(memory[0x15_0000], 0);
    assert_eq!(memory[0x1000], 1);
    assert!(l2.iter().all(|&w| w == 0));
}

#[test]
fn merge_unaligned_region() {
    let mut l1 = vec![0u64; 1];
    let mut l2 = vec![0u64; 256];
    let bitmap = vec![0b101u64];
    merge_dirty_bitmap(&mut l1, &mut l2, 0x3000, 0x3000, &bitmap);
    assert_eq!(l2[0], (1u64 << 3) | (1u64 << 5));
    assert_eq!(l1[0], 1);
}
