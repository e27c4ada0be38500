use kros::allocator::{align_up, is_power_of_two, Layout};

#[test]
fn align_up_rounds_to_next_multiple() {
    assert_eq!(align_up(0b1_0010, 8), 24);
    assert_eq!(align_up(1, 4096), 4096);
    assert_eq!(align_up(4097, 4096), 8192);
    assert_eq!(align_up(0x4444_4444_0001, 16), 0x4444_4444_0010);
}

#[test]
fn align_up_keeps_aligned_addresses() {
    assert_eq!(align_up(0, 8), 0);
    assert_eq!(align_up(24, 8), 24);
    assert_eq!(align_up(4096, 4096), 4096);
    assert_eq!(align_up(usize::MAX, 1), usize::MAX);
    assert_eq!(align_up(usize::MAX - 7, 8), usize::MAX - 7);
}

#[test]
fn align_up_is_idempotent() {
    for align in [1usize, 2, 4, 8, 16, 64, 4096, 1 << 20] {
        for addr in [0usize, 1, 7, 8, 9, 4095, 4096, 4097, 0x4444_4444_0000, 0x1234_5678_9abc] {
            let once = align_up(addr, align);
            assert_eq!(align_up(once, align), once);
            assert_eq!(once % align, 0);
            assert!(addr <= once && once < addr + align);
        }
    }
}

#[test]
fn power_of_two_test_agrees_with_std() {
    for n in 0usize..5000 {
        assert_eq!(is_power_of_two(n), n.is_power_of_two());
    }
    assert!(is_power_of_two(1 << 63));
    assert!(!is_power_of_two(usize::MAX));
    assert!(!is_power_of_two((1 << 63) + 1));
}

#[test]
fn layout_accepts_what_is_valid() {
    let layout = Layout::from_size_align(24, 8).unwrap();
    assert_eq!(layout.size(), 24);
    assert_eq!(layout.align(), 8);
    assert_eq!(layout, Layout { size: 24, align: 8 });
    assert!(Layout::from_size_align(0, 1).is_some());
    assert!(Layout::from_size_align(isize::MAX as usize, 1).is_some());
    assert!(Layout::from_size_align(isize::MAX as usize - 7, 8).is_some());
}

#[test]
fn layout_rejects_what_is_not() {
    assert_eq!(Layout::from_size_align(8, 0), None);
    assert_eq!(Layout::from_size_align(8, 3), None);
    assert_eq!(Layout::from_size_align(8, 24), None);
    assert_eq!(Layout::from_size_align(isize::MAX as usize + 1, 1), None);
    assert_eq!(Layout::from_size_align(isize::MAX as usize - 6, 8), None);
}
