use x86_64::structures::paging::{Page as TheirPage, Size4KiB};
use kros::addr::{Page, PhysAddr, PhysFrame, VirtAddr, ENTRY_COUNT, PAGE_SIZE, RECURSIVE_INDEX};

#[test]
fn canonical_addresses_are_kept() {
    assert_eq!(VirtAddr::try_new(0).unwrap().as_u64(), 0);
    assert_eq!(VirtAddr::try_new(0xb8000).unwrap().as_u64(), 0xb8000);
    assert_eq!(VirtAddr::try_new(0x7fff_ffff_ffff).unwrap().as_u64(), 0x7fff_ffff_ffff);
    assert_eq!(
        VirtAddr::try_new(0xffff_8000_0000_0000).unwrap().as_u64(),
        0xffff_8000_0000_0000
    );
    assert_eq!(VirtAddr::try_new(u64::MAX).unwrap().as_u64(), u64::MAX);
    assert_eq!(VirtAddr::new(0x4444_4444_0000).as_u64(), 0x4444_4444_0000);
}

#[test]
fn addresses_with_bit_47_are_sign_extended() {
    assert_eq!(
        VirtAddr::try_new(0x8000_0000_0000).unwrap().as_u64(),
        0xffff_8000_0000_0000
    );
    assert_eq!(
        VirtAddr::try_new(0xffff_ffff_ffff).unwrap().as_u64(),
        0xffff_ffff_ffff_ffff
    );
    assert_eq!(VirtAddr::new(0x8000_0000_1234).as_u64(), 0xffff_8000_0000_1234);
}

#[test]
fn addresses_with_data_in_the_high_bits_are_refused() {
    assert_eq!(VirtAddr::try_new(0x0001_0000_0000_0000), None);
    assert_eq!(VirtAddr::try_new(0x0001_8000_0000_0000), None);
    assert_eq!(VirtAddr::try_new(0xffff_0000_0000_0000), None);
    assert_eq!(VirtAddr::try_new(0x8000_0000_0000_0000), None);
    assert_eq!(VirtAddr::try_new(0xfffe_8000_0000_0000), None);
}

#[test]
fn new_truncate_overwrites_the_high_bits() {
    assert_eq!(VirtAddr::new_truncate(0).as_u64(), 0);
    assert_eq!(VirtAddr::new_truncate(1 << 47).as_u64(), 0xfffff << 47);
    assert_eq!(VirtAddr::new_truncate(123).as_u64(), 123);
    assert_eq!(VirtAddr::new_truncate(123 << 47).as_u64(), 0xfffff << 47);
    assert_eq!(VirtAddr::new_truncate(0xabcd_0000_0000_1000).as_u64(), 0x1000);
}

#[test]
fn virtual_addresses_agree_with_the_x86_64_crate() {
    let samples = [
        0u64,
        0xabcd,
        0xb8000,
        0x201008,
        0x0100_0020_1a10,
        0x4444_4444_0000,
        0x7fff_ffff_ffff,
        0x8000_0000_0000,
        0xffff_ffff_ffff,
        0x0001_0000_0000_0000,
        0xffff_8000_0000_0000,
        0xffff_7fff_ffff_ffff,
        u64::MAX,
    ];
    for raw in samples {
        let theirs = x86_64::VirtAddr::try_new(raw).ok();
        let ours = VirtAddr::try_new(raw);
        assert_eq!(ours.map(|a| a.as_u64()), theirs.map(|a| a.as_u64()));
        if let (Some(ours), Some(theirs)) = (ours, theirs) {
            assert_eq!(ours.p4_index(), u16::from(theirs.p4_index()));
            assert_eq!(ours.p3_index(), u16::from(theirs.p3_index()));
            assert_eq!(ours.p2_index(), u16::from(theirs.p2_index()));
            assert_eq!(ours.p1_index(), u16::from(theirs.p1_index()));
            assert_eq!(ours.page_offset(), u16::from(theirs.page_offset()));
            assert_eq!(
                Page::containing_address(ours).start_address().as_u64(),
                TheirPage::<Size4KiB>::containing_address(theirs)
                    .start_address()
                    .as_u64()
            );
        }
        assert_eq!(
            VirtAddr::new_truncate(raw).as_u64(),
            x86_64::VirtAddr::new_truncate(raw).as_u64()
        );
    }
}

#[test]
fn indices_of_a_low_address() {
    // 0xabcd lies in page 10 of the first table of each level, 0xbcd bytes in
    let addr = VirtAddr::new(0xabcd);
    assert_eq!(addr.p4_index(), 0);
    assert_eq!(addr.p3_index(), 0);
    assert_eq!(addr.p2_index(), 0);
    assert_eq!(addr.p1_index(), 10);
    assert_eq!(addr.page_offset(), 0xbcd);
    assert_eq!(addr.page_offset(), 3021);
}

#[test]
fn indices_of_other_addresses() {
    let addr = VirtAddr::new(0x0100_0020_1a10);
    assert_eq!(addr.p4_index(), 2);
    assert_eq!(addr.p3_index(), 0);
    assert_eq!(addr.p2_index(), 1);
    assert_eq!(addr.p1_index(), 1);
    assert_eq!(addr.page_offset(), 0xa10);
    let addr = VirtAddr::new(u64::MAX);
    assert_eq!(addr.p4_index(), 511);
    assert_eq!(addr.p3_index(), 511);
    assert_eq!(addr.p2_index(), 511);
    assert_eq!(addr.p1_index(), 511);
    assert_eq!(addr.page_offset(), 4095);
    assert_eq!(ENTRY_COUNT, 512);
}

#[test]
fn address_is_rebuilt_from_its_indices() {
    let samples = [
        0u64,
        0xabcd,
        0xb8000,
        0x201008,
        0x0100_0020_1a10,
        0x4444_4444_0000,
        0x7fff_ffff_ffff,
        0xffff_8000_0000_0000,
        0xffff_8123_4567_89ab,
        u64::MAX,
    ];
    for raw in samples {
        let addr = VirtAddr::new(raw);
        let rebuilt = VirtAddr::from_indices(
            addr.p4_index(),
            addr.p3_index(),
            addr.p2_index(),
            addr.p1_index(),
            addr.page_offset(),
        );
        assert_eq!(rebuilt, addr);
        assert_eq!(rebuilt.as_u64(), raw);
    }
}

#[test]
fn indices_are_those_an_address_was_built_from() {
    let addr = VirtAddr::from_indices(256, 3, 511, 0, 0x123);
    assert_eq!(addr.as_u64(), 0xffff_8000_ffe0_0123);
    assert_eq!(addr.p4_index(), 256);
    assert_eq!(addr.p3_index(), 3);
    assert_eq!(addr.p2_index(), 511);
    assert_eq!(addr.p1_index(), 0);
    assert_eq!(addr.page_offset(), 0x123);
    assert_eq!(VirtAddr::from_indices(0, 0, 0, 10, 0xbcd).as_u64(), 0xabcd);
}

#[test]
fn checked_add_stays_in_the_address_space() {
    let base = VirtAddr::new(0x1000);
    assert_eq!(base.checked_add(0x234).unwrap().as_u64(), 0x1234);
    assert_eq!(
        base.checked_add(0x8000_0000_0000 - 0x1000).unwrap().as_u64(),
        0xffff_8000_0000_0000
    );
    assert_eq!(base.checked_add(0x0001_0000_0000_0000), None);
    assert_eq!(VirtAddr::new(u64::MAX).checked_add(1), None);
    let offset = VirtAddr::new(0xffff_8000_0000_0000);
    assert_eq!(offset.checked_add(0x2000).unwrap().as_u64(), 0xffff_8000_0000_2000);
}

#[test]
fn physical_addresses_have_52_bits() {
    assert_eq!(PhysAddr::try_new(0).unwrap().as_u64(), 0);
    assert_eq!(PhysAddr::try_new(0xb8000).unwrap().as_u64(), 0xb8000);
    assert_eq!(
        PhysAddr::try_new(0x000f_ffff_ffff_ffff).unwrap().as_u64(),
        0x000f_ffff_ffff_ffff
    );
    assert_eq!(PhysAddr::try_new(0x0010_0000_0000_0000), None);
    assert_eq!(PhysAddr::try_new(u64::MAX), None);
    assert_eq!(PhysAddr::new(0x1234).as_u64(), 0x1234);
    for raw in [0u64, 1 << 51, (1 << 52) - 1, 1 << 52, 1 << 63] {
        assert_eq!(
            PhysAddr::try_new(raw).map(|a| a.as_u64()),
            x86_64::PhysAddr::try_new(raw).ok().map(|a| a.as_u64())
        );
    }
}

#[test]
fn pages_and_frames_start_on_a_boundary() {
    assert_eq!(PAGE_SIZE, 4096);
    let frame = PhysFrame::containing_address(PhysAddr::new(0xb8123));
    assert_eq!(frame.start_address().as_u64(), 0xb8000);
    let frame = PhysFrame::containing_address(PhysAddr::new(0xb8000));
    assert_eq!(frame.start_address().as_u64(), 0xb8000);
    let page = Page::containing_address(VirtAddr::new(0xabcdef));
    assert_eq!(page.start_address().as_u64(), 0xabc000);
    let page = Page::containing_address(VirtAddr::new(u64::MAX));
    assert_eq!(page.start_address().as_u64(), 0xffff_ffff_ffff_f000);
    let page = Page::containing_address(VirtAddr::new(0xfff));
    assert_eq!(page.start_address().as_u64(), 0);
}

#[test]
fn recursive_mapping_finds_the_tables_of_an_address() {
    assert_eq!(RECURSIVE_INDEX, 511);
    let addr = VirtAddr::new(0xabcd);
    assert_eq!(addr.recursive_table_addr(4).as_u64(), 0xffff_ffff_ffff_f000);
    assert_eq!(addr.recursive_table_addr(3).as_u64(), 0xffff_ffff_ffe0_0000);
    assert_eq!(addr.recursive_table_addr(2).as_u64(), 0xffff_ffff_c000_0000);
    assert_eq!(addr.recursive_table_addr(1).as_u64(), 0xffff_ff80_0000_0000);
    let addr = VirtAddr::new(0x0100_0020_1a10);
    // indices 2, 0, 1, 1
    assert_eq!(addr.recursive_table_addr(4).as_u64(), 0xffff_ffff_ffff_f000);
    assert_eq!(addr.recursive_table_addr(3).as_u64(), 0xffff_ffff_ffe0_2000);
    assert_eq!(addr.recursive_table_addr(2).as_u64(), 0xffff_ffff_c040_0000);
    assert_eq!(addr.recursive_table_addr(1).as_u64(), 0xffff_ff80_8000_1000);
}

#[test]
fn recursive_table_address_has_the_indices_shifted_by_one_level() {
    let addr = VirtAddr::new(0xffff_8123_4567_89ab);
    let table = addr.recursive_table_addr(1);
    assert_eq!(table.p4_index(), RECURSIVE_INDEX);
    assert_eq!(table.p3_index(), addr.p4_index());
    assert_eq!(table.p2_index(), addr.p3_index());
    assert_eq!(table.p1_index(), addr.p2_index());
    assert_eq!(table.page_offset(), 0);
    let table = addr.recursive_table_addr(2);
    assert_eq!(table.p3_index(), RECURSIVE_INDEX);
    assert_eq!(table.p2_index(), addr.p4_index());
    assert_eq!(table.p1_index(), addr.p3_index());
}
