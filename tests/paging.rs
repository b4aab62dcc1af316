use bootcore::paging::{
    FrameAllocator, PageEntry, PageHierarchy, PageTable, PagingError, AVAILABLE_4, OFFSET,
    PRESENT, WRITE_ENABLE,
};
use bootcore::uflags::Flags16;

/// Hands out consecutive frames from `next`, at most `left` of them.
struct Frames {
    next: u64,
    left: usize,
}

impl FrameAllocator for Frames {
    fn allocate_frame(&mut self) -> Option<u64> {
        if self.left == 0 {
            return None;
        }
        self.left -= 1;
        let f = self.next;
        self.next += 0x1000;
        Some(f)
    }
}

/// Always hands out the same frame.
struct SameFrame;

impl FrameAllocator for SameFrame {
    fn allocate_frame(&mut self) -> Option<u64> {
        Some(0x5000)
    }
}

#[test]
fn checkalignment() {
    assert_eq!(core::mem::size_of::<PageTable>(), 4096);
    assert_eq!(core::mem::size_of::<PageEntry>(), 8);
}

#[test]
fn uniontest() {
    let foo = PageEntry::from_u64(8192u64 | PRESENT as u64 | AVAILABLE_4 as u64);
    assert_eq!(foo.flags().0, PRESENT | AVAILABLE_4);
    assert_eq!(foo.address(), 8192u64);
}

#[test]
fn raw_parts_split_address_and_flags() {
    let e = PageEntry::from_u64(0x2000 | PRESENT as u64 | AVAILABLE_4 as u64);
    assert_eq!(e.as_raw_parts(), (0x2000, PRESENT | AVAILABLE_4));
    let f = e.flags();
    assert_eq!(f.check_flag(0), Some(false));
    assert_eq!(f.check_flag(11), Some(false));
    for bit in [1usize, 2, 3, 4, 5, 6, 7, 8, 9, 10, 12, 13, 14, 15] {
        assert_eq!(f.check_flag(bit), Some(true));
    }
}

#[test]
fn set_address_rounds_down() {
    for (input, expected) in [
        (0u64, 0u64),
        (0x1000, 0x1000),
        (0x1fff, 0x1000),
        (0x1234_5678, 0x1234_5000),
        (u64::MAX, 0xFFFF_FFFF_FFFF_F000),
        (0xFFF, 0),
    ] {
        let mut e = PageEntry::from_u64(0);
        e.set_address(input);
        assert_eq!(e.address(), expected);
    }
}

#[test]
fn set_flags_truncates_to_flag_register() {
    let mut e = PageEntry::from_u64(0);
    e.set_flags(Flags16::from_u16(0xFFFF));
    assert_eq!(e.flags().into_u16(), 0x0FFF);
    e.set_flags(Flags16::from_u16(PRESENT | WRITE_ENABLE));
    assert_eq!(e.flags().into_u16(), PRESENT | WRITE_ENABLE);
}

#[test]
fn address_and_flags_do_not_disturb_each_other() {
    let mut e = PageEntry::from_u64(0);
    e.set_address(0xABCD_E000);
    e.set_flags(Flags16::from_u16(0xFFFF));
    assert_eq!(e.address(), 0xABCD_E000);
    e.set_address(0x1234_5FFF);
    assert_eq!(e.flags().into_u16(), 0x0FFF);
    assert_eq!(e.address(), 0x1234_5000);
}

#[test]
fn init_page_with_paddr_sets_present_only() {
    let mut e = PageEntry::from_u64(0xFFFF_FFFF_FFFF_FFFF);
    e.init_page_with_paddr(0x7_3FFF);
    assert_eq!(e.address(), 0x7_3000);
    assert_eq!(e.flags().into_u16(), PRESENT);
}

#[test]
fn init_page_takes_a_frame() {
    let mut e = PageEntry::from_u64(0);
    let mut frames = Frames { next: 0x9000, left: 1 };
    assert_eq!(e.init_page(&mut frames), Ok(()));
    assert_eq!(e.as_raw_parts(), (0x9000, PRESENT));
    let mut other = PageEntry::from_u64(0x42);
    assert_eq!(other.init_page(&mut frames), Err(PagingError::FrameUnavailable));
    assert_eq!(other.raw, 0x42);
}

#[test]
fn indices_of_an_address() {
    let v: u64 = (1 << 39) | (2 << 30) | (3 << 21) | (4 << 12) | 0x123;
    assert_eq!(PageHierarchy::vaddr_into_indices(v), (1, 2, 3, 4));
    assert_eq!(PageHierarchy::vaddr_into_indices(0xFFFF_FFFF_FFFF_FFFF), (511, 511, 511, 511));
    assert_eq!(PageHierarchy::vaddr_into_indices(OFFSET), (0, 2, 384, 0));
}

#[test]
fn indices_round_trip_on_aligned_addresses() {
    for v in [0u64, 0x1000, 0xB000_0000, 0x7FFF_FFFF_F000, 0x0000_8123_4567_8000] {
        let (a, b, c, d) = PageHierarchy::vaddr_into_indices(v);
        let back = ((a as u64) << 39) | ((b as u64) << 30) | ((c as u64) << 21) | ((d as u64) << 12);
        assert_eq!(back, v);
    }
}

#[test]
fn direct_mapping_maps_each_page() {
    let mut frames = Frames { next: 0x10_0000, left: 64 };
    let mut h = PageHierarchy::new(&mut frames, 1).unwrap();
    let offset: u64 = 0x40_0000_0000;
    assert_eq!(h.init_direct_mapping(&mut frames, 1030, offset), Ok(()));
    for k in 0..1029u64 {
        let e = h.lookup(offset + 0x1000 * k).unwrap();
        assert_eq!(e.address(), 0x1000 * k);
        assert_eq!(e.flags().into_u16(), PRESENT);
    }
    assert!(h.lookup(offset + 0x1000 * 1029).is_none() || h.lookup(offset + 0x1000 * 1029).unwrap().flags().into_u16() != PRESENT);
}

#[test]
fn new_maps_the_direct_window_at_offset() {
    let mut frames = Frames { next: 0x20_0000, left: 64 };
    let h = PageHierarchy::new(&mut frames, 9).unwrap();
    for k in 0..8u64 {
        let e = h.lookup(OFFSET + 0x1000 * k).unwrap();
        assert_eq!(e.address(), 0x1000 * k);
    }
    let zero = h.lookup(0).unwrap();
    assert_eq!(zero.flags().into_u16(), PRESENT);
    assert_eq!(h.root_address(), 0x20_0000);
    assert!(!h.is_paging_enabled());
}

#[test]
fn table_lookup_reuses_present_tables() {
    let mut frames = Frames { next: 0x30_0000, left: 64 };
    let mut h = PageHierarchy::new(&mut frames, 1).unwrap();
    let before = frames.left;
    let t1 = h.get_table_at_vaddr(&mut frames, 0x1_0000_0000).unwrap();
    assert_eq!(before - frames.left, 2);
    let t2 = h.get_table_at_vaddr(&mut frames, 0x1_0000_5000).unwrap();
    assert_eq!(t1, t2);
    assert_eq!(before - frames.left, 2);
}

#[test]
fn exhausted_allocator_fails() {
    let mut frames = Frames { next: 0x10_0000, left: 0 };
    assert_eq!(PageHierarchy::new(&mut frames, 4).err(), Some(PagingError::FrameUnavailable));
    let mut few = Frames { next: 0x10_0000, left: 3 };
    assert_eq!(PageHierarchy::new(&mut few, 4).err(), Some(PagingError::FrameUnavailable));
}

#[test]
fn reused_frame_is_refused() {
    assert_eq!(PageHierarchy::new(&mut SameFrame, 4).err(), Some(PagingError::FrameInUse));
}

#[test]
fn enable_paging_relocates_root_once() {
    let mut frames = Frames { next: 0x10_0000, left: 64 };
    let mut h = PageHierarchy::new(&mut frames, 3).unwrap();
    assert_eq!(h.enable_paging(), Ok(0x10_0000 + OFFSET));
    assert!(h.is_paging_enabled());
    assert_eq!(h.root_address(), 0x10_0000 + OFFSET);
    assert_eq!(h.enable_paging(), Err(PagingError::AlreadyActive));
    assert_eq!(h.root_address(), 0x10_0000 + OFFSET);
    assert_eq!(h.lookup(OFFSET + 0x1000).unwrap().address(), 0x1000);
}

#[test]
fn enable_paging_refuses_root_beyond_physical_range() {
    let mut frames = Frames { next: 0xF_FFFF_FFFF_0000, left: 64 };
    let mut h = PageHierarchy::new(&mut frames, 1).unwrap();
    assert_eq!(h.enable_paging(), Err(PagingError::AddressOutOfRange));
    assert!(!h.is_paging_enabled());
    assert_eq!(h.root_address(), 0xF_FFFF_FFFF_0000);
}

#[test]
fn attach_table_takes_the_given_frame() {
    let mut h = PageHierarchy::with_root(0x1FFF);
    assert_eq!(h.root_address(), 0x1000);
    assert_eq!(h.attach_table(0, 3, None), Err(PagingError::FrameUnavailable));
    assert_eq!(h.entry(0, 3).raw, 0);
    assert_eq!(h.attach_table(0, 3, Some(0x1234)), Err(PagingError::FrameInUse));
    assert_eq!(h.entry(0, 3).raw, 0);
    assert_eq!(h.attach_table(0, 3, Some(0x2FFF)), Ok(1));
    assert_eq!(h.entry(0, 3).raw, 0x2000 | PRESENT as u64);
    for j in 0..512 {
        assert_eq!(h.entry(1, j).raw, 0);
    }
    assert_eq!(h.entry(0, 2).raw, 0);
}

#[test]
fn with_root_maps_nothing() {
    let h = PageHierarchy::with_root(0x4000);
    assert!(h.lookup(0).is_none());
    assert!(h.lookup(OFFSET).is_none());
    assert!(!h.is_paging_enabled());
}

#[test]
fn map_page_maps_one_page_and_keeps_others() {
    let mut frames = Frames { next: 0x10_0000, left: 16 };
    let mut h = PageHierarchy::with_root(0x8000);
    assert_eq!(h.map_page(&mut frames, 0x7000, 0x55_5FFF), Ok(()));
    assert_eq!(frames.left, 13);
    assert_eq!(h.map_page(&mut frames, 0x9000, 0x66_6000), Ok(()));
    assert_eq!(frames.left, 13);
    assert_eq!(h.lookup(0x7000).unwrap().address(), 0x55_5000);
    assert_eq!(h.lookup(0x7ABC).unwrap().address(), 0x55_5000);
    assert_eq!(h.lookup(0x9000).unwrap().address(), 0x66_6000);
    assert_eq!(h.lookup(0x8000).unwrap().raw, 0);
}

#[test]
fn direct_mapping_of_one_page_changes_nothing() {
    let mut frames = Frames { next: 0x10_0000, left: 16 };
    let mut h = PageHierarchy::with_root(0x8000);
    assert_eq!(h.init_direct_mapping(&mut frames, 1, 0x40_0000_0000), Ok(()));
    assert_eq!(frames.left, 16);
    assert!(h.lookup(0x40_0000_0000).is_none());
}

#[test]
fn direct_mapping_over_existing_tables_needs_no_frame() {
    let mut frames = Frames { next: 0x10_0000, left: 16 };
    let mut h = PageHierarchy::with_root(0x8000);
    assert_eq!(h.init_direct_mapping(&mut frames, 4, 0x40_0000_0000), Ok(()));
    let used = 16 - frames.left;
    assert_eq!(used, 3);
    let mut none = Frames { next: 0, left: 0 };
    assert_eq!(h.init_direct_mapping(&mut none, 4, 0x40_0000_0000), Ok(()));
    assert_eq!(h.init_direct_mapping(&mut none, 3, 0x40_0000_1000), Ok(()));
    assert_eq!(h.lookup(0x40_0000_1000).unwrap().address(), 0);
    assert_eq!(h.lookup(0x40_0000_2000).unwrap().address(), 0x1000);
}
