use runix::address::{PhysicalAddress, VirtualAddress, KERNEL_BASE_ADDRESS};
use runix::boot::{BootFrameAllocator, MemoryRegion, MemoryRegionKind};
use runix::entry::{PageTableEntry, PageTableEntryFlags};
use runix::frame::{PhysicalFrame, PhysicalFrameRange, VirtualPage, VirtualPageRange};
use runix::table::{MapToError, MappedPageTable, PageTable};

fn usable(start: u64, end: u64) -> MemoryRegion {
    MemoryRegion { start, end, kind: MemoryRegionKind::Usable }
}

fn empty_mapper() -> MappedPageTable {
    MappedPageTable::new(VirtualAddress::kernel_base(), PageTable::empty())
}

fn page(raw: u64) -> VirtualPage {
    VirtualPage::from_address_aligned(VirtualAddress::new(raw).unwrap())
}

fn frame(raw: u64) -> PhysicalFrame {
    PhysicalFrame::from_raw_address_aligned(raw)
}

#[test]
fn entry_holds_address_and_flags() {
    let e = PageTableEntry::new(
        PageTableEntryFlags::PRESENT | PageTableEntryFlags::WRITE_ACCESS,
        PhysicalAddress::new(0x1234_5000).unwrap(),
    );
    assert_eq!(e.inner, 0x1234_5003);
    assert_eq!(e.flags(), 3);
    assert!(e.is_flag_set(PageTableEntryFlags::PRESENT));
    assert!(!e.is_flag_set(PageTableEntryFlags::USER_ACCESS));
    assert_eq!(e.get_frame().unwrap().start_address(), 0x1234_5000);
    let mut unused = PageTableEntry::new_unused();
    assert!(unused.is_unused());
    assert!(unused.get_frame().is_none());
    unused.set_frame_addr(frame(0x7000));
    unused.set_present();
    unused.set_write_access();
    assert_eq!(unused.inner, 0x7003);
    unused.set_flags(PageTableEntryFlags::GLOBAL);
    assert_eq!(unused.flags(), 0x103);
    unused.set_unused();
    assert!(unused.is_unused());
}

#[test]
fn frames_and_pages_are_aligned_down() {
    assert_eq!(frame(0x1FFF).start_address(), 0x1000);
    assert_eq!(frame(0x1000).advance(3).start_address(), 0x4000);
    assert_eq!(page(0xFFFF_8880_DEAD_BEEF).start_address(), 0xFFFF_8880_DEAD_B000);
    assert_eq!(page(0x5000).advance(2).start_address(), 0x7000);
}

#[test]
fn ranges_yield_both_ends() {
    let mut frames = PhysicalFrameRange::range_inclusive(frame(0x1000), frame(0x3000));
    let mut seen = Vec::new();
    while let Some(f) = frames.next() {
        seen.push(f.start_address());
    }
    assert_eq!(seen, vec![0x1000, 0x2000, 0x3000]);
    let mut pages = VirtualPageRange::range_inclusive(page(0x5000), page(0x5000));
    assert_eq!(pages.next().unwrap().start_address(), 0x5000);
    assert!(pages.next().is_none());
    let mut none = VirtualPageRange::range_inclusive(page(0x6000), page(0x5000));
    assert!(none.next().is_none());
}

#[test]
fn boot_allocator_walks_usable_regions_in_order() {
    let regions = vec![
        usable(0x10_0000, 0x20_0000),
        MemoryRegion { start: 0x20_0000, end: 0x30_0000, kind: MemoryRegionKind::Bootloader },
        usable(0x30_0000, 0x31_0000),
    ];
    let mut allocator = BootFrameAllocator::new(regions);
    let mut expected = Vec::new();
    for k in 0..256u64 {
        expected.push(0x10_0000 + k * 0x1000);
    }
    for k in 0..16u64 {
        expected.push(0x30_0000 + k * 0x1000);
    }
    for want in expected {
        assert_eq!(allocator.allocate_frame().unwrap().start_address(), want);
    }
    assert!(allocator.allocate_frame().is_none());
    assert!(allocator.allocate_frame().is_none());
}

#[test]
fn boot_allocator_over_two_usable_regions() {
    let regions = vec![usable(0x10_0000, 0x20_0000), usable(0x30_0000, 0x31_0000)];
    let mut allocator = BootFrameAllocator::new(regions);
    assert_eq!(allocator.allocate_frame().unwrap().start_address(), 0x10_0000);
    assert_eq!(allocator.allocate_frame().unwrap().start_address(), 0x10_1000);
    for _ in 2..255 {
        allocator.allocate_frame().unwrap();
    }
    assert_eq!(allocator.allocate_frame().unwrap().start_address(), 0x1F_F000);
    assert_eq!(allocator.allocate_frame().unwrap().start_address(), 0x30_0000);
    assert_eq!(allocator.allocate_frame().unwrap().start_address(), 0x30_1000);
    for _ in 2..16 {
        allocator.allocate_frame().unwrap();
    }
    assert!(allocator.allocate_frame().is_none());
}

#[test]
fn boot_allocator_rounds_unaligned_region_starts() {
    let mut allocator = BootFrameAllocator::new(vec![usable(0x1800, 0x3000), usable(0x5000, 0x6FFF)]);
    assert_eq!(allocator.allocate_frame().unwrap().start_address(), 0x2000);
    assert_eq!(allocator.allocate_frame().unwrap().start_address(), 0x5000);
    assert!(allocator.allocate_frame().is_none());
}

#[test]
fn unmapped_address_does_not_translate() {
    let mapper = empty_mapper();
    assert!(mapper.translate_virtual_address(VirtualAddress::new(0x4000).unwrap()).is_none());
}

#[test]
fn mapped_page_translates_every_offset() {
    let mut mapper = empty_mapper();
    let mut allocator = BootFrameAllocator::new(vec![usable(0x10_0000, 0x20_0000)]);
    let p = page(0xFFFF_8880_DEAD_B000);
    let f = frame(0x55_5000);
    let flags = PageTableEntryFlags::PRESENT | PageTableEntryFlags::WRITE_ACCESS;
    assert_eq!(mapper.map_to(p, f, flags, flags, &mut allocator), Ok(()));
    for off in [0u64, 1, 0x123, 0xFFF] {
        let va = VirtualAddress::new(p.start_address() + off).unwrap();
        assert_eq!(mapper.translate_virtual_address(va).unwrap().raw(), 0x55_5000 + off);
    }
    let next = VirtualAddress::new(p.start_address() + 0x1000).unwrap();
    assert!(mapper.translate_virtual_address(next).is_none());
    // Three new tables were taken for the walk.
    assert_eq!(allocator.allocate_frame().unwrap().start_address(), 0x10_3000);
}

#[test]
fn second_mapping_shares_the_tables() {
    let mut mapper = empty_mapper();
    let mut allocator = BootFrameAllocator::new(vec![usable(0x10_0000, 0x20_0000)]);
    let flags = PageTableEntryFlags::PRESENT;
    mapper.map_to(page(0x40_0000), frame(0x9000), flags, flags, &mut allocator).unwrap();
    mapper.map_to(page(0x40_1000), frame(0xA000), flags, flags, &mut allocator).unwrap();
    assert_eq!(allocator.allocate_frame().unwrap().start_address(), 0x10_3000);
    let first = VirtualAddress::new(0x40_0010).unwrap();
    let second = VirtualAddress::new(0x40_1010).unwrap();
    assert_eq!(mapper.translate_virtual_address(first).unwrap().raw(), 0x9010);
    assert_eq!(mapper.translate_virtual_address(second).unwrap().raw(), 0xA010);
}

#[test]
fn mapping_without_frames_fails() {
    let mut mapper = empty_mapper();
    let mut allocator = BootFrameAllocator::new(Vec::new());
    let flags = PageTableEntryFlags::PRESENT;
    assert_eq!(
        mapper.map_to(page(0x40_0000), frame(0x9000), flags, flags, &mut allocator),
        Err(MapToError::FrameAllocationFailed)
    );
    assert!(mapper.translate_virtual_address(VirtualAddress::new(0x40_0000).unwrap()).is_none());
}

#[test]
fn frame_that_holds_a_table_is_refused() {
    let mut mapper = empty_mapper();
    let flags = PageTableEntryFlags::PRESENT;
    let mut first = BootFrameAllocator::new(vec![usable(0x10_0000, 0x20_0000)]);
    mapper.map_to(page(0x40_0000), frame(0x9000), flags, flags, &mut first).unwrap();
    let mut again = BootFrameAllocator::new(vec![usable(0x10_0000, 0x20_0000)]);
    let far = page(0xFFFF_8000_0000_0000);
    assert_eq!(
        mapper.map_to(far, frame(0xA000), flags, flags, &mut again),
        Err(MapToError::FrameAlreadyInUse(0x10_0000))
    );
    let kept = VirtualAddress::new(0x40_0004).unwrap();
    assert_eq!(mapper.translate_virtual_address(kept).unwrap().raw(), 0x9004);
}

#[test]
fn allocate_region_maps_every_page_once() {
    let mut mapper = empty_mapper();
    let mut allocator = BootFrameAllocator::new(vec![usable(0x10_0000, 0x20_0000)]);
    let start = VirtualAddress::new(KERNEL_BASE_ADDRESS + 0x1800).unwrap();
    let end = VirtualAddress::new(KERNEL_BASE_ADDRESS + 0x4000).unwrap();
    assert_eq!(allocator.allocate_region(&mut mapper, start, end), Ok(()));
    for raw in [0x1000u64, 0x1800, 0x2FFF, 0x3FFF] {
        let va = VirtualAddress::new(KERNEL_BASE_ADDRESS + raw).unwrap();
        assert!(mapper.translate_virtual_address(va).is_some());
    }
    let after = VirtualAddress::new(KERNEL_BASE_ADDRESS + 0x4000).unwrap();
    assert!(mapper.translate_virtual_address(after).is_none());
    assert_eq!(
        allocator.allocate_region(&mut mapper, start, end),
        Err(MapToError::PageAlreadyMapped)
    );
    // Nothing was taken for the refused range.
    let next = allocator.allocate_frame().unwrap().start_address();
    assert_eq!(next, 0x10_0000 + 6 * 0x1000);
    let overlapping = VirtualAddress::new(KERNEL_BASE_ADDRESS + 0x3000).unwrap();
    let beyond = VirtualAddress::new(KERNEL_BASE_ADDRESS + 0x6000).unwrap();
    assert_eq!(
        allocator.allocate_region(&mut mapper, overlapping, beyond),
        Err(MapToError::PageAlreadyMapped)
    );
    assert!(mapper.translate_virtual_address(VirtualAddress::new(KERNEL_BASE_ADDRESS + 0x5000).unwrap()).is_none());
}

#[test]
fn map_frames_maps_the_heap_range() {
    let mut mapper = empty_mapper();
    let mut allocator = BootFrameAllocator::new(vec![usable(0x10_0000, 0x40_0000)]);
    runix::boot::map_frames(&mut mapper, &mut allocator, 0x20_0000, 0x3000).unwrap();
    for raw in [0x20_0000u64, 0x20_2FFF] {
        let va = VirtualAddress::with_kernel_base_offset(raw);
        assert!(mapper.translate_virtual_address(va).is_some());
    }
    assert!(mapper
        .translate_virtual_address(VirtualAddress::with_kernel_base_offset(0x20_3000))
        .is_none());
    // Three tables and three heap frames were handed out.
    assert_eq!(allocator.allocate_frame().unwrap().start_address(), 0x10_6000);
    let mut tiny = empty_mapper();
    let mut short = BootFrameAllocator::new(vec![usable(0x10_0000, 0x10_4000)]);
    assert_eq!(
        runix::boot::map_frames(&mut tiny, &mut short, 0x20_0000, 0x3000),
        Err(MapToError::FrameAllocationFailed)
    );
    assert!(short.allocate_frame().is_none());
}

#[test]
fn kernel_heap_is_mapped_and_handed_to_the_allocator() {
    let mut mapper = empty_mapper();
    let mut heap = runix::block::BlockAllocator::new();
    let mut frames = BootFrameAllocator::new(vec![usable(0x10_0000, 0x100_0000)]);
    assert!(runix::boot::init_kheap(&mut mapper, &mut heap, &mut frames).is_ok());
    let first = VirtualAddress::with_kernel_base_offset(runix::boot::KERNEL_HEAP_START);
    assert!(mapper.translate_virtual_address(first).is_some());
    let last = VirtualAddress::with_kernel_base_offset(
        runix::boot::KERNEL_HEAP_START + runix::boot::KERNEL_HEAP_SIZE - 1,
    );
    assert!(mapper.translate_virtual_address(last).is_some());
    let block = heap.allocate(64, 8).unwrap();
    assert_eq!(block.raw(), 0xFFFF_8880_DEAD_BF00);
    let mut no_frames = empty_mapper();
    let mut untouched = runix::block::BlockAllocator::new();
    let mut none = BootFrameAllocator::new(Vec::new());
    assert_eq!(
        runix::boot::init_kheap(&mut no_frames, &mut untouched, &mut none),
        Err(MapToError::FrameAllocationFailed)
    );
    assert!(untouched.allocate(8, 8).is_none());
}

#[test]
fn map_to_writes_table_and_leaf_flags() {
    let mut mapper = empty_mapper();
    let mut allocator = BootFrameAllocator::new(vec![usable(0x10_0000, 0x20_0000)]);
    let p = page(0x40_0000);
    let leaf_flags = PageTableEntryFlags::PRESENT | PageTableEntryFlags::WRITE_ACCESS;
    let table_flags = PageTableEntryFlags::USER_ACCESS;
    mapper.map_to(p, frame(0x9000), leaf_flags, table_flags, &mut allocator).unwrap();
    let va = VirtualAddress::new(0x40_0000).unwrap();
    let root = mapper.root_table();
    assert_eq!(root.inner[va.get_pml4_index()].inner, 0x10_0000 | 0x5);
    let pdpt = mapper.table_at_frame(0x10_0000);
    assert_eq!(pdpt.inner[va.get_pdpt_index()].inner, 0x10_1000 | 0x5);
    let pd = mapper.table_at_frame(0x10_1000);
    assert_eq!(pd.inner[va.get_pd_index()].inner, 0x10_2000 | 0x5);
    let pt = mapper.table_at_frame(0x10_2000);
    assert_eq!(pt.inner[va.get_pt_index()].inner, 0x9000 | 0x3);
    assert!(mapper.holds_table(0x10_2000));
    assert!(!mapper.holds_table(0x9000));
    assert_eq!(allocator.handed_out(), 3);
    // A present entry on the way costs no frame.
    let mut none = BootFrameAllocator::new(Vec::new());
    mapper.map_to(page(0x40_1000), frame(0xA000), leaf_flags, table_flags, &mut none).unwrap();
}

#[test]
fn next_table_is_reused_when_present() {
    let mut mapper = empty_mapper();
    let mut allocator = BootFrameAllocator::new(vec![usable(0x10_0000, 0x20_0000)]);
    let flags = PageTableEntryFlags::PRESENT;
    assert_eq!(mapper.get_next_page_table(None, 3, flags, &mut allocator), Ok((0x10_0000, true)));
    assert_eq!(mapper.get_next_page_table(None, 3, flags, &mut allocator), Ok((0x10_0000, false)));
    assert_eq!(allocator.handed_out(), 1);
    let mut repeat = BootFrameAllocator::new(vec![usable(0x10_0000, 0x20_0000)]);
    assert_eq!(
        mapper.get_next_page_table(None, 4, flags, &mut repeat),
        Err(MapToError::FrameAlreadyInUse(0x10_0000))
    );
}
