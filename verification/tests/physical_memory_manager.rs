use goose::hal_core::mm::{AllocatorError, PageAlloc};
use goose::hal_core::AddressRange;
use goose::kernel::arch::riscv64::page_map::prefill_pagetable;
use goose::kernel::arch::riscv64::sv39::PageTableMemory;
use goose::kernel::globals::KernelState;
use goose::kernel::mm::binary_buddy_allocator::BinaryBuddyAllocator;
use goose::kernel::mm::physical_memory_manager::{
    exclude_range, PageKind, PhysicalMemoryManager, PhysicalPage,
};

#[test]
fn exclude_range_remove_in_the_middle() {
    let mut ranges = [Some(AddressRange::new(0x0..0x1000)), None];
    exclude_range(&mut ranges, AddressRange { start: 0x500, end: 0x600 });

    assert_eq!(ranges[0], Some(AddressRange::new(0x0..0x500)));
    assert_eq!(ranges[1], Some(AddressRange::new(0x600..0x1000)));
}

#[test]
fn exclude_range_remove_beginning() {
    let mut ranges = [Some(AddressRange::new(0x100..0x1000)), None];
    exclude_range(&mut ranges, AddressRange { start: 0x0, end: 0x200 });

    assert_eq!(ranges[0], Some(AddressRange::new(0x200..0x1000)));
    assert!(ranges[1].is_none());
}

#[test]
fn exclude_range_remove_ending() {
    let mut ranges = [Some(AddressRange::new(0x100..0x1000)), None];
    exclude_range(&mut ranges, AddressRange { start: 0x800, end: 0x1000 });

    assert_eq!(ranges[0], Some(AddressRange::new(0x100..0x800)));
    assert!(ranges[1].is_none());
}

#[test]
fn exclude_range_overlaps_exactly() {
    let mut ranges = [Some(AddressRange::new(0x400_000..0x800_000)), None];
    exclude_range(&mut ranges, AddressRange { start: 0x400_000, end: 0x800_000 });

    assert!(ranges[0].is_none());
    assert!(ranges[1].is_none());
}

#[test]
fn exclude_range_overlap_with_exact_beginning() {
    let mut ranges = [Some(AddressRange::new(0x400_000..0x800_000)), None];
    exclude_range(&mut ranges, AddressRange { start: 0x400_000, end: 0x401_000 });

    assert_eq!(ranges[0], Some(AddressRange::new(0x401_000..0x800_000)));
    assert!(ranges[1].is_none());
}

#[test]
fn exclude_range_split_reuses_slot_freed_earlier() {
    let mut ranges = [
        Some(AddressRange::new(0x500..0x600)),
        Some(AddressRange::new(0x0..0x1000)),
    ];
    exclude_range(&mut ranges, AddressRange { start: 0x500, end: 0x600 });

    assert_eq!(ranges[0], Some(AddressRange::new(0x600..0x1000)));
    assert_eq!(ranges[1], Some(AddressRange::new(0x0..0x500)));
}

#[test]
fn exclude_range_leaves_inner_region() {
    let mut ranges = [Some(AddressRange::new(0x200..0x300)), None];
    exclude_range(&mut ranges, AddressRange { start: 0x100, end: 0x400 });

    assert_eq!(ranges[0], Some(AddressRange::new(0x200..0x300)));
}

#[test]
fn available_memory_regions_excludes_kernel_and_device_tree() {
    let memory = vec![(0x4000_0000usize, 0x0800_0000usize)];
    let kernel = AddressRange::new(0x4020_0000..0x4040_0000);
    let regions = PhysicalMemoryManager::available_memory_regions::<10>(
        &memory,
        kernel,
        (0x4700_0000, 0x4700_1000),
        &Vec::new(),
    );
    assert_eq!(regions[0], Some(AddressRange::new(0x4000_1000..0x4020_0000)));
    assert_eq!(regions[1], Some(AddressRange::new(0x4040_1000..0x4700_0000)));
    assert_eq!(regions[2], Some(AddressRange::new(0x4700_2000..0x4800_0000)));
    for slot in &regions[3..] {
        assert!(slot.is_none());
    }
}

#[test]
fn available_memory_regions_excludes_reserved_regions() {
    let memory = vec![(0x1000_0000usize, 0x10_0000usize)];
    let kernel = AddressRange::new(0x2000_0000..0x2000_1000);
    let regions = PhysicalMemoryManager::available_memory_regions::<4>(
        &memory,
        kernel,
        (0x3000_0000, 0x3000_1000),
        &vec![(0x1008_0000, 0x8_0000)],
    );
    assert_eq!(regions, [Some(AddressRange::new(0x1000_1000..0x1008_0000)), None, None, None]);
}

#[test]
fn count_pages_and_find_large_region() {
    let regions = [
        Some(AddressRange::new(0x1000..0x3000)),
        None,
        Some(AddressRange::new(0x10000..0x20000)),
    ];
    assert_eq!(PhysicalMemoryManager::count_pages(&regions), 18);
    assert_eq!(PhysicalMemoryManager::find_large_region(&regions, 0x2000), Some(0x1000));
    assert_eq!(PhysicalMemoryManager::find_large_region(&regions, 0x3000), Some(0x10000));
    assert_eq!(PhysicalMemoryManager::find_large_region(&regions, 0x20000), None);
}

#[test]
fn phys_addr_to_physical_page_marks_metadata() {
    let p = PhysicalMemoryManager::phys_addr_to_physical_page(0x2000, 0x1000, 0x3000);
    assert_eq!(p.kind, PageKind::Metadata);
    assert_eq!(p.base, 0x2000);
    assert!(!p.last);
    let p = PhysicalMemoryManager::phys_addr_to_physical_page(0x3000, 0x1000, 0x3000);
    assert_eq!(p.kind, PageKind::Free);
    assert!(PhysicalMemoryManager::is_metadata_page(0x1000, 0x1000, 0x3000));
    assert!(!PhysicalMemoryManager::is_metadata_page(0x3000, 0x1000, 0x3000));
}

#[test]
fn physical_page_flags() {
    let mut p = PhysicalPage { kind: PageKind::Free, base: 0x1000, last: false };
    assert!(!p.is_used());
    assert!(!p.is_allocated());
    p.set_allocated();
    assert!(p.is_used());
    assert!(p.is_allocated());
    assert!(!p._is_last());
    p.set_last();
    assert!(p._is_last());
}

fn manager_with(regions: &[Option<AddressRange>; 2]) -> PhysicalMemoryManager {
    let mut pmm = PhysicalMemoryManager::new();
    pmm.init_from_regions(regions).unwrap();
    pmm
}

#[test]
fn init_marks_metadata_pages() {
    let pmm = manager_with(&[Some(AddressRange::new(0x10000..0x20000)), None]);
    assert_eq!(pmm.metadata_start(), 0x10000);
    let pages = pmm.descriptors();
    assert_eq!(pages.len(), 16);
    assert_eq!(pages[0].kind, PageKind::Metadata);
    assert_eq!(pages[0].base, 0x10000);
    for (i, p) in pages.iter().enumerate().skip(1) {
        assert_eq!(p.kind, PageKind::Free);
        assert_eq!(p.base, 0x10000 + i * 0x1000);
    }
}

#[test]
fn init_fails_without_room_for_metadata() {
    let mut pmm = PhysicalMemoryManager::new();
    let regions: [Option<AddressRange>; 2] = [None, None];
    assert_eq!(
        pmm.init_from_regions(&regions),
        Err(AllocatorError::NotEnoughMemoryForMetadata)
    );
}

#[test]
fn alloc_pages_takes_first_fit_and_marks_last() {
    let mut pmm = manager_with(&[Some(AddressRange::new(0x10000..0x20000)), None]);
    assert_eq!(pmm.alloc_pages(2), Ok(0x11000));
    assert_eq!(pmm.alloc_pages(1), Ok(0x13000));
    let pages = pmm.descriptors();
    assert_eq!(pages[1].kind, PageKind::Allocated);
    assert!(!pages[1].last);
    assert_eq!(pages[2].kind, PageKind::Allocated);
    assert!(pages[2].last);
    assert_eq!(pages[3].kind, PageKind::Allocated);
    assert!(pages[3].last);
    assert_eq!(pages[4].kind, PageKind::Free);
}

#[test]
fn alloc_pages_out_of_memory() {
    let mut pmm = manager_with(&[Some(AddressRange::new(0x10000..0x14000)), None]);
    assert_eq!(pmm.alloc_pages(4), Err(AllocatorError::OutOfMemory));
    assert_eq!(pmm.alloc_pages(0), Err(AllocatorError::OutOfMemory));
    assert_eq!(pmm.alloc_pages(3), Ok(0x11000));
    assert_eq!(pmm.alloc_pages(1), Err(AllocatorError::OutOfMemory));
}

#[test]
fn alloc_pages_skips_page_after_gap() {
    let mut pmm = manager_with(&[
        Some(AddressRange::new(0x10000..0x12000)),
        Some(AddressRange::new(0x20000..0x22000)),
    ]);
    assert_eq!(pmm.alloc_pages(2), Err(AllocatorError::OutOfMemory));
    assert_eq!(pmm.alloc_pages(1), Ok(0x11000));
    assert_eq!(pmm.alloc_pages(1), Ok(0x20000));
}

#[test]
fn used_pages_lists_metadata_then_allocations() {
    let mut pmm = manager_with(&[Some(AddressRange::new(0x10000..0x20000)), None]);
    pmm.allocate(2).unwrap();
    pmm.allocate(1).unwrap();
    assert_eq!(pmm.used_pages(), vec![0x10000, 0x11000, 0x12000, 0x13000]);
    assert_eq!(pmm.dealloc(0x11000, 2), Ok(()));
    assert_eq!(pmm.used_pages(), vec![0x10000, 0x11000, 0x12000, 0x13000]);
}

#[test]
fn used_pages_steps_through_large_metadata() {
    let mut pmm = PhysicalMemoryManager::new();
    let regions = [Some(AddressRange::new(0x100000..0x500000)), None];
    pmm.init_from_regions(&regions).unwrap();
    let used = pmm.used_pages();
    assert_eq!(used, vec![0x100000, 0x101000, 0x102000, 0x103000]);
}

#[test]
fn heap_allocation_rounds_to_pages() {
    let mut pmm = manager_with(&[Some(AddressRange::new(0x10000..0x20000)), None]);
    let mut tables = PageTableMemory::new_empty();
    let pre = vec![AddressRange::new(0x10000..0x20000)];
    // The root and the two tables below it take the pages from 0x11000 to 0x13000.
    let root = prefill_pagetable(&mut tables, &vec![], &vec![], &vec![], &pre, &mut pmm).unwrap();
    let heap = BinaryBuddyAllocator;
    let state = KernelState::MmuEnabledInit;
    assert_eq!(heap.allocate(&mut pmm, &state, &mut tables, root, 100), 0x14000);
    assert_eq!(tables.translate(root, 0x14000), Some((0x14000, 0b0011)));
    assert_eq!(heap.allocate(&mut pmm, &state, &mut tables, root, 5000), 0x15000);
    assert_eq!(tables.translate(root, 0x16000), Some((0x16000, 0b0011)));
    assert_eq!(heap.allocate(&mut pmm, &state, &mut tables, root, 4096), 0x17000);
    assert_eq!(tables.translate(root, 0x18000), None);
    assert_eq!(heap.allocate(&mut pmm, &state, &mut tables, root, 0x100000), 0);
    assert_eq!(tables.translate(root, 0x18000), None);
}
