use goose::hal_core::mm::{PAddr, PageAlloc, Permissions, VAddr};
use goose::hal_core::hal::Hal;
use goose::hal_core::AddressRange;
use goose::kernel::arch::riscv64::page_map::prefill_pagetable;
use goose::kernel::arch::riscv64::sv39::PageTableMemory;
use goose::kernel::globals::KernelState;
use goose::kernel::mm::physical_memory_manager::{PageKind, PhysicalMemoryManager};

fn small_memory_manager() -> PhysicalMemoryManager {
    let mut pmm = PhysicalMemoryManager::new();
    let regions = [Some(AddressRange::new(0x8000_0000..0x8010_0000)), None];
    pmm.init_from_regions(&regions).unwrap();
    pmm
}

fn rw() -> Permissions {
    Permissions::read().union(Permissions::write())
}

#[test]
fn identity_map_maps_page_to_itself() {
    let mut pmm = small_memory_manager();
    let mut tables = PageTableMemory::new_empty();
    let root = tables.new_root(&mut pmm).unwrap();
    tables.identity_map(root, VAddr::new(0x8004_0123), rw(), &mut pmm).unwrap();
    assert_eq!(tables.translate(root, 0x8004_0000), Some((0x8004_0000, 0b0011)));
    assert_eq!(tables.translate(root, 0x8004_0fff), Some((0x8004_0000, 0b0011)));
    assert_eq!(tables.translate(root, 0x8004_1000), None);
}

#[test]
fn identity_map_range_maps_each_page() {
    let mut pmm = small_memory_manager();
    let mut tables = PageTableMemory::new_empty();
    let root = tables.new_root(&mut pmm).unwrap();
    tables.identity_map_range(root, VAddr::new(0xc00_0000), 3, rw(), &mut pmm).unwrap();
    for i in 0..3u64 {
        let va = 0xc00_0000 + i * 0x1000;
        assert_eq!(tables.translate(root, va), Some((va, 0b0011)));
    }
    assert_eq!(tables.translate(root, 0xc00_3000), None);
    assert_eq!(tables.translate(root, 0xbff_f000), None);
}

#[test]
fn identity_map_addressrange_maps_whole_pages() {
    let mut pmm = small_memory_manager();
    let mut tables = PageTableMemory::new_empty();
    let root = tables.new_root(&mut pmm).unwrap();
    let range = AddressRange::new(0x1000_0800..0x1000_2000);
    tables.identity_map_addressrange(root, range, Permissions::read(), &mut pmm).unwrap();
    assert_eq!(tables.translate(root, 0x1000_0800), Some((0x1000_0000, 0b0001)));
    assert_eq!(tables.translate(root, 0x1000_1800), Some((0x1000_1000, 0b0001)));
    assert_eq!(tables.translate(root, 0x1000_2000), None);
}

#[test]
fn add_invalid_entries_preallocates_tables() {
    let mut pmm = small_memory_manager();
    let mut tables = PageTableMemory::new_empty();
    let root = tables.new_root(&mut pmm).unwrap();
    let range = AddressRange::new(0x8000_0000..0x8000_3000);
    assert!(!tables.is_prepared(root, 0x8000_1000));
    tables.add_invalid_entries(root, range, &mut pmm).unwrap();
    assert!(tables.is_prepared(root, 0x8000_1000));
    assert_eq!(tables.translate(root, 0x8000_1000), None);
    let used_before = pmm.used_pages();
    tables.identity_map(root, VAddr::new(0x8000_2000), rw(), &mut pmm).unwrap();
    assert_eq!(tables.translate(root, 0x8000_2000), Some((0x8000_2000, 0b0011)));
    assert_eq!(pmm.used_pages(), used_before);
}

#[test]
fn mapping_outside_preallocated_memory_allocates() {
    let mut pmm = small_memory_manager();
    let mut tables = PageTableMemory::new_empty();
    let root = tables.new_root(&mut pmm).unwrap();
    let used_before = pmm.used_pages().len();
    tables.map(root, PAddr::new(0x8005_0000), VAddr::new(0x40_0000), rw(), &mut pmm).unwrap();
    assert_eq!(pmm.used_pages().len(), used_before + 2);
}

#[test]
fn prefill_later_mapping_wins() {
    let mut pmm = small_memory_manager();
    let mut tables = PageTableMemory::new_empty();
    let r = vec![AddressRange::new(0x1000_0000..0x1000_2000)];
    let rw_ranges = vec![AddressRange::new(0x1000_1000..0x1000_3000)];
    let rwx = vec![AddressRange::new(0x8020_0000..0x8020_1000)];
    let pre = vec![AddressRange::new(0x8000_0000..0x8010_0000)];
    let root = prefill_pagetable(&mut tables, &r, &rw_ranges, &rwx, &pre, &mut pmm).unwrap();
    assert_eq!(tables.translate(root, 0x1000_0000), Some((0x1000_0000, 0b0001)));
    assert_eq!(tables.translate(root, 0x1000_1000), Some((0x1000_1000, 0b0011)));
    assert_eq!(tables.translate(root, 0x1000_2000), Some((0x1000_2000, 0b0011)));
    assert_eq!(tables.translate(root, 0x8020_0000), Some((0x8020_0000, 0b0111)));
    assert_eq!(tables.translate(root, 0x8000_5000), None);
    let used_before = pmm.used_pages();
    tables.identity_map(root, VAddr::new(0x8000_5000), rw(), &mut pmm).unwrap();
    assert_eq!(pmm.used_pages(), used_before);
}

#[test]
fn prefill_runs_out_of_memory() {
    let mut pmm = PhysicalMemoryManager::new();
    let regions = [Some(AddressRange::new(0x8000_0000..0x8000_2000)), None];
    pmm.init_from_regions(&regions).unwrap();
    let mut tables = PageTableMemory::new_empty();
    let r = vec![AddressRange::new(0x1000_0000..0x1000_1000)];
    let result = prefill_pagetable(&mut tables, &r, &vec![], &vec![], &vec![], &mut pmm);
    assert!(result.is_err());
    assert!(pmm.descriptors().iter().all(|p| p.kind != PageKind::Free));
    assert!(pmm.alloc_pages(1).is_err());
    // The root got the only free page; the read-only range was not reached.
    assert!(!tables.is_prepared(0x8000_1000, 0x1000_0000));
    assert_eq!(tables.translate(0x8000_1000, 0x1000_0000), None);
}

#[test]
fn alloc_of_one_page_fails_only_when_no_page_is_free() {
    let mut pmm = PhysicalMemoryManager::new();
    let regions = [Some(AddressRange::new(0x8000_0000..0x8000_3000)), None];
    pmm.init_from_regions(&regions).unwrap();
    assert_eq!(pmm.alloc_pages(1), Ok(0x8000_1000));
    assert_eq!(pmm.alloc_pages(1), Ok(0x8000_2000));
    assert!(pmm.descriptors().iter().all(|p| p.kind != PageKind::Free));
    assert!(pmm.alloc_pages(1).is_err());
}

#[test]
fn allocate_mapped_maps_new_pages_once_mmu_is_on() {
    let mut pmm = small_memory_manager();
    let mut tables = PageTableMemory::new_empty();
    let pre = vec![AddressRange::new(0x8000_0000..0x8010_0000)];
    let root = prefill_pagetable(&mut tables, &vec![], &vec![], &vec![], &pre, &mut pmm).unwrap();
    let used = pmm.used_pages().len();
    let first = pmm.allocate_mapped(2, KernelState::MmuEnabledInit, &mut tables, root).unwrap();
    assert_eq!(pmm.used_pages().len(), used + 2);
    assert_eq!(tables.translate(root, first as u64), Some((first as u64, 0b0011)));
    assert_eq!(tables.translate(root, first as u64 + 0x1000), Some((first as u64 + 0x1000, 0b0011)));
    let early = pmm.allocate_mapped(1, KernelState::EarlyInit, &mut tables, root).unwrap();
    assert_eq!(early, first + 0x2000);
    assert_eq!(tables.translate(root, early as u64), None);
}

#[test]
fn identity_map_range_stops_at_first_failure() {
    let mut pmm = PhysicalMemoryManager::new();
    let regions = [Some(AddressRange::new(0x8000_0000..0x8000_4000)), None];
    pmm.init_from_regions(&regions).unwrap();
    let mut tables = PageTableMemory::new_empty();
    let root = tables.new_root(&mut pmm).unwrap();
    let result = tables.identity_map_range(root, VAddr::new(0x1f_f000), 2, rw(), &mut pmm);
    assert!(result.is_err());
    assert_eq!(tables.translate(root, 0x1f_f000), Some((0x1f_f000, 0b0011)));
    assert_eq!(tables.translate(root, 0x20_0000), None);
    assert!(pmm.descriptors().iter().all(|p| p.kind != PageKind::Free));
}

#[test]
fn hal_records_the_kernel_page_table() {
    let mut pmm = small_memory_manager();
    let mut tables = PageTableMemory::new_empty();
    let mut hal = Hal::new();
    assert_eq!(hal.kpt(), None);
    assert_eq!(hal.page_size(), 0x1000);
    assert_eq!(hal.align_up(0x1001), 0x2000);
    assert_eq!(hal.align_down(0x1001), 0x3000);
    let rw_ranges = vec![AddressRange::new(0x9000_0000..0x9000_2000)];
    hal.init_kpt(&mut tables, &vec![], &rw_ranges, &vec![], &vec![], &mut pmm).unwrap();
    let root = hal.kpt().unwrap();
    assert_eq!(tables.translate(root, 0x9000_1000), Some((0x9000_1000, 0b0011)));
    assert_eq!(hal.enable_paging(), (8u64 << 60) | (root >> 12));
}
