use goose::hal_core::mm::PageAlloc;
use goose::drivers::ConsoleKind;
use goose::kernel::driver_manager::{map_dt_regions, unmap_dt_regions, ConsoleDevice, ConsoleSetupError, DriverManager};
use goose::kernel::kernel_console::{ConsoleAlreadySet, KernelConsole};
use goose::hal_core::hal::Hal;
use goose::hal_core::AddressRange;
use goose::kernel::arch::riscv64::sv39::PageTableMemory;
use goose::kernel::device_tree::{DeviceTree, FdtErrorKind};
use goose::kernel::error::Error;
use goose::kernel::generic_main::setup_memory;
use goose::kernel::globals::KernelState;
use goose::kernel::mm::physical_memory_manager::PhysicalMemoryManager;
use goose::kernel::mm::{is_kernel_page, is_reserved_page, kernel_memory_region, map_address_space, map_kernel_rwx};

fn header(total_size: u32, len: usize) -> Vec<u8> {
    let mut blob = vec![0u8; len];
    blob[0..4].copy_from_slice(&0xd00d_feedu32.to_be_bytes());
    blob[4..8].copy_from_slice(&total_size.to_be_bytes());
    blob
}

#[test]
fn device_tree_reads_total_size() {
    let blob = header(0x48, 0x48);
    let dt = DeviceTree::new(0x8220_0000, &blob, vec![(0x8000_0000, 0x800_0000)], vec![]).unwrap();
    assert_eq!(dt.memory_region(), (0x8220_0000, 0x8220_0048));
    assert_eq!(dt.for_all_memory_regions(), &vec![(0x8000_0000, 0x800_0000)]);
    assert!(dt.for_all_reserved_memory_regions().is_empty());
}

#[test]
fn device_tree_errors() {
    let blob = header(0x48, 0x48);
    assert_eq!(DeviceTree::new(0, &blob, vec![], vec![]).err(), Some(Error::FdtError(FdtErrorKind::BadPtr)));
    assert_eq!(
        DeviceTree::new(0x1000, &blob[..39], vec![], vec![]).err(),
        Some(Error::FdtError(FdtErrorKind::BufferTooSmall))
    );
    let mut bad = blob.clone();
    bad[0] = 0;
    assert_eq!(DeviceTree::new(0x1000, &bad, vec![], vec![]).err(), Some(Error::FdtError(FdtErrorKind::BadMagic)));
    let short = header(0x100, 0x48);
    assert_eq!(
        DeviceTree::new(0x1000, &short, vec![], vec![]).err(),
        Some(Error::FdtError(FdtErrorKind::BufferTooSmall))
    );
}

#[test]
fn reserved_pages_include_both_bounds() {
    let blob = header(0x48, 0x48);
    let dt = DeviceTree::new(0x1000, &blob, vec![], vec![(0x8000_0000, 0x1000)]).unwrap();
    assert!(is_reserved_page(0x8000_0000, &dt));
    assert!(is_reserved_page(0x8000_1000, &dt));
    assert!(!is_reserved_page(0x8000_1001, &dt));
    assert!(!is_reserved_page(0x7fff_ffff, &dt));
}

#[test]
fn kernel_pages() {
    assert!(is_kernel_page(0x8020_0000, 0x8020_0000, 0x8030_0000));
    assert!(!is_kernel_page(0x8030_0000, 0x8020_0000, 0x8030_0000));
    let r = kernel_memory_region(0x8020_0000, 0x8030_0000);
    assert_eq!(r, AddressRange::new(0x8020_0000..0x8030_0000));
    let (ro, rw, rwx) = map_kernel_rwx(0x8020_0000, 0x8030_0800);
    assert!(ro.is_empty());
    assert!(rw.is_empty());
    assert_eq!(rwx, vec![AddressRange::new(0x8020_0000..0x8030_1000)]);
}

#[test]
fn init_from_device_tree_excludes_kernel_and_device_tree() {
    let blob = header(0x48, 0x48);
    let dt = DeviceTree::new(0x8010_0000, &blob, vec![(0x8000_0000, 0x20_0000)], vec![]).unwrap();
    let mut pmm = PhysicalMemoryManager::new();
    pmm.init_from_device_tree(&dt, 0x8000_0000, 0x8008_0000).unwrap();
    let bases: Vec<usize> = pmm.descriptors().iter().map(|p| p.base).collect();
    assert!(!bases.contains(&0x8000_0000));
    assert!(bases.contains(&0x8009_0000));
    assert!(!bases.contains(&0x8010_0000));
}

#[test]
fn map_address_space_maps_device_tree_kernel_and_drivers() {
    let blob = header(0x48, 0x48);
    let dt = DeviceTree::new(0x8010_0000, &blob, vec![(0x8000_0000, 0x20_0000)], vec![]).unwrap();
    let mut pmm = PhysicalMemoryManager::new();
    pmm.init_from_device_tree(&dt, 0x8000_0000, 0x8008_0000).unwrap();
    let mut tables = PageTableMemory::new_empty();
    let drivers = vec![Some((0x900_0000, 0xffc)), None];
    let mut state = KernelState::EarlyInit;
    let mut hal = Hal::new();
    map_address_space(&dt, &drivers, 0x8000_0000, 0x8008_0000, &mut hal, &mut tables, &mut pmm, &mut state).unwrap();
    let root = hal.kpt().unwrap();
    assert_eq!(hal.enable_paging(), (8 << 60) | (root >> 12));
    assert_eq!(state, KernelState::MmuEnabledInit);
    assert_eq!(tables.translate(root, 0x8010_0000), Some((0x8010_0000, 0b0011)));
    assert_eq!(tables.translate(root, 0x900_0000), Some((0x900_0000, 0b0011)));
    assert_eq!(tables.translate(root, 0x8000_0000), Some((0x8000_0000, 0b0111)));
    assert_eq!(tables.translate(root, 0x901_0000), None);
    for page in pmm.used_pages() {
        assert!(tables.is_prepared(root, page as u64));
        assert_eq!(tables.translate(root, page as u64), Some((page as u64, 0b0011)));
    }
}

#[test]
fn setup_memory_maps_the_interrupt_controller() {
    let blob = header(0x48, 0x48);
    let dt = DeviceTree::new(0x8010_0000, &blob, vec![(0x8000_0000, 0x20_0000)], vec![]).unwrap();
    let mut pmm = PhysicalMemoryManager::new();
    let mut tables = PageTableMemory::new_empty();
    let mut state = KernelState::EarlyInit;
    let mut hal = Hal::new();
    let root = setup_memory(&dt, &vec![], 0x8000_0000, 0x8008_0000, &mut pmm, &mut tables, &mut hal, &mut state).unwrap();
    assert_eq!(hal.kpt(), Some(root));
    assert_eq!(state, KernelState::MmuEnabledInit);
    assert_eq!(tables.translate(root, 0xc00_0000), Some((0xc00_0000, 0b0011)));
    assert_eq!(tables.translate(root, 0xfff_f000), Some((0xfff_f000, 0b0011)));
    assert_eq!(tables.translate(root, 0x1000_0000), None);
}

#[test]
fn map_then_unmap_dt_regions() {
    let mut pmm = PhysicalMemoryManager::new();
    let regions = [Some(AddressRange::new(0x8000_0000..0x8010_0000)), None];
    pmm.init_from_regions(&regions).unwrap();
    let mut tables = PageTableMemory::new_empty();
    let root = tables.new_root(&mut pmm).unwrap();
    let reg = Some(vec![(0x900_0000usize, Some(0x2000usize)), (0xa00_0000usize, Some(0x10usize))]);
    map_dt_regions(&reg, &mut tables, root, &mut pmm).unwrap();
    assert_eq!(tables.translate(root, 0x900_0000), Some((0x900_0000, 0b0011)));
    assert_eq!(tables.translate(root, 0x900_1000), Some((0x900_1000, 0b0011)));
    assert_eq!(tables.translate(root, 0x900_2000), None);
    assert_eq!(tables.translate(root, 0xa00_0000), Some((0xa00_0000, 0b0011)));
    let used = pmm.used_pages();
    let whole_pages = Some(vec![(0x900_0000usize, Some(0x2000usize))]);
    unmap_dt_regions(&whole_pages, &mut tables, root, &mut pmm).unwrap();
    assert_eq!(tables.translate(root, 0x900_0000), None);
    assert_eq!(tables.translate(root, 0x900_1000), None);
    assert_eq!(tables.translate(root, 0xa00_0000), Some((0xa00_0000, 0b0011)));
    assert_eq!(pmm.used_pages(), used);
    let unsized_region = Some(vec![(0x900_0000usize, None)]);
    assert_eq!(map_dt_regions(&unsized_region, &mut tables, root, &mut pmm), Err(Error::InvalidFdtNode));
    assert_eq!(unmap_dt_regions(&unsized_region, &mut tables, root, &mut pmm), Err(Error::InvalidFdtNode));
    assert_eq!(map_dt_regions(&None, &mut tables, root, &mut pmm), Ok(()));
}

#[test]
fn map_dt_regions_stops_at_a_region_without_size() {
    let mut pmm = PhysicalMemoryManager::new();
    let regions = [Some(AddressRange::new(0x8000_0000..0x8010_0000)), None];
    pmm.init_from_regions(&regions).unwrap();
    let mut tables = PageTableMemory::new_empty();
    let root = tables.new_root(&mut pmm).unwrap();
    let reg = Some(vec![(0x900_0000usize, Some(0x1000usize)), (0xa00_0000usize, None), (0xb00_0000usize, Some(0x1000usize))]);
    assert_eq!(map_dt_regions(&reg, &mut tables, root, &mut pmm), Err(Error::InvalidFdtNode));
    assert_eq!(tables.translate(root, 0x900_0000), Some((0x900_0000, 0b0011)));
    assert_eq!(tables.translate(root, 0xb00_0000), None);
}

#[test]
fn map_dt_regions_runs_out_of_pages() {
    let mut pmm = PhysicalMemoryManager::new();
    let regions = [Some(AddressRange::new(0x8000_0000..0x8000_3000)), None];
    pmm.init_from_regions(&regions).unwrap();
    let mut tables = PageTableMemory::new_empty();
    let root = tables.new_root(&mut pmm).unwrap();
    let reg = Some(vec![(0x900_0000usize, Some(0x1000usize))]);
    assert_eq!(
        map_dt_regions(&reg, &mut tables, root, &mut pmm),
        Err(Error::Allocator(goose::hal_core::mm::AllocatorError::OutOfMemory))
    );
    assert_eq!(tables.translate(root, 0x900_0000), None);
    assert!(pmm.alloc_pages(1).is_err());
}

fn memory_with_root() -> (PhysicalMemoryManager, PageTableMemory, u64) {
    let mut pmm = PhysicalMemoryManager::new();
    let regions = [Some(AddressRange::new(0x8000_0000..0x8010_0000)), None];
    pmm.init_from_regions(&regions).unwrap();
    let mut tables = PageTableMemory::new_empty();
    let root = tables.new_root(&mut pmm).unwrap();
    (pmm, tables, root)
}

#[test]
fn map_then_unmap_restores_other_addresses() {
    let (mut pmm, mut tables, root) = memory_with_root();
    let reg = Some(vec![(0x900_0000usize, Some(0x2000usize))]);
    map_dt_regions(&reg, &mut tables, root, &mut pmm).unwrap();
    unmap_dt_regions(&reg, &mut tables, root, &mut pmm).unwrap();
    assert_eq!(tables.translate(root, 0x900_0000), None);
    assert_eq!(tables.translate(root, 0x900_1000), None);
    assert!(tables.is_prepared(root, 0x900_1000));
}

#[test]
fn do_console_sets_the_console_when_a_driver_matches() {
    let (mut pmm, mut tables, root) = memory_with_root();
    let mut console = KernelConsole::new(None);
    let reg = Some(vec![(0x900_0000usize, Some(0x1000usize))]);
    let driver = Some(ConsoleDevice { kind: ConsoleKind::Pl011, base: 0x900_0000 });
    assert_eq!(DriverManager::do_console(&reg, driver, &mut tables, root, &mut pmm, &mut console), Ok(()));
    assert_eq!(*console.target(), driver);
    assert_eq!(tables.translate(root, 0x900_0000), Some((0x900_0000, 0b0011)));
    let other = Some(ConsoleDevice { kind: ConsoleKind::Ns16550, base: 0x1000_0000 });
    assert_eq!(
        DriverManager::do_console(&reg, other, &mut tables, root, &mut pmm, &mut console),
        Err(ConsoleSetupError::AlreadySet(ConsoleAlreadySet))
    );
    assert_eq!(*console.target(), driver);
}

#[test]
fn do_console_unmaps_when_no_driver_matches() {
    let (mut pmm, mut tables, root) = memory_with_root();
    let mut console = KernelConsole::new(None);
    let reg = Some(vec![(0x900_0000usize, Some(0x1000usize))]);
    assert_eq!(
        DriverManager::do_console(&reg, None, &mut tables, root, &mut pmm, &mut console),
        Err(ConsoleSetupError::Kernel(Error::NoMatchingDriver))
    );
    assert_eq!(tables.translate(root, 0x900_0000), None);
    assert_eq!(*console.target(), None);
    let unsized_reg = Some(vec![(0x900_0000usize, None)]);
    assert_eq!(
        DriverManager::do_console(&unsized_reg, None, &mut tables, root, &mut pmm, &mut console),
        Err(ConsoleSetupError::Kernel(Error::InvalidFdtNode))
    );
}

#[test]
fn interrupt_controller_is_the_first_with_registers() {
    let nodes = vec![(false, true), (true, false), (true, true), (true, true)];
    assert_eq!(DeviceTree::interrupt_controller(&nodes), Some(2));
    assert_eq!(DeviceTree::interrupt_controller(&vec![(true, false), (false, true)]), None);
}
