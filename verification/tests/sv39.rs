use goose::hal_core::mm::{PAddr as MmPAddr, PageAlloc, Permissions, VAddr as MmVAddr};
use goose::hal_core::AddressRange;
use goose::kernel::arch::riscv64::sv39::{
    disable, load_pt, satp_value, PAddr, PageTable, PageTableEntry, PageTableMemory, SatpMode,
    VAddr,
};
use goose::kernel::mm::physical_memory_manager::PhysicalMemoryManager;

#[test]
fn vaddr_vpn_fields() {
    let va = VAddr { addr: 0x40_0000 };
    assert_eq!(va.vpn(0), 0);
    assert_eq!(va.vpn(1), 2);
    assert_eq!(va.vpn(2), 0);
    let va = VAddr { addr: 0x7f_ffff_f000 };
    assert_eq!(va.vpn(0), 0x1ff);
    assert_eq!(va.vpn(1), 0x1ff);
    assert_eq!(va.vpn(2), 0x1ff);
}

#[test]
fn vaddr_from_u64_sign_extends_bit_38() {
    assert_eq!(VAddr::from_u64(0x40_0000_0000).addr, 0xffff_ffc0_0000_0000);
    assert_eq!(VAddr::from_u64(0x3f_ffff_ffff).addr, 0x3f_ffff_ffff);
    assert_eq!(VAddr::from_u64(0xffff_0000_0000_1000).addr, 0x1000);
}

#[test]
fn paddr_from_u64_and_ppn() {
    let pa = PAddr::from_u64(0x8020_1000);
    assert_eq!(pa.addr, 0x8020_1000);
    assert_eq!(pa.ppn(0), 1);
    assert_eq!(pa.ppn(1), 1);
    assert_eq!(pa.ppn(2), 2);
    assert_eq!(PAddr::from_u64(0x40_0000_0000).addr, 0xff80_0040_0000_0000);
}

#[test]
fn entry_target_round_trip() {
    let mut e = PageTableEntry::new_invalid();
    assert!(!e.is_valid());
    e.set_target(0x8000_2000);
    assert_eq!(e.get_target(), 0x8000_2000);
    e.set_valid();
    assert!(e.is_valid());
    assert_eq!(e.get_target(), 0x8000_2000);
    e.set_v(0);
    assert!(!e.is_valid());
    e.clear();
    assert_eq!(e.bits, 0);
}

#[test]
fn entry_permissions() {
    let mut e = PageTableEntry::new_invalid();
    e.set_perms(Permissions::read().union(Permissions::write()));
    assert_eq!(e.bits, 0b0110);
    e.set_perms(Permissions::execute().union(Permissions::user()));
    assert_eq!(e.bits, 0b1_1000);
}

#[test]
fn zeroed_table_has_invalid_entries() {
    let t = PageTable::zeroed();
    assert_eq!(t.entries.len(), 512);
    assert!(t.entries.iter().all(|e| e.bits == 0));
}

#[test]
fn satp_values() {
    assert_eq!(load_pt(0x8000_1000), 0x8000_0000_0008_0001);
    assert_eq!(disable(), 0);
    assert_eq!(satp_value(0x123, 7, SatpMode::Sv39), 0x8000_7000_0000_0123);
}

fn memory_manager() -> PhysicalMemoryManager {
    let mut pmm = PhysicalMemoryManager::new();
    let regions = [Some(AddressRange::new(0x8000_0000..0x8010_0000)), None];
    pmm.init_from_regions(&regions).unwrap();
    pmm
}

#[test]
fn pagetable_does_remap() {
    let mut pmm = memory_manager();
    let mut tables = PageTableMemory::new_empty();
    let root = tables.new_root(&mut pmm).unwrap();
    assert_eq!(root, 0x8000_1000);
    assert_eq!(tables.translate(root, 0x40_0000), None);

    let rwx = Permissions::read().union(Permissions::write()).union(Permissions::execute());
    tables
        .map(root, MmPAddr::new(0x8005_0000), MmVAddr::new(0x40_0000), rwx, &mut pmm)
        .unwrap();
    assert_eq!(tables.translate(root, 0x40_0000), Some((0x8005_0000, 0b0111)));
    assert_eq!(tables.translate(root, 0x40_0123), Some((0x8005_0000, 0b0111)));
    assert_eq!(tables.translate(root, 0x40_1000), None);

    tables
        .map(root, MmPAddr::new(0x8006_0000), MmVAddr::new(0x40_0000), Permissions::read(), &mut pmm)
        .unwrap();
    assert_eq!(tables.translate(root, 0x40_0000), Some((0x8006_0000, 0b0001)));
}

#[test]
fn add_invalid_entry_unmaps() {
    let mut pmm = memory_manager();
    let mut tables = PageTableMemory::new_empty();
    let root = tables.new_root(&mut pmm).unwrap();
    tables
        .map(root, MmPAddr::new(0x8005_0000), MmVAddr::new(0x40_0000), Permissions::read(), &mut pmm)
        .unwrap();
    tables.add_invalid_entry(root, MmVAddr::new(0x40_0000), &mut pmm).unwrap();
    assert_eq!(tables.translate(root, 0x40_0000), None);
}

#[test]
fn mapping_allocates_intermediate_tables() {
    let mut pmm = memory_manager();
    let mut tables = PageTableMemory::new_empty();
    let root = tables.new_root(&mut pmm).unwrap();
    tables
        .map(root, MmPAddr::new(0x8005_0000), MmVAddr::new(0x40_0000), Permissions::read(), &mut pmm)
        .unwrap();
    // The root, then one table for each of the two lower levels.
    assert_eq!(pmm.used_pages(), vec![0x8000_0000, 0x8000_1000, 0x8000_2000, 0x8000_3000]);
}

#[test]
fn align_down() {
    assert!(PageTable::align_down(0x1042) == 0x1000);
}

#[test]
fn align_up() {
    assert!(PageTable::align_up(0x1042) == 0x2000);
}
