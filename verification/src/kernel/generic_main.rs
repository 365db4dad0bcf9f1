use vstd::prelude::*;

use crate::hal_core::mm::{self, AllocatorError, Permissions};
use crate::kernel::arch::riscv64::page_map::{
    identity_mapped, page_table_ready, prefilled, range_pages, ranges_prepared, read_write,
};
use crate::kernel::arch::riscv64::sv39::{pages_addressable, pages_only_allocated, translate, PageTableMemory, PAGE_SIZE};
use crate::kernel::device_tree::DeviceTree;
use crate::kernel::error::Error;
use crate::kernel::mm::memory_coverage::{
    lemma_allocated_bases_from, lemma_exclude_each_within, lemma_find_large_region_slot,
    lemma_realigned_page_of_ranges, lemma_regions_pages_from, page_at, page_of_ranges,
};
use crate::kernel::mm::physical_memory_manager::{
    allocated_bases, device_tree_regions, device_tree_regions_defined, exclude_each, excluded_ranges,
    initial_regions, lemma_regions_pages_len, metadata_page_addrs, metadata_pages, metadata_size, range, realigned,
    regions_page_aligned, regions_pages, spec_find_large_region, total_size, unaligned_available_regions,
    no_free_page, PhysicalMemoryManager, PhysicalPage, DEVICE_TREE_MAX_REGIONS, METADATA_ENTRY_SIZE,
};
use crate::hal_core::hal::Hal;
use crate::kernel::globals::KernelState;
use crate::kernel::mm::{
    address_space_defined, kernel_rwx_range, map_address_space, memory_ranges, pages_in_ranges, read_write_ranges,
    used_list,
};

verus! {

/// The address of the registers of the platform interrupt controller.
pub const PLIC_MMIO_BASE: usize = 0xc000000;

/// The offset of the last register of the platform interrupt controller.
pub const PLIC_MMIO_MAX_OFFSET: usize = 0x3FFFFFC;

/// The number of pages the registers of the platform interrupt controller span.
pub open spec fn plic_page_count() -> int {
    PLIC_MMIO_MAX_OFFSET / PAGE_SIZE + 1
}

/// Where the manager built from the device tree keeps its descriptors.
pub open spec fn boot_metadata_start(device_tree: DeviceTree, kernel_start: usize, kernel_end: usize) -> usize {
    let regions = device_tree_regions(device_tree, kernel_start, kernel_end);
    spec_find_large_region(regions, metadata_size(regions), 0)->0
}

/// The descriptors of the manager built from the device tree.
pub open spec fn boot_pages(device_tree: DeviceTree, kernel_start: usize, kernel_end: usize) -> Seq<PhysicalPage> {
    let regions = device_tree_regions(device_tree, kernel_start, kernel_end);
    let addr = boot_metadata_start(device_tree, kernel_start, kernel_end);
    regions_pages(regions, regions.len() as int, addr, (addr + metadata_pages(regions) * PAGE_SIZE) as usize)
}

/// The memory setup of the boot: builds the physical memory manager from the device tree (the
/// kernel image spans `[kernel_start; kernel_end[`), builds the kernel page table as
/// `map_address_space` does (which records its root in `hal` and turns `state` to
/// `MmuEnabledInit`), and identity maps the registers of the platform interrupt controller
/// read-write. Returns the root of the page table; it fails only when the manager has no free
/// page left.
pub fn setup_memory(
    device_tree: &DeviceTree,
    drivers: &Vec<Option<(usize, usize)>>,
    kernel_start: usize,
    kernel_end: usize,
    pmm: &mut PhysicalMemoryManager,
    tables: &mut PageTableMemory,
    hal: &mut Hal,
    state: &mut KernelState,
) -> (r: Result<u64, Error>)
    requires
        old(hal).kernel_root() is None,
        old(pmm).wf(),
        old(tables).slots().len() == 0,
        kernel_start < kernel_end,
        device_tree_regions_defined(*device_tree, kernel_start, kernel_end),
        regions_page_aligned(device_tree_regions(*device_tree, kernel_start, kernel_end)),
        total_size(device_tree_regions(*device_tree, kernel_start, kernel_end), DEVICE_TREE_MAX_REGIONS as int)
            <= usize::MAX,
        metadata_size(device_tree_regions(*device_tree, kernel_start, kernel_end)) + PAGE_SIZE - 1 <= usize::MAX,
        spec_find_large_region(
            device_tree_regions(*device_tree, kernel_start, kernel_end),
            metadata_size(device_tree_regions(*device_tree, kernel_start, kernel_end)),
            0,
        ) is Some,
        boot_pages(*device_tree, kernel_start, kernel_end).len() > 0,
        boot_metadata_start(*device_tree, kernel_start, kernel_end) + (boot_pages(
            *device_tree,
            kernel_start,
            kernel_end,
        ).len() - 1) * METADATA_ENTRY_SIZE <= usize::MAX,
        pages_addressable(boot_pages(*device_tree, kernel_start, kernel_end)),
        address_space_defined(*device_tree, drivers@, kernel_start, kernel_end),
    ensures
        final(pmm).wf(),
        final(pmm).spec_metadata_start() == boot_metadata_start(*device_tree, kernel_start, kernel_end),
        pages_only_allocated(boot_pages(*device_tree, kernel_start, kernel_end), final(pmm).pages()),
        match r {
            Ok(root) => page_table_ready(final(tables).slots(), root, final(pmm).pages()) && ranges_prepared(
                final(tables).slots(),
                root,
                memory_ranges(device_tree.spec_memory()),
                device_tree.spec_memory().len() as int,
            ) && exists|
                mid: Seq<PhysicalPage>,
            |
                #![trigger used_list(mid, boot_metadata_start(*device_tree, kernel_start, kernel_end))]
                pages_only_allocated(boot_pages(*device_tree, kernel_start, kernel_end), mid)
                    && pages_only_allocated(mid, final(pmm).pages()) && forall|vb: u64| #[trigger]
                    translate(final(tables).slots(), root, vb) == identity_mapped(
                        identity_mapped(
                            prefilled(
                                Seq::empty(),
                                read_write_ranges(*device_tree, drivers@),
                                seq![kernel_rwx_range(kernel_start, kernel_end)],
                                memory_ranges(device_tree.spec_memory()),
                                vb,
                            ),
                            used_list(mid, boot_metadata_start(*device_tree, kernel_start, kernel_end)),
                            used_list(mid, boot_metadata_start(*device_tree, kernel_start, kernel_end)).len() as int,
                            vb,
                            read_write(),
                        ),
                        range_pages(PLIC_MMIO_BASE as int, plic_page_count()),
                        plic_page_count(),
                        vb,
                        read_write(),
                    ) && (memory_page_aligned(device_tree.spec_memory()) ==> pages_in_ranges(
                    used_list(mid, boot_metadata_start(*device_tree, kernel_start, kernel_end)),
                    memory_ranges(device_tree.spec_memory()),
                )),
            Err(e) => e == Error::Allocator(AllocatorError::OutOfMemory) && no_free_page(final(pmm).pages()),
        },
        r is Ok ==> *final(state) == KernelState::MmuEnabledInit && final(hal).kernel_root() == Some(r->Ok_0)
            && r->Ok_0 < 0x10_0000_0000_0000,
{
    let _ = pmm.init_from_device_tree(device_tree, kernel_start, kernel_end);
    let ghost p1 = pmm.pages();
    match map_address_space(device_tree, drivers, kernel_start, kernel_end, hal, tables, pmm, state) {
        Ok(()) => {},
        Err(e) => {
            return Err(e);
        },
    }
    let root = hal.kpt().unwrap();
    let ghost s2 = tables.slots();
    let ghost p2 = pmm.pages();
    let res = tables.identity_map_range(
        root,
        mm::VAddr::new(PLIC_MMIO_BASE),
        PLIC_MMIO_MAX_OFFSET / PAGE_SIZE + 1,
        Permissions::read().union(Permissions::write()),
        pmm,
    );
    proof {
        crate::kernel::arch::riscv64::page_map::lemma_pages_only_allocated_trans(p1, p2, pmm.pages());
    }
    match res {
        Ok(()) => {},
        Err(e) => {
            return Err(Error::Allocator(e));
        },
    }
    proof {
        let start = boot_metadata_start(*device_tree, kernel_start, kernel_end);
        let mid = choose|mid: Seq<PhysicalPage>|
            #![trigger used_list(mid, start)]
            pages_only_allocated(p1, mid) && pages_only_allocated(mid, p2) && forall|vb: u64| #[trigger]
                translate(s2, root, vb) == identity_mapped(
                    prefilled(
                        Seq::empty(),
                        read_write_ranges(*device_tree, drivers@),
                        seq![kernel_rwx_range(kernel_start, kernel_end)],
                        memory_ranges(device_tree.spec_memory()),
                        vb,
                    ),
                    used_list(mid, start),
                    used_list(mid, start).len() as int,
                    vb,
                    read_write(),
                );
        crate::kernel::arch::riscv64::page_map::lemma_pages_only_allocated_trans(mid, p2, pmm.pages());
        if memory_page_aligned(device_tree.spec_memory()) {
            lemma_used_pages_in_memory(*device_tree, kernel_start, kernel_end, mid);
        }
        assert(forall|vb: u64| #[trigger]
            translate(tables.slots(), root, vb) == identity_mapped(
                identity_mapped(
                    prefilled(
                        Seq::empty(),
                        read_write_ranges(*device_tree, drivers@),
                        seq![kernel_rwx_range(kernel_start, kernel_end)],
                        memory_ranges(device_tree.spec_memory()),
                        vb,
                    ),
                    used_list(mid, start),
                    used_list(mid, start).len() as int,
                    vb,
                    read_write(),
                ),
                range_pages(PLIC_MMIO_BASE as int, plic_page_count()),
                plic_page_count(),
                vb,
                read_write(),
            ));
    }
    Ok(root)
}

/// The memory regions `(base, size)` start and end at page boundaries.
pub open spec fn memory_page_aligned(memory: Seq<(usize, usize)>) -> bool {
    forall|i: int|
        0 <= i < memory.len() ==> #[trigger] memory[i].0 % PAGE_SIZE == 0 && (memory[i].0 + memory[i].1)
            % (PAGE_SIZE as int) == 0
}

/// A page of an available region lies in the memory of the device tree.
proof fn lemma_boot_region_page_in_memory(
    device_tree: DeviceTree,
    kernel_start: usize,
    kernel_end: usize,
    q: int,
    t: int,
)
    requires
        kernel_start < kernel_end,
        device_tree_regions_defined(device_tree, kernel_start, kernel_end),
        memory_page_aligned(device_tree.spec_memory()),
        0 <= q < DEVICE_TREE_MAX_REGIONS,
        device_tree_regions(device_tree, kernel_start, kernel_end)[q] is Some,
        0 <= t < (device_tree_regions(device_tree, kernel_start, kernel_end)[q]->0.end - device_tree_regions(
            device_tree,
            kernel_start,
            kernel_end,
        )[q]->0.start) / (PAGE_SIZE as int),
    ensures
        page_of_ranges(
            page_at(device_tree_regions(device_tree, kernel_start, kernel_end)[q]->0, t),
            memory_ranges(device_tree.spec_memory()),
        ),
{
    let memory = device_tree.spec_memory();
    let reserved = device_tree.spec_reserved();
    let kernel_region = range(kernel_start, kernel_end);
    let device_tree_region = (
        device_tree.spec_addr(),
        (device_tree.spec_addr() + device_tree.spec_total_size()) as usize,
    );
    let excluded = excluded_ranges(kernel_region, device_tree_region, reserved);
    let initial = initial_regions(memory, DEVICE_TREE_MAX_REGIONS as nat);
    let unaligned = unaligned_available_regions(
        memory,
        DEVICE_TREE_MAX_REGIONS as nat,
        kernel_region,
        device_tree_region,
        reserved,
    );
    lemma_exclude_each_within(initial, excluded, excluded.len() as int);
    assert(unaligned == exclude_each(initial, excluded, excluded.len() as int));
    let regions = device_tree_regions(device_tree, kernel_start, kernel_end);
    assert(regions[q] == realigned(unaligned[q]));
    assert(unaligned[q] is Some);
    let r = unaligned[q]->0;
    let i = choose|i: int|
        0 <= i < initial.len() && #[trigger] initial[i] is Some && initial[i]->0.start <= r.start && r.end
            <= initial[i]->0.end;
    assert(i < memory.len());
    assert(memory_ranges(memory)[i] == initial[i]->0);
    assert(memory[i].0 % PAGE_SIZE == 0);
    assert(realign_defined_at(unaligned, q));
    lemma_realigned_page_of_ranges(r, memory_ranges(memory), i, t);
}

/// The available regions fill the slots.
proof fn lemma_boot_regions_len(device_tree: DeviceTree, kernel_start: usize, kernel_end: usize)
    ensures
        device_tree_regions(device_tree, kernel_start, kernel_end).len() == DEVICE_TREE_MAX_REGIONS,
{
    let memory = device_tree.spec_memory();
    let kernel_region = range(kernel_start, kernel_end);
    let device_tree_region = (
        device_tree.spec_addr(),
        (device_tree.spec_addr() + device_tree.spec_total_size()) as usize,
    );
    let excluded = excluded_ranges(kernel_region, device_tree_region, device_tree.spec_reserved());
    let initial = initial_regions(memory, DEVICE_TREE_MAX_REGIONS as nat);
    lemma_exclude_each_within(initial, excluded, excluded.len() as int);
}

/// Slot `q` of the slots can be moved to page boundaries.
spec fn realign_defined_at(slots: Seq<Option<crate::hal_core::AddressRange>>, q: int) -> bool {
    crate::kernel::mm::physical_memory_manager::realign_defined(slots[q])
}

/// When the memory regions of the device tree start and end at page boundaries, every page
/// the manager built from it lists as in use, at any later state of its descriptors, is a page
/// of a memory region: the kernel page table holds a walk for it already, so mapping it
/// allocates nothing.
pub proof fn lemma_used_pages_in_memory(
    device_tree: DeviceTree,
    kernel_start: usize,
    kernel_end: usize,
    mid: Seq<PhysicalPage>,
)
    requires
        kernel_start < kernel_end,
        device_tree_regions_defined(device_tree, kernel_start, kernel_end),
        regions_page_aligned(device_tree_regions(device_tree, kernel_start, kernel_end)),
        spec_find_large_region(
            device_tree_regions(device_tree, kernel_start, kernel_end),
            metadata_size(device_tree_regions(device_tree, kernel_start, kernel_end)),
            0,
        ) is Some,
        memory_page_aligned(device_tree.spec_memory()),
        pages_only_allocated(boot_pages(device_tree, kernel_start, kernel_end), mid),
    ensures
        pages_in_ranges(
            used_list(mid, boot_metadata_start(device_tree, kernel_start, kernel_end)),
            memory_ranges(device_tree.spec_memory()),
        ),
{
    let regions = device_tree_regions(device_tree, kernel_start, kernel_end);
    let start = boot_metadata_start(device_tree, kernel_start, kernel_end);
    let boot = boot_pages(device_tree, kernel_start, kernel_end);
    let used = used_list(mid, start);
    let ranges = memory_ranges(device_tree.spec_memory());
    let n = mid.len() as int;
    let metadata = metadata_page_addrs(start, n);
    lemma_boot_regions_len(device_tree, kernel_start, kernel_end);
    lemma_regions_pages_len(
        regions,
        regions.len() as int,
        start,
        (start + metadata_pages(regions) * PAGE_SIZE) as usize,
    );
    assert forall|j: int| 0 <= j < used.len() implies page_of_ranges(#[trigger] used[j], ranges) by {
        if j < metadata.len() {
            lemma_find_large_region_slot(regions, metadata_size(regions), 0);
            let q = choose|q: int|
                0 <= q < regions.len() && #[trigger] regions[q] is Some && regions[q]->0.start
                    == spec_find_large_region(regions, metadata_size(regions), 0)->0
                    && regions[q]->0.spec_size() >= metadata_size(regions);
            let rq = regions[q]->0;
            let ps = PAGE_SIZE as int;
            assert(used[j] == metadata[j]);
            assert(metadata[j] == (start + j * PAGE_SIZE) as usize);
            assert(n == total_size(regions, regions.len() as int) / ps);
            assert(metadata_size(regions) == n * METADATA_ENTRY_SIZE);
            assert(j <= ((n - 1) * METADATA_ENTRY_SIZE) / ps);
            assert(j * ps <= (n - 1) * METADATA_ENTRY_SIZE) by (nonlinear_arith)
                requires
                    j <= ((n - 1) * METADATA_ENTRY_SIZE) / ps,
                    ps > 0,
            ;
            let (rs, re) = (rq.start as int, rq.end as int);
            assert(rs % ps == 0 && re % ps == 0) by {
                crate::hal_core::mm::lemma_align_up_bounds(rs, ps);
                crate::hal_core::mm::lemma_align_up_bounds(re, ps);
            }
            vstd::arithmetic::div_mod::lemma_fundamental_div_mod(re - rs, ps);
            vstd::arithmetic::div_mod::lemma_fundamental_div_mod(rs, ps);
            vstd::arithmetic::div_mod::lemma_fundamental_div_mod(re, ps);
            vstd::arithmetic::div_mod::lemma_mod_bound(re - rs, ps);
            assert(re - rs == (re / ps - rs / ps) * ps);
            vstd::arithmetic::div_mod::lemma_mod_multiples_basic(re / ps - rs / ps, ps);
            assert(j < (re - rs) / ps) by (nonlinear_arith)
                requires
                    j * ps <= (n - 1) * METADATA_ENTRY_SIZE,
                    n * METADATA_ENTRY_SIZE <= re - rs,
                    re - rs == ps * ((re - rs) / ps),
                    ps > 0,
                    METADATA_ENTRY_SIZE > 0,
            ;
            assert(page_at(rq, j) == used[j]);
            lemma_boot_region_page_in_memory(device_tree, kernel_start, kernel_end, q, j);
        } else {
            let k = j - metadata.len();
            assert(used[j] == allocated_bases(mid, n)[k]);
            lemma_allocated_bases_from(mid, n, k);
            let idx = choose|idx: int| 0 <= idx < n && #[trigger] mid[idx].base == allocated_bases(mid, n)[k];
            assert(boot[idx].base == mid[idx].base);
            lemma_regions_pages_from(
                regions,
                regions.len() as int,
                start,
                (start + metadata_pages(regions) * PAGE_SIZE) as usize,
                idx,
            );
            let (q, t) = choose|q: int, t: int|
                0 <= q < regions.len() && regions[q] is Some && 0 <= t < (regions[q]->0.end
                    - regions[q]->0.start) / (PAGE_SIZE as int) && boot[idx].base == #[trigger] page_at(
                    regions[q]->0,
                    t,
                );
            lemma_boot_region_page_in_memory(device_tree, kernel_start, kernel_end, q, t);
        }
    }
}

} // verus!
