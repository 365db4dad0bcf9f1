use vstd::prelude::*;

pub mod binary_buddy_allocator;
pub mod memory_coverage;
pub mod physical_memory_manager;
pub mod range_list;

use crate::hal_core::mm::{self, align_up, spec_align_up, AllocatorError, PageAlloc, Permissions};
use crate::hal_core::AddressRange;
use crate::kernel::arch::riscv64::page_map::{
    all_pageable, identity_mapped, page_table_ready, prefilled, ranges_prepared, read_write,
};
use crate::kernel::arch::riscv64::page_map::{range_page_count, range_pages};
use crate::kernel::arch::riscv64::sv39::{
    pages_addressable, pages_only_allocated, tables_backed, tables_wf, translate, walk_prepared, PageTableMemory,
    PAGE_SIZE,
};
use crate::hal_core::hal::Hal;
use crate::kernel::globals::KernelState;
use crate::kernel::device_tree::DeviceTree;
use crate::kernel::error::Error;
use crate::kernel::mm::physical_memory_manager::{
    allocate_run, allocated_bases, first_run_end, lemma_run_is_free_and_contiguous, metadata_page_addrs,
    no_free_page, range, run_len, PageKind, PhysicalMemoryManager, PhysicalPage, METADATA_ENTRY_SIZE,
};
use crate::kernel::mm::memory_coverage::page_of_ranges;
use crate::kernel::mm::range_list::{
    large_list_into_vec, large_list_items, large_list_new, large_list_try_push, range_pairs, small_list_into_vec,
    small_list_items, small_list_new, small_list_try_push,
};

verus! {

/// The page at `base` holds part of the kernel image, which spans `[kernel_start; kernel_end[`.
pub fn is_kernel_page(base: usize, kernel_start: usize, kernel_end: usize) -> (b: bool)
    ensures
        b == (kernel_start <= base < kernel_end),
{
    base >= kernel_start && base < kernel_end
}

/// The memory the kernel image spans: `[kernel_start; kernel_end[`.
pub fn kernel_memory_region(kernel_start: usize, kernel_end: usize) -> (r: AddressRange)
    requires
        kernel_start < kernel_end,
    ensures
        r.start == kernel_start,
        r.end == kernel_end,
{
    AddressRange::new(kernel_start..kernel_end)
}

/// `base` lies in one of the reserved regions `(start, size)` of the device tree, bounds
/// included: `start <= base <= start + size`.
pub open spec fn spec_is_reserved(base: usize, reserved: Seq<(usize, usize)>) -> bool {
    exists|i: int|
        0 <= i < reserved.len() && #[trigger] reserved[i].0 <= base && base <= reserved[i].0
            + reserved[i].1
}

/// Whether the page at `base` lies in one of the reserved memory regions of the device tree,
/// bounds included.
pub fn is_reserved_page(base: usize, device_tree: &DeviceTree) -> (b: bool)
    requires
        forall|i: int|
            0 <= i < device_tree.spec_reserved().len() ==> #[trigger] device_tree.spec_reserved()[i].0
                + device_tree.spec_reserved()[i].1 <= usize::MAX,
    ensures
        b == spec_is_reserved(base, device_tree.spec_reserved()),
{
    let regions = device_tree.for_all_reserved_memory_regions();
    let mut i: usize = 0;
    while i < regions.len()
        invariant
            i <= regions@.len(),
            regions@ == device_tree.spec_reserved(),
            forall|j: int| 0 <= j < regions@.len() ==> #[trigger] regions@[j].0 + regions@[j].1 <= usize::MAX,
            forall|j: int|
                0 <= j < i ==> !(#[trigger] regions@[j].0 <= base && base <= regions@[j].0 + regions@[j].1),
        decreases regions@.len() - i,
    {
        let (region_start, region_size) = regions[i];
        if base >= region_start && base <= region_start + region_size {
            assert(regions@[i as int].0 <= base && base <= regions@[i as int].0 + regions@[i as int].1);
            return true;
        }
        i = i + 1;
    }
    false
}

/// The ranges the kernel image needs mapped read-only, read-write, and with all rights: it is
/// mapped whole with all rights, from `kernel_start` to its end rounded up to a page.
pub fn map_kernel_rwx(kernel_start: usize, kernel_end: usize) -> (r: (Vec<AddressRange>, Vec<AddressRange>, Vec<AddressRange>))
    requires
        kernel_start < kernel_end,
        kernel_end + PAGE_SIZE - 1 <= usize::MAX,
    ensures
        r.0@.len() == 0,
        r.1@.len() == 0,
        r.2@ == seq![kernel_rwx_range(kernel_start, kernel_end)],
{
    let page_size = PAGE_SIZE;
    let kernel_end_align = ((kernel_end + (page_size - 1)) / page_size) * page_size;
    proof {
        mm::lemma_align_up_bounds(kernel_end as int, PAGE_SIZE as int);
    }
    let mut rwx_entries: Vec<AddressRange> = Vec::new();
    rwx_entries.push(AddressRange::new(kernel_start..kernel_end_align));
    (Vec::new(), Vec::new(), rwx_entries)
}

/// The kernel image, from `kernel_start` to its end rounded up to a page.
pub open spec fn kernel_rwx_range(kernel_start: usize, kernel_end: usize) -> AddressRange {
    range(kernel_start, spec_align_up(kernel_end as int, PAGE_SIZE as int) as usize)
}

/// The memory regions `(base, size)` as ranges.
pub open spec fn memory_ranges(memory: Seq<(usize, usize)>) -> Seq<AddressRange> {
    memory.map_values(|m: (usize, usize)| range(m.0, (m.0 + m.1) as usize))
}

/// The ranges of the drivers that have one, in order: `(base, len)` gives `len` rounded up to a
/// page from `base` on.
pub open spec fn driver_ranges(drivers: Seq<Option<(usize, usize)>>) -> Seq<AddressRange>
    decreases drivers.len(),
{
    if drivers.len() == 0 {
        Seq::empty()
    } else {
        let rest = driver_ranges(drivers.drop_last());
        match drivers.last() {
            Some(d) => rest.push(range(d.0, (d.0 + spec_align_up(d.1 as int, PAGE_SIZE as int)) as usize)),
            None => rest,
        }
    }
}

/// The device tree, from its start to its end rounded up to a page.
pub open spec fn device_tree_range(device_tree: DeviceTree) -> AddressRange {
    range(
        device_tree.spec_addr(),
        spec_align_up(device_tree.spec_addr() + device_tree.spec_total_size(), PAGE_SIZE as int) as usize,
    )
}

/// The ranges mapped read-write: the device tree, then the memory of each driver that has some.
pub open spec fn read_write_ranges(device_tree: DeviceTree, drivers: Seq<Option<(usize, usize)>>) -> Seq<AddressRange> {
    seq![device_tree_range(device_tree)] + driver_ranges(drivers)
}

/// Each of `pages` is one of the pages of one of the `ranges`, as a page table walks them.
pub open spec fn pages_in_ranges(pages: Seq<usize>, ranges: Seq<AddressRange>) -> bool {
    forall|j: int| 0 <= j < pages.len() ==> page_of_ranges(#[trigger] pages[j], ranges)
}

/// The pages the manager lists as in use when its descriptors are `pages`, kept from
/// `metadata_start` on.
pub open spec fn used_list(pages: Seq<PhysicalPage>, metadata_start: usize) -> Seq<usize> {
    metadata_page_addrs(metadata_start, pages.len() as int) + allocated_bases(pages, pages.len() as int)
}

/// The address space can be built: the memory regions, the device tree, the drivers' memory and
/// the kernel image make ranges that can be walked page by page and that fit in their lists.
pub open spec fn address_space_defined(
    device_tree: DeviceTree,
    drivers: Seq<Option<(usize, usize)>>,
    kernel_start: usize,
    kernel_end: usize,
) -> bool {
    let memory = device_tree.spec_memory();
    &&& memory.len() <= 1024
    &&& forall|i: int| 0 <= i < memory.len() ==> 0 < #[trigger] memory[i].1 && memory[i].0 + memory[i].1 <= usize::MAX
    &&& all_pageable(memory_ranges(memory))
    &&& 0 < device_tree.spec_total_size()
    &&& device_tree.spec_addr() + device_tree.spec_total_size() + PAGE_SIZE - 1 <= usize::MAX
    &&& driver_ranges(drivers).len() < 128
    &&& forall|i: int|
        0 <= i < drivers.len() && #[trigger] drivers[i] is Some ==> {
            let d = drivers[i]->0;
            &&& d.1 + PAGE_SIZE - 1 <= usize::MAX
            &&& 0 < d.1
            &&& d.0 + spec_align_up(d.1 as int, PAGE_SIZE as int) <= usize::MAX
        }
    &&& all_pageable(read_write_ranges(device_tree, drivers))
    &&& kernel_start < kernel_end
    &&& kernel_end + PAGE_SIZE - 1 <= usize::MAX
    &&& all_pageable(seq![kernel_rwx_range(kernel_start, kernel_end)])
}

/// A prefix of the drivers has no more ranges than all of them.
proof fn lemma_driver_ranges_prefix(drivers: Seq<Option<(usize, usize)>>, j: int)
    requires
        0 <= j <= drivers.len(),
    ensures
        driver_ranges(drivers.take(j)).len() <= driver_ranges(drivers).len(),
    decreases drivers.len(),
{
    if j < drivers.len() {
        assert(drivers.drop_last().take(j) =~= drivers.take(j));
        lemma_driver_ranges_prefix(drivers.drop_last(), j);
    } else {
        assert(drivers.take(j) =~= drivers);
    }
}

/// Builds the kernel page table in `tables`, its pages allocated from `pmm`: the memory regions
/// of the device tree get invalid entries, so that mapping their pages later needs no
/// allocation; the device tree and the memory of the drivers (`(base, len)` for each driver that
/// has some) are identity mapped read-write, the kernel image at `[kernel_start; kernel_end[`
/// with all rights; then each page the manager lists as in use is identity mapped read-write.
/// The page table is built through `hal`, which records its root. Once it is complete, the
/// kernel runs with the MMU on: `state` becomes `MmuEnabledInit`. It fails, with `state`
/// unchanged, only when the manager has no free page left.
pub fn map_address_space(
    device_tree: &DeviceTree,
    drivers: &Vec<Option<(usize, usize)>>,
    kernel_start: usize,
    kernel_end: usize,
    hal: &mut Hal,
    tables: &mut PageTableMemory,
    pmm: &mut PhysicalMemoryManager,
    state: &mut KernelState,
) -> (r: Result<(), Error>)
    requires
        old(hal).kernel_root() is None,
        address_space_defined(*device_tree, drivers@, kernel_start, kernel_end),
        tables_wf(old(tables).slots()),
        old(pmm).wf(),
        pages_addressable(old(pmm).pages()),
        tables_backed(old(tables).slots(), old(pmm).pages()),
        old(pmm).pages().len() > 0,
        old(pmm).spec_metadata_start() + (old(pmm).pages().len() - 1) * METADATA_ENTRY_SIZE <= usize::MAX,
    ensures
        tables_wf(final(tables).slots()),
        final(pmm).wf(),
        pages_addressable(final(pmm).pages()),
        tables_backed(final(tables).slots(), final(pmm).pages()),
        pages_only_allocated(old(pmm).pages(), final(pmm).pages()),
        final(pmm).spec_metadata_start() == old(pmm).spec_metadata_start(),
        match r {
            Ok(_) => final(hal).kernel_root() matches Some(root) && root < 0x10_0000_0000_0000
                && page_table_ready(final(tables).slots(), root, final(pmm).pages()) && ranges_prepared(
                final(tables).slots(),
                root,
                memory_ranges(device_tree.spec_memory()),
                device_tree.spec_memory().len() as int,
            ) && exists|
                mid: Seq<PhysicalPage>,
            |
                #![trigger used_list(mid, old(pmm).spec_metadata_start())]
                pages_only_allocated(old(pmm).pages(), mid) && pages_only_allocated(mid, final(pmm).pages())
                    && forall|vb: u64| #[trigger]
                    translate(final(tables).slots(), root, vb) == identity_mapped(
                        prefilled(
                            Seq::empty(),
                            read_write_ranges(*device_tree, drivers@),
                            seq![kernel_rwx_range(kernel_start, kernel_end)],
                            memory_ranges(device_tree.spec_memory()),
                            vb,
                        ),
                        used_list(mid, old(pmm).spec_metadata_start()),
                        used_list(mid, old(pmm).spec_metadata_start()).len() as int,
                        vb,
                        read_write(),
                    ) && (pages_in_ranges(
                    used_list(mid, old(pmm).spec_metadata_start()),
                    memory_ranges(device_tree.spec_memory()),
                ) ==> final(pmm).pages() == mid),
            Err(e) => e == Error::Allocator(AllocatorError::OutOfMemory) && no_free_page(final(pmm).pages()),
        },
        *final(state) == if r is Ok {
            KernelState::MmuEnabledInit
        } else {
            *old(state)
        },
{
    let memory = device_tree.for_all_memory_regions();
    let mut pre_allocated_entries = large_list_new();
    let mut i: usize = 0;
    while i < memory.len()
        invariant
            i <= memory@.len(),
            memory@ == device_tree.spec_memory(),
            address_space_defined(*device_tree, drivers@, kernel_start, kernel_end),
            large_list_items(pre_allocated_entries) == range_pairs(memory_ranges(memory@).take(i as int)),
        decreases memory@.len() - i,
    {
        let (base, size) = memory[i];
        assert(0 < memory@[i as int].1);
        let _ = large_list_try_push(&mut pre_allocated_entries, AddressRange::with_size(base, size));
        assert(memory_ranges(memory@).take(i + 1) =~= memory_ranges(memory@).take(i as int).push(
            memory_ranges(memory@)[i as int],
        ));
        i = i + 1;
    }
    let mut r_entries = small_list_new();
    let mut rw_entries = small_list_new();
    let mut rwx_entries = small_list_new();
    let (dt_start, dt_end) = device_tree.memory_region();
    let _ = small_list_try_push(&mut rw_entries, AddressRange::new(dt_start..dt_end).round_up_to_page(PAGE_SIZE));
    let (_kernel_r, _kernel_rw, kernel_rwx) = map_kernel_rwx(kernel_start, kernel_end);
    let _ = small_list_try_push(&mut rwx_entries, kernel_rwx[0]);
    let mut j: usize = 0;
    while j < drivers.len()
        invariant
            j <= drivers@.len(),
            address_space_defined(*device_tree, drivers@, kernel_start, kernel_end),
            small_list_items(rw_entries) == range_pairs(
                seq![device_tree_range(*device_tree)] + driver_ranges(drivers@.take(j as int)),
            ),
        decreases drivers@.len() - j,
    {
        proof {
            lemma_driver_ranges_prefix(drivers@, j + 1);
            assert(drivers@.take(j + 1).drop_last() =~= drivers@.take(j as int));
            assert(drivers@.take(j + 1).last() == drivers@[j as int]);
        }
        match drivers[j] {
            Some((base, len)) => {
                assert(drivers@[j as int] is Some);
                let len = align_up(len, PAGE_SIZE);
                assert(driver_ranges(drivers@.take(j + 1)) == driver_ranges(drivers@.take(j as int)).push(
                    range(base, (base + len) as usize),
                ));
                let _ = small_list_try_push(&mut rw_entries, AddressRange::with_size(base, len));
                assert(seq![device_tree_range(*device_tree)] + driver_ranges(drivers@.take(j + 1)) =~= (
                seq![device_tree_range(*device_tree)] + driver_ranges(drivers@.take(j as int))).push(
                    range(base, (base + len) as usize),
                ));
            },
            None => {
                assert(driver_ranges(drivers@.take(j + 1)) == driver_ranges(drivers@.take(j as int)));
            },
        }
        j = j + 1;
    }
    assert(drivers@.take(drivers@.len() as int) =~= drivers@);
    let r = small_list_into_vec(r_entries);
    let rw = small_list_into_vec(rw_entries);
    let rwx = small_list_into_vec(rwx_entries);
    let pre_allocated = large_list_into_vec(pre_allocated_entries);
    proof {
        assert(memory_ranges(memory@).take(memory@.len() as int) =~= memory_ranges(memory@));
        assert(r@ =~= Seq::<AddressRange>::empty());
        assert(rw@ =~= read_write_ranges(*device_tree, drivers@)) by {
            assert(range_pairs(rw@) == range_pairs(read_write_ranges(*device_tree, drivers@)));
            assert forall|k: int| 0 <= k < rw@.len() implies rw@[k] == read_write_ranges(*device_tree, drivers@)[k] by {
                assert(range_pairs(rw@)[k] == range_pairs(read_write_ranges(*device_tree, drivers@))[k]);
            }
        }
        assert(rwx@ =~= seq![kernel_rwx_range(kernel_start, kernel_end)]) by {
            assert(range_pairs(rwx@).len() == 1);
            assert(range_pairs(rwx@)[0] == (kernel_rwx@[0].start, kernel_rwx@[0].end));
            assert(rwx@[0] == kernel_rwx_range(kernel_start, kernel_end));
        }
        assert(pre_allocated@ =~= memory_ranges(memory@)) by {
            assert forall|k: int| 0 <= k < pre_allocated@.len() implies pre_allocated@[k] == memory_ranges(memory@)[k] by {
                assert(range_pairs(pre_allocated@)[k] == range_pairs(memory_ranges(memory@))[k]);
            }
        }
    }
    match hal.init_kpt(tables, &r, &rw, &rwx, &pre_allocated, pmm) {
        Ok(()) => {},
        Err(e) => {
            return Err(Error::Allocator(e));
        },
    }
    let root = hal.kpt().unwrap();
    let ghost mid = pmm.pages();
    let ghost s_mid = tables.slots();
    let used = pmm.used_pages();
    proof {
        if pages_in_ranges(used@, memory_ranges(device_tree.spec_memory())) {
            assert forall|j: int| 0 <= j < used@.len() implies walk_prepared(
                tables.slots(),
                root,
                #[trigger] used@[j] as u64,
            ) by {
                assert(page_of_ranges(used@[j], memory_ranges(device_tree.spec_memory())));
                let (i, k) = choose|i: int, k: int|
                    0 <= i < memory_ranges(device_tree.spec_memory()).len() && 0 <= k < range_page_count(
                        memory_ranges(device_tree.spec_memory())[i],
                    ) && #[trigger] range_pages(
                        memory_ranges(device_tree.spec_memory())[i].start as int,
                        range_page_count(memory_ranges(device_tree.spec_memory())[i]),
                    )[k] == used@[j];
                assert(walk_prepared(
                    tables.slots(),
                    root,
                    range_pages(
                        memory_ranges(device_tree.spec_memory())[i].start as int,
                        range_page_count(memory_ranges(device_tree.spec_memory())[i]),
                    )[k] as u64,
                ));
            }
        }
    }
    let res = tables.identity_map_pages(root, &used, Permissions::read().union(Permissions::write()), pmm);
    match res {
        Ok(()) => {},
        Err(e) => {
            return Err(Error::Allocator(e));
        },
    }
    proof {
        assert(forall|vb: u64| #[trigger]
            translate(tables.slots(), root, vb) == identity_mapped(
                prefilled(
                    Seq::empty(),
                    read_write_ranges(*device_tree, drivers@),
                    seq![kernel_rwx_range(kernel_start, kernel_end)],
                    memory_ranges(device_tree.spec_memory()),
                    vb,
                ),
                used_list(mid, old(pmm).spec_metadata_start()),
                used_list(mid, old(pmm).spec_metadata_start()).len() as int,
                vb,
                read_write(),
            ));
    }
    *state = KernelState::MmuEnabledInit;
    Ok(())
}

impl PhysicalMemoryManager {
    /// Hands out `page_count` contiguous pages as `alloc_pages` does; once the MMU is on, also
    /// identity maps them read-write in the kernel page table whose root is `root`. All the
    /// memory of the manager was given entries in that page table already, so this allocates no
    /// table.
    pub fn allocate_mapped(
        &mut self,
        page_count: usize,
        state: KernelState,
        tables: &mut PageTableMemory,
        root: u64,
    ) -> (r: Result<usize, AllocatorError>)
        requires
            old(self).wf(),
            page_table_ready(old(tables).slots(), root, old(self).pages()),
            state == KernelState::MmuEnabledInit ==> forall|i: int|
                0 <= i < old(self).pages().len() ==> walk_prepared(
                    old(tables).slots(),
                    root,
                    #[trigger] old(self).pages()[i].base as u64,
                ),
        ensures
            final(self).wf(),
            final(self).spec_metadata_start() == old(self).spec_metadata_start(),
            page_table_ready(final(tables).slots(), root, final(self).pages()),
            match r {
                Ok(base) => exists|i: int|
                    #![trigger run_len(old(self).pages(), i)]
                    first_run_end(old(self).pages(), page_count as int, i) && base == old(
                        self,
                    ).pages()[i - page_count + 1].base && final(self).pages() == allocate_run(
                        old(self).pages(),
                        i - page_count + 1,
                        i,
                    ),
                Err(e) => e == AllocatorError::OutOfMemory && final(self).pages() == old(self).pages() && (
                page_count == 0 || forall|i: int|
                    0 <= i < old(self).pages().len() ==> #[trigger] run_len(old(self).pages(), i)
                        != page_count),
            },
            state == KernelState::MmuEnabledInit && r is Ok ==> forall|vb: u64| #[trigger]
                translate(final(tables).slots(), root, vb) == identity_mapped(
                    translate(old(tables).slots(), root, vb),
                    range_pages(r->Ok_0 as int, page_count as int),
                    page_count as int,
                    vb,
                    read_write(),
                ),
            !(state == KernelState::MmuEnabledInit && r is Ok) ==> final(tables).slots() == old(tables).slots(),
    {
        let ghost p0 = self.pages();
        let first_page = match self.alloc_pages(page_count) {
            Ok(first) => first,
            Err(e) => {
                return Err(e);
            },
        };
        let ghost p1 = self.pages();
        proof {
            let i = choose|i: int|
                #![trigger run_len(p0, i)]
                first_run_end(p0, page_count as int, i) && first_page == p0[i - page_count + 1].base && p1
                    == allocate_run(p0, i - page_count + 1, i);
            lemma_run_is_free_and_contiguous(p0, i);
            assert forall|k: int| 0 <= k < tables.slots().len() implies exists|p: int|
                0 <= p < p1.len() && p1[p].kind == PageKind::Allocated && #[trigger] tables.slots()[k].addr
                    == p1[p].base as u64 by {
                let p = choose|p: int|
                    0 <= p < p0.len() && p0[p].kind == PageKind::Allocated && #[trigger] tables.slots()[k].addr
                        == p0[p].base as u64;
                assert(p1[p].kind == PageKind::Allocated);
            }
            assert(page_table_ready(tables.slots(), root, p1));
        }
        if state.is_mmu_enabled() {
            proof {
                let i = choose|i: int|
                    #![trigger run_len(p0, i)]
                    first_run_end(p0, page_count as int, i) && first_page == p0[i - page_count + 1].base && p1
                        == allocate_run(p0, i - page_count + 1, i);
                lemma_run_is_free_and_contiguous(p0, i);
                let f = i - page_count + 1;
                assert(p0[i].base == p0[f].base + (i - f) * PAGE_SIZE);
                assert(first_page + page_count * PAGE_SIZE <= usize::MAX) by (nonlinear_arith)
                    requires
                        p0[i].base == first_page + (i - f) * PAGE_SIZE,
                        i - f == page_count - 1,
                        p0[i].base + PAGE_SIZE <= usize::MAX,
                ;
                assert forall|j: int| 0 <= j < page_count implies walk_prepared(
                    tables.slots(),
                    root,
                    #[trigger] range_pages(first_page as int, page_count as int)[j] as u64,
                ) by {
                    assert(p0[f + j].base == p0[f].base + (f + j - f) * PAGE_SIZE);
                    assert(walk_prepared(tables.slots(), root, p0[f + j].base as u64));
                }
            }
            let _ = tables.identity_map_range(
                root,
                mm::VAddr::new(first_page),
                page_count,
                Permissions::read().union(Permissions::write()),
                self,
            );
        }
        Ok(first_page)
    }
}

} // verus!
