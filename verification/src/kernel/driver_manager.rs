use vstd::prelude::*;

use crate::drivers::{first_console_kind, matching_console_driver, ConsoleKind};
use crate::hal_core::mm::{self, AllocatorError, Permissions};
use crate::kernel::arch::riscv64::page_map::{
    identity_mapped, identity_mapped_prefix, invalidated, last_mapping, page_table_ready, range_pages, read_write,
};
use crate::kernel::arch::riscv64::sv39::{
    pages_only_allocated, translate, walk_prepared, PageTableMemory, TableSlot, PAGE_SIZE,
};
use crate::kernel::error::Error;
use crate::kernel::kernel_console::{ConsoleAlreadySet, KernelConsole};
use crate::kernel::mm::physical_memory_manager::{no_free_page, PhysicalMemoryManager};

verus! {

/// Finds and sets up the drivers of the devices the device tree describes.
pub struct DriverManager;

/// A console the kernel can print to: its kind and the base of its registers.
#[derive(Debug, Copy, Clone, PartialEq, Eq, Structural)]
pub struct ConsoleDevice {
    pub kind: ConsoleKind,
    pub base: usize,
}

impl DriverManager {
    /// The console driver of a node whose `compatible` strings are `compatibles` and whose first
    /// register region starts at `base`: the first of its strings that a known driver supports
    /// picks the driver, which drives the registers at `base`. None when no string is supported,
    /// or when the node has no register region.
    pub fn find_driver(compatibles: &Vec<&str>, base: Option<usize>) -> (r: Option<ConsoleDevice>)
        ensures
            r == match (first_console_kind(compatibles@), base) {
                (Some(kind), Some(b)) => Some(ConsoleDevice { kind, base: b }),
                _ => None,
            },
    {
        let mut i: usize = 0;
        assert(compatibles@.skip(0) =~= compatibles@);
        while i < compatibles.len()
            invariant
                i <= compatibles@.len(),
                first_console_kind(compatibles@) == first_console_kind(compatibles@.skip(i as int)),
            decreases compatibles@.len() - i,
        {
            assert(compatibles@.skip(i as int).drop_first() =~= compatibles@.skip(i + 1));
            assert(compatibles@.skip(i as int)[0] == compatibles@[i as int]);
            if let Some(kind) = matching_console_driver(compatibles[i]) {
                if let Some(base) = base {
                    return Some(ConsoleDevice { kind, base });
                }
                return None;
            }
            i = i + 1;
        }
        assert(compatibles@.skip(i as int).len() == 0);
        None
    }
}

/// The number of pages to map for a memory region of `size` bytes: one at least, else the
/// whole pages it holds. A region without a size is invalid.
pub fn num_pages(size: Option<usize>, page_size: usize) -> (r: Result<usize, Error>)
    requires
        0 < page_size,
    ensures
        match size {
            None => r == Err::<usize, Error>(Error::InvalidFdtNode),
            Some(s) => r == Ok::<usize, Error>(
                if s < page_size {
                    1
                } else {
                    (s / page_size) as usize
                },
            ),
        },
{
    let size = match size {
        Some(s) => s,
        None => {
            return Err(Error::InvalidFdtNode);
        },
    };
    if size < page_size {
        Ok(1)
    } else {
        Ok(size / page_size)
    }
}

/// The number of pages `num_pages` gives for a size.
pub open spec fn spec_num_pages(size: usize) -> int {
    if size < PAGE_SIZE {
        1
    } else {
        (size / PAGE_SIZE) as int
    }
}

/// The index of the first region from `k` on without a size, or the number of regions.
pub open spec fn first_unsized_from(regions: Seq<(usize, Option<usize>)>, k: int) -> int
    decreases regions.len() - k,
{
    if k < 0 || k >= regions.len() {
        regions.len() as int
    } else if regions[k].1 is None {
        k
    } else {
        first_unsized_from(regions, k + 1)
    }
}

/// The translation of `vb` once the pages of each of the first `n` regions `(start, size)` of a
/// node were identity mapped read-write, over tables that translated it to `before`.
pub open spec fn dt_regions_mapped(
    before: Option<(u64, u64)>,
    regions: Seq<(usize, Option<usize>)>,
    n: int,
    vb: u64,
) -> Option<(u64, u64)>
    decreases n,
{
    if n <= 0 {
        before
    } else {
        let region = regions[n - 1];
        let count = spec_num_pages(region.1->0);
        identity_mapped(
            dt_regions_mapped(before, regions, n - 1, vb),
            range_pages(region.0 as int, count),
            count,
            vb,
            read_write(),
        )
    }
}

/// The tables `after` translate every address as `before` did once the pages of the first `n`
/// regions of a node, and then the first `m` pages of region `n`, were identity mapped
/// read-write.
pub open spec fn dt_regions_mapped_prefix(
    after: Seq<TableSlot>,
    before: Seq<TableSlot>,
    root: u64,
    regions: Seq<(usize, Option<usize>)>,
    n: int,
    m: int,
) -> bool {
    forall|vb: u64| #[trigger]
        translate(after, root, vb) == identity_mapped(
            dt_regions_mapped(translate(before, root, vb), regions, n, vb),
            range_pages(regions[n].0 as int, spec_num_pages(regions[n].1->0)),
            m,
            vb,
            read_write(),
        )
}

/// The translation of `vb` once the pages of each of the first `n` regions `(start, size)` of a
/// node got invalid entries, over tables that translated it to `before`.
pub open spec fn dt_regions_unmapped(
    before: Option<(u64, u64)>,
    regions: Seq<(usize, Option<usize>)>,
    n: int,
    vb: u64,
) -> Option<(u64, u64)>
    decreases n,
{
    if n <= 0 {
        before
    } else {
        let region = regions[n - 1];
        let count = (region.1->0 / PAGE_SIZE) as int;
        invalidated(dt_regions_unmapped(before, regions, n - 1, vb), range_pages(region.0 as int, count), count, vb)
    }
}

/// The pages of the region `(start, size)` can be given invalid entries without allocating: the
/// size is a whole number of pages, the region fits below the top of the address space, and the
/// walk from `root` for each of its pages reaches a table at level 0.
pub open spec fn dt_region_unmappable(slots: Seq<TableSlot>, root: u64, region: (usize, Option<usize>)) -> bool {
    let start = region.0;
    let size = region.1->0;
    &&& size % PAGE_SIZE == 0
    &&& start + size <= usize::MAX
    &&& forall|j: int|
        0 <= j < size / PAGE_SIZE ==> walk_prepared(
            slots,
            root,
            #[trigger] range_pages(start as int, (size / PAGE_SIZE) as int)[j] as u64,
        )
}

/// The first index is where the scan stops: all regions before it have a size.
proof fn lemma_first_unsized_from(regions: Seq<(usize, Option<usize>)>, k: int)
    requires
        0 <= k <= regions.len(),
    ensures
        k <= first_unsized_from(regions, k) <= regions.len(),
        forall|j: int| k <= j < first_unsized_from(regions, k) ==> #[trigger] regions[j].1 is Some,
        first_unsized_from(regions, k) < regions.len() ==> regions[first_unsized_from(regions, k)].1 is None,
    decreases regions.len() - k,
{
    if k < regions.len() && regions[k].1 is Some {
        lemma_first_unsized_from(regions, k + 1);
    }
}

/// Identity maps read-write the pages of each memory region `(start, size)` of a device tree
/// node, in the kernel page table whose root is `root`, allocating its tables from `pmm`. Fails
/// at the first region without a size, or when `pmm` runs out of pages.
pub fn map_dt_regions(
    reg: &Option<Vec<(usize, Option<usize>)>>,
    tables: &mut PageTableMemory,
    root: u64,
    pmm: &mut PhysicalMemoryManager,
) -> (r: Result<(), Error>)
    requires
        page_table_ready(old(tables).slots(), root, old(pmm).pages()),
        old(pmm).wf(),
        reg matches Some(regions) ==> forall|i: int|
            0 <= i < first_unsized_from(regions@, 0) ==> #[trigger] regions@[i].0 + (spec_num_pages(
                regions@[i].1->0,
            ) - 1) * PAGE_SIZE <= usize::MAX,
    ensures
        page_table_ready(final(tables).slots(), root, final(pmm).pages()),
        final(pmm).wf(),
        pages_only_allocated(old(pmm).pages(), final(pmm).pages()),
        final(pmm).spec_metadata_start() == old(pmm).spec_metadata_start(),
        forall|vb: u64|
            walk_prepared(old(tables).slots(), root, vb) ==> #[trigger] walk_prepared(
                final(tables).slots(),
                root,
                vb,
            ),
        match reg {
            None => r is Ok && final(tables).slots() == old(tables).slots() && *final(pmm) == *old(pmm),
            Some(regions) => {
                &&& r is Ok ==> first_unsized_from(regions@, 0) == regions@.len() && forall|vb: u64| #[trigger]
                    translate(final(tables).slots(), root, vb) == dt_regions_mapped(
                        translate(old(tables).slots(), root, vb),
                        regions@,
                        regions@.len() as int,
                        vb,
                    )
                &&& r is Ok ==> forall|i: int, j: int|
                    0 <= i < regions@.len() && 0 <= j < spec_num_pages(regions@[i].1->0) ==> #[trigger] walk_prepared(
                        final(tables).slots(),
                        root,
                        range_pages(regions@[i].0 as int, spec_num_pages(regions@[i].1->0))[j] as u64,
                    )
                &&& first_unsized_from(regions@, 0) < regions@.len() ==> r is Err
                &&& r is Err ==> r == Err::<(), Error>(Error::InvalidFdtNode) || r == Err::<(), Error>(
                    Error::Allocator(AllocatorError::OutOfMemory),
                )
                &&& r == Err::<(), Error>(Error::InvalidFdtNode) ==> first_unsized_from(regions@, 0) < regions@.len()
                    && forall|vb: u64| #[trigger]
                    translate(final(tables).slots(), root, vb) == dt_regions_mapped(
                        translate(old(tables).slots(), root, vb),
                        regions@,
                        first_unsized_from(regions@, 0),
                        vb,
                    )
                &&& r == Err::<(), Error>(Error::Allocator(AllocatorError::OutOfMemory)) ==> no_free_page(
                    final(pmm).pages(),
                ) && exists|n: int, m: int|
                    0 <= n < first_unsized_from(regions@, 0) && 0 <= m < spec_num_pages(regions@[n].1->0)
                        && #[trigger] dt_regions_mapped_prefix(
                        final(tables).slots(),
                        old(tables).slots(),
                        root,
                        regions@,
                        n,
                        m,
                    )
            },
        },
{
    let regions = match reg {
        Some(regions) => regions,
        None => {
            return Ok(());
        },
    };
    let ghost s0 = tables.slots();
    let ghost p0 = pmm.pages();
    proof {
        lemma_first_unsized_from(regions@, 0);
    }
    let mut i: usize = 0;
    while i < regions.len()
        invariant
            i <= regions@.len(),
            s0 == old(tables).slots(),
            p0 == old(pmm).pages(),
            i <= first_unsized_from(regions@, 0),
            reg == Some(*regions),
            forall|j: int| 0 <= j < first_unsized_from(regions@, 0) ==> #[trigger] regions@[j].1 is Some,
            first_unsized_from(regions@, 0) < regions@.len() ==> regions@[first_unsized_from(regions@, 0)].1 is None,
            forall|j: int|
                0 <= j < first_unsized_from(regions@, 0) ==> #[trigger] regions@[j].0 + (spec_num_pages(
                    regions@[j].1->0,
                ) - 1) * PAGE_SIZE <= usize::MAX,
            page_table_ready(tables.slots(), root, pmm.pages()),
            pmm.wf(),
            pages_only_allocated(p0, pmm.pages()),
            pmm.spec_metadata_start() == old(pmm).spec_metadata_start(),
            forall|vb: u64| walk_prepared(s0, root, vb) ==> #[trigger] walk_prepared(tables.slots(), root, vb),
            forall|vb: u64| #[trigger]
                translate(tables.slots(), root, vb) == dt_regions_mapped(translate(s0, root, vb), regions@, i as int, vb),
            forall|k: int, j: int|
                0 <= k < i && 0 <= j < spec_num_pages(regions@[k].1->0) ==> #[trigger] walk_prepared(
                    tables.slots(),
                    root,
                    range_pages(regions@[k].0 as int, spec_num_pages(regions@[k].1->0))[j] as u64,
                ),
        decreases regions@.len() - i,
    {
        let (start, size) = regions[i];
        let num_pages = match num_pages(size, PAGE_SIZE) {
            Ok(n) => n,
            Err(e) => {
                assert(i == first_unsized_from(regions@, 0));
                return Err(e);
            },
        };
        let ghost s1 = tables.slots();
        let ghost p1 = pmm.pages();
        let res = tables.identity_map_range(
            root,
            mm::VAddr::new(start),
            num_pages,
            Permissions::read().union(Permissions::write()),
            pmm,
        );
        proof {
            crate::kernel::arch::riscv64::page_map::lemma_pages_only_allocated_trans(p0, p1, pmm.pages());
        }
        match res {
            Ok(()) => {},
            Err(e) => {
                proof {
                    let m = choose|m: int|
                        0 <= m < num_pages && #[trigger] identity_mapped_prefix(
                            tables.slots(),
                            s1,
                            root,
                            range_pages(start as int, num_pages as int),
                            m,
                            read_write(),
                        );
                    assert(dt_regions_mapped_prefix(tables.slots(), s0, root, regions@, i as int, m));
                }
                return Err(Error::Allocator(e));
            },
        }
        proof {
            assert forall|vb: u64| #[trigger]
                translate(tables.slots(), root, vb) == dt_regions_mapped(translate(s0, root, vb), regions@, i + 1, vb) by {
                assert(translate(s1, root, vb) == dt_regions_mapped(translate(s0, root, vb), regions@, i as int, vb));
            }
        }
        i = i + 1;
    }
    Ok(())
}

/// Gives invalid entries to the pages of each memory region `(start, size)` of a device tree
/// node, in the kernel page table whose root is `root`; the walks for them must reach tables at
/// level 0 already, so that nothing is allocated. Fails at the first region without a size.
pub fn unmap_dt_regions(
    reg: &Option<Vec<(usize, Option<usize>)>>,
    tables: &mut PageTableMemory,
    root: u64,
    pmm: &mut PhysicalMemoryManager,
) -> (r: Result<(), Error>)
    requires
        page_table_ready(old(tables).slots(), root, old(pmm).pages()),
        old(pmm).wf(),
        reg matches Some(regions) ==> forall|i: int|
            0 <= i < first_unsized_from(regions@, 0) ==> dt_region_unmappable(
                old(tables).slots(),
                root,
                #[trigger] regions@[i],
            ),
    ensures
        page_table_ready(final(tables).slots(), root, final(pmm).pages()),
        *final(pmm) == *old(pmm),
        forall|vb: u64|
            walk_prepared(old(tables).slots(), root, vb) ==> #[trigger] walk_prepared(
                final(tables).slots(),
                root,
                vb,
            ),
        match reg {
            None => r is Ok && final(tables).slots() == old(tables).slots(),
            Some(regions) => {
                &&& r == if first_unsized_from(regions@, 0) < regions@.len() {
                    Err::<(), Error>(Error::InvalidFdtNode)
                } else {
                    Ok::<(), Error>(())
                }
                &&& forall|vb: u64| #[trigger]
                    translate(final(tables).slots(), root, vb) == dt_regions_unmapped(
                        translate(old(tables).slots(), root, vb),
                        regions@,
                        first_unsized_from(regions@, 0),
                        vb,
                    )
            },
        },
{
    let regions = match reg {
        Some(regions) => regions,
        None => {
            return Ok(());
        },
    };
    let ghost s0 = tables.slots();
    proof {
        lemma_first_unsized_from(regions@, 0);
    }
    let mut i: usize = 0;
    while i < regions.len()
        invariant
            i <= regions@.len(),
            s0 == old(tables).slots(),
            *pmm == *old(pmm),
            i <= first_unsized_from(regions@, 0),
            reg == Some(*regions),
            forall|j: int| 0 <= j < first_unsized_from(regions@, 0) ==> #[trigger] regions@[j].1 is Some,
            first_unsized_from(regions@, 0) < regions@.len() ==> regions@[first_unsized_from(regions@, 0)].1 is None,
            forall|k: int|
                0 <= k < first_unsized_from(regions@, 0) ==> dt_region_unmappable(s0, root, #[trigger] regions@[k]),
            page_table_ready(tables.slots(), root, pmm.pages()),
            pmm.wf(),
            forall|vb: u64| walk_prepared(s0, root, vb) ==> #[trigger] walk_prepared(tables.slots(), root, vb),
            forall|vb: u64| #[trigger]
                translate(tables.slots(), root, vb) == dt_regions_unmapped(translate(s0, root, vb), regions@, i as int, vb),
        decreases regions@.len() - i,
    {
        let (start, size) = regions[i];
        let size = match size {
            Some(s) => s,
            None => {
                return Err(Error::InvalidFdtNode);
            },
        };
        let count = size / PAGE_SIZE;
        let mut pages: Vec<usize> = Vec::new();
        let mut k: usize = 0;
        while k < count
            invariant
                k <= count,
                count == size / PAGE_SIZE,
                start + size <= usize::MAX,
                pages@.len() == k,
                forall|j: int| 0 <= j < k ==> #[trigger] pages@[j] == start + j * PAGE_SIZE,
            decreases count - k,
        {
            proof {
                assert(k * PAGE_SIZE < size) by (nonlinear_arith)
                    requires
                        k < count,
                        count == size / PAGE_SIZE,
                ;
            }
            pages.push(start + k * PAGE_SIZE);
            k = k + 1;
        }
        assert(pages@ =~= range_pages(start as int, count as int));
        let ghost s1 = tables.slots();
        proof {
            assert(dt_region_unmappable(s0, root, regions@[i as int]));
            assert forall|j: int| 0 <= j < pages@.len() implies walk_prepared(s1, root, #[trigger] pages@[j] as u64) by {
                assert(pages@[j] == range_pages(start as int, (size / PAGE_SIZE) as int)[j]);
                assert(walk_prepared(s0, root, range_pages(start as int, (size / PAGE_SIZE) as int)[j] as u64));
            }
        }
        let _ = tables.invalidate_pages(root, &pages, pmm);
        proof {
            assert forall|vb: u64| #[trigger]
                translate(tables.slots(), root, vb) == dt_regions_unmapped(translate(s0, root, vb), regions@, i + 1, vb) by {
                assert(translate(s1, root, vb) == dt_regions_unmapped(translate(s0, root, vb), regions@, i as int, vb));
            }
        }
        i = i + 1;
    }
    Ok(())
}

/// Some page of one of the first `n` regions `(start, size)` lies in the page of `vb`.
pub open spec fn dt_regions_cover(regions: Seq<(usize, Option<usize>)>, n: int, vb: u64) -> bool
    decreases n,
{
    if n <= 0 {
        false
    } else {
        let region = regions[n - 1];
        let count = (region.1->0 / PAGE_SIZE) as int;
        last_mapping(range_pages(region.0 as int, count), count, vb) >= 0 || dt_regions_cover(regions, n - 1, vb)
    }
}

/// Every region has a size that is a nonzero whole number of pages and ends below the top of
/// the address space.
pub open spec fn whole_page_regions(regions: Seq<(usize, Option<usize>)>) -> bool {
    forall|i: int|
        0 <= i < regions.len() ==> {
            let region = #[trigger] regions[i];
            &&& region.1 is Some
            &&& PAGE_SIZE <= region.1->0
            &&& region.1->0 % PAGE_SIZE == 0
            &&& region.0 + region.1->0 <= usize::MAX
        }
}

/// Invalid entries for the pages of the first `n` regions leave an address as it was unless one
/// of those pages covers it.
proof fn lemma_dt_regions_unmapped_cover(
    before: Option<(u64, u64)>,
    regions: Seq<(usize, Option<usize>)>,
    n: int,
    vb: u64,
)
    ensures
        dt_regions_unmapped(before, regions, n, vb) == if dt_regions_cover(regions, n, vb) {
            None
        } else {
            before
        },
    decreases n,
{
    if n > 0 {
        lemma_dt_regions_unmapped_cover(before, regions, n - 1, vb);
    }
}

/// Mapping the pages of the first `n` regions leaves an address that none of them covers as it
/// was.
proof fn lemma_dt_regions_mapped_uncovered(
    before: Option<(u64, u64)>,
    regions: Seq<(usize, Option<usize>)>,
    n: int,
    vb: u64,
)
    requires
        n <= regions.len(),
        whole_page_regions(regions),
        !dt_regions_cover(regions, n, vb),
    ensures
        dt_regions_mapped(before, regions, n, vb) == before,
    decreases n,
{
    if n > 0 {
        let region = regions[n - 1];
        assert(spec_num_pages(region.1->0) == (region.1->0 / PAGE_SIZE) as int);
        lemma_dt_regions_mapped_uncovered(before, regions, n - 1, vb);
    }
}

/// The round trip of the regions of a device tree node: identity mapping their pages and then
/// giving those pages invalid entries makes every page of the regions not mapped, and leaves
/// every other address translated as before. Mapping them also prepares the walk of each of their
/// pages, so the unmapping may go on without allocating.
pub proof fn lemma_dt_regions_map_then_unmap(
    before: Option<(u64, u64)>,
    slots: Seq<TableSlot>,
    root: u64,
    regions: Seq<(usize, Option<usize>)>,
    vb: u64,
)
    requires
        whole_page_regions(regions),
    ensures
        dt_regions_unmapped(dt_regions_mapped(before, regions, regions.len() as int, vb), regions, regions.len() as int, vb)
            == if dt_regions_cover(regions, regions.len() as int, vb) {
            None
        } else {
            before
        },
        first_unsized_from(regions, 0) == regions.len(),
        (forall|i: int, j: int|
            0 <= i < regions.len() && 0 <= j < spec_num_pages(regions[i].1->0) ==> #[trigger] walk_prepared(
                slots,
                root,
                range_pages(regions[i].0 as int, spec_num_pages(regions[i].1->0))[j] as u64,
            )) ==> forall|i: int| 0 <= i < regions.len() ==> dt_region_unmappable(slots, root, #[trigger] regions[i]),
{
    let n = regions.len() as int;
    let mapped = dt_regions_mapped(before, regions, n, vb);
    lemma_dt_regions_unmapped_cover(mapped, regions, n, vb);
    if !dt_regions_cover(regions, n, vb) {
        lemma_dt_regions_mapped_uncovered(before, regions, n, vb);
    }
    lemma_first_unsized_from(regions, 0);
    if first_unsized_from(regions, 0) < n {
        assert(regions[first_unsized_from(regions, 0)].1 is Some);
    }
    if forall|i: int, j: int|
        0 <= i < regions.len() && 0 <= j < spec_num_pages(regions[i].1->0) ==> #[trigger] walk_prepared(
            slots,
            root,
            range_pages(regions[i].0 as int, spec_num_pages(regions[i].1->0))[j] as u64,
        ) {
        assert forall|i: int| 0 <= i < regions.len() implies dt_region_unmappable(slots, root, #[trigger] regions[i]) by {
            let size = regions[i].1->0;
            assert(spec_num_pages(size) == (size / PAGE_SIZE) as int);
            assert forall|j: int| 0 <= j < size / PAGE_SIZE implies walk_prepared(
                slots,
                root,
                #[trigger] range_pages(regions[i].0 as int, (size / PAGE_SIZE) as int)[j] as u64,
            ) by {
                assert(range_pages(regions[i].0 as int, (size / PAGE_SIZE) as int)[j] == range_pages(
                    regions[i].0 as int,
                    spec_num_pages(size),
                )[j]);
            }
        }
    }
}

/// Why setting up the console failed: an error of the kernel, or a console was set already.
#[derive(Debug, Copy, Clone, PartialEq, Eq, Structural)]
pub enum ConsoleSetupError {
    Kernel(Error),
    AlreadySet(ConsoleAlreadySet),
}

/// The memory regions of a node: none when it has no `reg` property.
pub open spec fn node_regions(reg: Option<Vec<(usize, Option<usize>)>>) -> Seq<(usize, Option<usize>)> {
    match reg {
        Some(regions) => regions@,
        None => Seq::empty(),
    }
}

/// The regions, all with a size, can be given invalid entries once their pages were mapped:
/// each size is a whole number of pages and each region ends below the top of the address
/// space.
proof fn lemma_mapped_regions_unmappable(slots: Seq<TableSlot>, root: u64, regions: Seq<(usize, Option<usize>)>)
    requires
        forall|i: int|
            0 <= i < regions.len() ==> (#[trigger] regions[i]).1 is Some && regions[i].1->0 % PAGE_SIZE == 0
                && regions[i].0 + regions[i].1->0 <= usize::MAX,
        forall|i: int, j: int|
            0 <= i < regions.len() && 0 <= j < spec_num_pages(regions[i].1->0) ==> #[trigger] walk_prepared(
                slots,
                root,
                range_pages(regions[i].0 as int, spec_num_pages(regions[i].1->0))[j] as u64,
            ),
    ensures
        forall|i: int| 0 <= i < regions.len() ==> dt_region_unmappable(slots, root, #[trigger] regions[i]),
{
    assert forall|i: int| 0 <= i < regions.len() implies dt_region_unmappable(slots, root, #[trigger] regions[i]) by {
        let size = regions[i].1->0;
        assert forall|j: int| 0 <= j < size / PAGE_SIZE implies walk_prepared(
            slots,
            root,
            #[trigger] range_pages(regions[i].0 as int, (size / PAGE_SIZE) as int)[j] as u64,
        ) by {
            assert(spec_num_pages(size) == (size / PAGE_SIZE) as int);
            assert(range_pages(regions[i].0 as int, (size / PAGE_SIZE) as int)[j] == range_pages(
                regions[i].0 as int,
                spec_num_pages(size),
            )[j]);
        }
    }
}

impl DriverManager {
    /// Sets up the console of the node whose memory regions are `reg` and whose driver, as
    /// `find_driver` gives it, is `driver`: maps the regions read-write in the kernel page table
    /// whose root is `root`, then sets the driver as the kernel console; when there is no
    /// driver, gives the regions invalid entries again and fails with `NoMatchingDriver`.
    pub fn do_console(
        reg: &Option<Vec<(usize, Option<usize>)>>,
        driver: Option<ConsoleDevice>,
        tables: &mut PageTableMemory,
        root: u64,
        pmm: &mut PhysicalMemoryManager,
        console: &mut KernelConsole<Option<ConsoleDevice>>,
    ) -> (r: Result<(), ConsoleSetupError>)
        requires
            page_table_ready(old(tables).slots(), root, old(pmm).pages()),
            old(pmm).wf(),
            reg matches Some(regions) ==> forall|i: int|
                0 <= i < first_unsized_from(regions@, 0) ==> #[trigger] regions@[i].0 + (spec_num_pages(
                    regions@[i].1->0,
                ) - 1) * PAGE_SIZE <= usize::MAX,
            driver is None ==> (reg matches Some(regions) ==> forall|i: int|
                0 <= i < first_unsized_from(regions@, 0) ==> #[trigger] regions@[i].1->0 % PAGE_SIZE == 0
                    && regions@[i].0 + regions@[i].1->0 <= usize::MAX),
        ensures
            page_table_ready(final(tables).slots(), root, final(pmm).pages()),
            final(pmm).wf(),
            pages_only_allocated(old(pmm).pages(), final(pmm).pages()),
            final(console).spec_earlyinit() == old(console).spec_earlyinit(),
            r is Ok || r == Err::<(), ConsoleSetupError>(ConsoleSetupError::AlreadySet(ConsoleAlreadySet))
                || r == Err::<(), ConsoleSetupError>(ConsoleSetupError::Kernel(Error::NoMatchingDriver))
                || r == Err::<(), ConsoleSetupError>(ConsoleSetupError::Kernel(Error::InvalidFdtNode))
                || r == Err::<(), ConsoleSetupError>(
                ConsoleSetupError::Kernel(Error::Allocator(AllocatorError::OutOfMemory)),
            ),
            (reg matches Some(regions) && first_unsized_from(regions@, 0) < regions@.len()) ==> r == Err::<
                (),
                ConsoleSetupError,
            >(ConsoleSetupError::Kernel(Error::InvalidFdtNode)) || r == Err::<(), ConsoleSetupError>(
                ConsoleSetupError::Kernel(Error::Allocator(AllocatorError::OutOfMemory)),
            ),
            r == Err::<(), ConsoleSetupError>(ConsoleSetupError::Kernel(Error::InvalidFdtNode)) ==> (reg matches Some(
                regions,
            ) && first_unsized_from(regions@, 0) < regions@.len()),
            r == Err::<(), ConsoleSetupError>(ConsoleSetupError::Kernel(Error::Allocator(AllocatorError::OutOfMemory)))
                ==> no_free_page(final(pmm).pages()),
            r == Err::<(), ConsoleSetupError>(ConsoleSetupError::Kernel(Error::InvalidFdtNode)) || r == Err::<
                (),
                ConsoleSetupError,
            >(ConsoleSetupError::Kernel(Error::Allocator(AllocatorError::OutOfMemory)))
                ==> final(console).spec_console() == old(console).spec_console(),
            r is Ok || r == Err::<(), ConsoleSetupError>(ConsoleSetupError::AlreadySet(ConsoleAlreadySet)) ==> {
                &&& driver is Some
                &&& (r is Ok <==> old(console).spec_console() is None)
                &&& final(console).spec_console() == if old(console).spec_console() is None {
                    Some(driver)
                } else {
                    old(console).spec_console()
                }
                &&& forall|vb: u64| #[trigger]
                    translate(final(tables).slots(), root, vb) == dt_regions_mapped(
                        translate(old(tables).slots(), root, vb),
                        node_regions(*reg),
                        node_regions(*reg).len() as int,
                        vb,
                    )
            },
            r == Err::<(), ConsoleSetupError>(ConsoleSetupError::Kernel(Error::NoMatchingDriver)) ==> {
                &&& driver is None
                &&& final(console).spec_console() == old(console).spec_console()
                &&& forall|vb: u64| #[trigger]
                    translate(final(tables).slots(), root, vb) == dt_regions_unmapped(
                        dt_regions_mapped(
                            translate(old(tables).slots(), root, vb),
                            node_regions(*reg),
                            node_regions(*reg).len() as int,
                            vb,
                        ),
                        node_regions(*reg),
                        node_regions(*reg).len() as int,
                        vb,
                    )
            },
    {
        let ghost s0 = tables.slots();
        match map_dt_regions(reg, tables, root, pmm) {
            Ok(()) => {},
            Err(e) => {
                return Err(ConsoleSetupError::Kernel(e));
            },
        }
        let ghost s1 = tables.slots();
        match driver {
            Some(cons_driver) => {
                match console.set_console(Some(cons_driver)) {
                    Ok(()) => Ok(()),
                    Err(e) => Err(ConsoleSetupError::AlreadySet(e)),
                }
            },
            None => {
                proof {
                    if let Some(regions) = reg {
                        lemma_first_unsized_from(regions@, 0);
                        lemma_mapped_regions_unmappable(tables.slots(), root, regions@);
                    }
                }
                match unmap_dt_regions(reg, tables, root, pmm) {
                    Ok(()) => {},
                    Err(e) => {
                        return Err(ConsoleSetupError::Kernel(e));
                    },
                }
                proof {
                    assert forall|vb: u64| #[trigger]
                        translate(tables.slots(), root, vb) == dt_regions_unmapped(
                            dt_regions_mapped(translate(s0, root, vb), node_regions(*reg), node_regions(*reg).len() as int, vb),
                            node_regions(*reg),
                            node_regions(*reg).len() as int,
                            vb,
                        ) by {
                        assert(translate(s1, root, vb) == dt_regions_mapped(
                            translate(s0, root, vb),
                            node_regions(*reg),
                            node_regions(*reg).len() as int,
                            vb,
                        ));
                    }
                }
                Err(ConsoleSetupError::Kernel(Error::NoMatchingDriver))
            },
        }
    }
}

} // verus!
