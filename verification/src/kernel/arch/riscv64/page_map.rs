use vstd::prelude::*;

use crate::hal_core::mm::{self, spec_align_up, AllocatorError, Permissions, EXECUTE_BIT, READ_BIT, WRITE_BIT};
use crate::hal_core::AddressRange;
use crate::kernel::arch::riscv64::sv39::{
    lemma_translate_by_vpn, walk_prepared, pages_addressable, pages_only_allocated, same_page_index, table_at,
    tables_backed, tables_wf, translate, PageTableMemory, TableSlot, ENTRY_ADDR_MASK, PAGE_SIZE,
};
use crate::kernel::mm::physical_memory_manager::{no_free_page, PageKind, PhysicalMemoryManager, PhysicalPage};

verus! {

/// The tables are well formed, `root` is the root of a page table among them, and they live in
/// pages that the manager handed out.
pub open spec fn page_table_ready(slots: Seq<TableSlot>, root: u64, pages: Seq<PhysicalPage>) -> bool {
    &&& tables_wf(slots)
    &&& table_at(slots, root) is Some
    &&& table_at(slots, root)->0.level == 2
    &&& pages_addressable(pages)
    &&& tables_backed(slots, pages)
}

/// The index of the last of the first `n` pages that lies in the page of `vb`, or -1 if none
/// does.
pub open spec fn last_mapping(pages: Seq<usize>, n: int, vb: u64) -> int
    decreases n,
{
    if n <= 0 {
        -1
    } else if same_page_index(pages[n - 1] as u64, vb) {
        n - 1
    } else {
        last_mapping(pages, n - 1, vb)
    }
}

/// The translation of `vb` once the first `n` pages were mapped each to itself with `perms`,
/// over tables that translated it to `before`: the last of them that covers `vb` wins.
pub open spec fn identity_mapped(
    before: Option<(u64, u64)>,
    pages: Seq<usize>,
    n: int,
    vb: u64,
    perms: Permissions,
) -> Option<(u64, u64)> {
    let j = last_mapping(pages, n, vb);
    if j >= 0 {
        Some(((pages[j] as u64) & ENTRY_ADDR_MASK, (perms.bits & 0xf) as u64))
    } else {
        before
    }
}

/// The translation of `vb` once the first `n` pages were given an invalid entry, over tables
/// that translated it to `before`.
pub open spec fn invalidated(before: Option<(u64, u64)>, pages: Seq<usize>, n: int, vb: u64) -> Option<
    (u64, u64),
> {
    if last_mapping(pages, n, vb) >= 0 {
        None
    } else {
        before
    }
}

/// The tables `after` translate every address as `before` did once the first `m` of `pages`
/// were mapped each to itself with `perms`.
pub open spec fn identity_mapped_prefix(
    after: Seq<TableSlot>,
    before: Seq<TableSlot>,
    root: u64,
    pages: Seq<usize>,
    m: int,
    perms: Permissions,
) -> bool {
    forall|vb: u64| #[trigger]
        translate(after, root, vb) == identity_mapped(translate(before, root, vb), pages, m, vb, perms)
}

/// The tables `after` translate every address as `before` did once the first `m` of `pages`
/// were given invalid entries.
pub open spec fn invalidated_prefix(after: Seq<TableSlot>, before: Seq<TableSlot>, root: u64, pages: Seq<usize>, m: int) -> bool {
    forall|vb: u64| #[trigger] translate(after, root, vb) == invalidated(translate(before, root, vb), pages, m, vb)
}

/// Later states of the manager only turn more free pages into allocated ones.
pub proof fn lemma_pages_only_allocated_trans(a: Seq<PhysicalPage>, b: Seq<PhysicalPage>, c: Seq<PhysicalPage>)
    requires
        pages_only_allocated(a, b),
        pages_only_allocated(b, c),
    ensures
        pages_only_allocated(a, c),
{
    assert forall|i: int| 0 <= i < a.len() implies (#[trigger] c[i]).base == a[i].base && (a[i].kind
        == PageKind::Allocated ==> c[i].kind
        == PageKind::Allocated) && (c[i].kind != a[i].kind
        ==> c[i].kind == PageKind::Allocated) by {
        assert(b[i].base == a[i].base);
    }
}

impl PageTableMemory {
    /// Maps the page of `addr` to the physical page at the same address, with the rights
    /// `perms`, allocating the tables it needs from `pmm`.
    pub fn identity_map(&mut self, root: u64, addr: mm::VAddr, perms: Permissions, pmm: &mut PhysicalMemoryManager) -> (r: Result<(), AllocatorError>)
        requires
            page_table_ready(old(self).slots(), root, old(pmm).pages()),
            old(pmm).wf(),
        ensures
            page_table_ready(final(self).slots(), root, final(pmm).pages()),
            final(pmm).wf(),
            pages_only_allocated(old(pmm).pages(), final(pmm).pages()),
            final(pmm).spec_metadata_start() == old(pmm).spec_metadata_start(),
            forall|vb: u64| #[trigger]
                translate(final(self).slots(), root, vb) == if r is Ok {
                    identity_mapped(translate(old(self).slots(), root, vb), seq![addr.val], 1, vb, perms)
                } else {
                    translate(old(self).slots(), root, vb)
                },
            r is Err ==> r == Err::<(), AllocatorError>(AllocatorError::OutOfMemory),
            r is Err ==> no_free_page(final(pmm).pages()),
            walk_prepared(old(self).slots(), root, addr.val as u64) ==> r is Ok && *final(pmm) == *old(pmm),
            r is Ok ==> walk_prepared(final(self).slots(), root, addr.val as u64),
            forall|vb: u64|
                walk_prepared(old(self).slots(), root, vb) ==> #[trigger] walk_prepared(
                    final(self).slots(),
                    root,
                    vb,
                ),
    {
        let r = self.map(root, mm::PAddr::new(addr.val), addr, perms, pmm);
        proof {
            assert forall|vb: u64| #[trigger]
                translate(self.slots(), root, vb) == if r is Ok {
                    identity_mapped(translate(old(self).slots(), root, vb), seq![addr.val], 1, vb, perms)
                } else {
                    translate(old(self).slots(), root, vb)
                } by {
                assert(seq![addr.val][0] == addr.val);
                assert(last_mapping(seq![addr.val], 0, vb) == -1);
                if r is Ok && same_page_index(addr.val as u64, vb) {
                    lemma_translate_by_vpn(self.slots(), root, addr.val as u64, vb);
                    assert(seq![addr.val][0] == addr.val);
                    assert(last_mapping(seq![addr.val], 1, vb) == 0);
                }
            }
        }
        r
    }

    /// Maps each of `pages` to the physical page at the same address with the rights `perms`,
    /// in order, allocating the tables it needs from `pmm`; stops at the first failure.
    pub(crate) fn identity_map_pages(
        &mut self,
        root: u64,
        pages: &Vec<usize>,
        perms: Permissions,
        pmm: &mut PhysicalMemoryManager,
    ) -> (r: Result<(), AllocatorError>)
        requires
            page_table_ready(old(self).slots(), root, old(pmm).pages()),
            old(pmm).wf(),
        ensures
            page_table_ready(final(self).slots(), root, final(pmm).pages()),
            final(pmm).wf(),
            pages_only_allocated(old(pmm).pages(), final(pmm).pages()),
            final(pmm).spec_metadata_start() == old(pmm).spec_metadata_start(),
            r is Ok ==> forall|vb: u64| #[trigger]
                translate(final(self).slots(), root, vb) == identity_mapped(
                    translate(old(self).slots(), root, vb),
                    pages@,
                    pages@.len() as int,
                    vb,
                    perms,
                ),
            r is Err ==> r == Err::<(), AllocatorError>(AllocatorError::OutOfMemory),
            r is Err ==> no_free_page(final(pmm).pages()),
            r is Err ==> exists|m: int|
                0 <= m < pages@.len() && #[trigger] identity_mapped_prefix(
                    final(self).slots(),
                    old(self).slots(),
                    root,
                    pages@,
                    m,
                    perms,
                ),
            (forall|i: int| 0 <= i < pages@.len() ==> walk_prepared(old(self).slots(), root, #[trigger] pages@[i] as u64))
                ==> r is Ok && *final(pmm) == *old(pmm),
            r is Ok ==> forall|j: int|
                0 <= j < pages@.len() ==> walk_prepared(final(self).slots(), root, #[trigger] pages@[j] as u64),
            forall|vb: u64|
                walk_prepared(old(self).slots(), root, vb) ==> #[trigger] walk_prepared(
                    final(self).slots(),
                    root,
                    vb,
                ),
    {
        let ghost s0 = self.slots();
        let ghost p0 = pmm.pages();
        let mut i: usize = 0;
        while i < pages.len()
            invariant
                i <= pages@.len(),
                forall|j: int| 0 <= j < i ==> walk_prepared(self.slots(), root, #[trigger] pages@[j] as u64),
                s0 == old(self).slots(),
                p0 == old(pmm).pages(),
                page_table_ready(self.slots(), root, pmm.pages()),
                pmm.wf(),
                pages_only_allocated(p0, pmm.pages()),
                pmm.spec_metadata_start() == old(pmm).spec_metadata_start(),
                forall|vb: u64| #[trigger]
                    translate(self.slots(), root, vb) == identity_mapped(
                        translate(s0, root, vb),
                        pages@,
                        i as int,
                        vb,
                        perms,
                    ),
                forall|vb: u64| walk_prepared(s0, root, vb) ==> #[trigger] walk_prepared(self.slots(), root, vb),
                (forall|j: int| 0 <= j < pages@.len() ==> walk_prepared(s0, root, #[trigger] pages@[j] as u64))
                    ==> *pmm == *old(pmm),
            decreases pages@.len() - i,
        {
            let ghost s1 = self.slots();
            let ghost p1 = pmm.pages();
            match self.identity_map(root, mm::VAddr::new(pages[i]), perms, pmm) {
                Ok(()) => {},
                Err(e) => {
                    proof {
                        lemma_pages_only_allocated_trans(p0, p1, pmm.pages());
                        assert(identity_mapped_prefix(self.slots(), s0, root, pages@, i as int, perms));
                    }
                    return Err(e);
                },
            }
            proof {
                lemma_pages_only_allocated_trans(p0, p1, pmm.pages());
                assert forall|vb: u64| #[trigger]
                    translate(self.slots(), root, vb) == identity_mapped(
                        translate(s0, root, vb),
                        pages@,
                        i + 1,
                        vb,
                        perms,
                    ) by {
                    assert(translate(s1, root, vb) == identity_mapped(translate(s0, root, vb), pages@, i as int, vb, perms));
                    assert(seq![pages@[i as int]][0] == pages@[i as int]);
                    assert(last_mapping(seq![pages@[i as int]], 0, vb) == -1);
                    if same_page_index(pages@[i as int] as u64, vb) {
                        assert(last_mapping(seq![pages@[i as int]], 1, vb) == 0);
                    } else {
                        assert(last_mapping(seq![pages@[i as int]], 1, vb) == -1);
                    }
                }
            }
            i = i + 1;
        }
        Ok(())
    }
}

/// The addresses of `n` pages from `start` on: `start`, `start + PAGE_SIZE`, ...
pub open spec fn range_pages(start: int, n: int) -> Seq<usize> {
    Seq::new(n as nat, |i: int| (start + i * PAGE_SIZE) as usize)
}

/// The number of pages from the start of `range` up to its end.
pub open spec fn range_page_count(range: AddressRange) -> int {
    (range.end - range.start + PAGE_SIZE - 1) / (PAGE_SIZE as int)
}

/// `range` can be walked page by page: it ends at a page boundary, which rounding up to a page
/// leaves in place without overflow.
pub open spec fn range_pageable(range: AddressRange) -> bool {
    &&& range.start <= range.end
    &&& range.end + PAGE_SIZE - 1 <= usize::MAX
    &&& range.end == spec_align_up(range.end as int, PAGE_SIZE as int)
}

impl PageTableMemory {
    /// Gives each of `pages`, in order, an invalid entry, allocating the tables of the walk for
    /// it from `pmm`; stops at the first failure.
    pub(crate) fn invalidate_pages(&mut self, root: u64, pages: &Vec<usize>, pmm: &mut PhysicalMemoryManager) -> (r: Result<(), AllocatorError>)
        requires
            page_table_ready(old(self).slots(), root, old(pmm).pages()),
            old(pmm).wf(),
        ensures
            page_table_ready(final(self).slots(), root, final(pmm).pages()),
            final(pmm).wf(),
            pages_only_allocated(old(pmm).pages(), final(pmm).pages()),
            final(pmm).spec_metadata_start() == old(pmm).spec_metadata_start(),
            r is Ok ==> forall|vb: u64| #[trigger]
                translate(final(self).slots(), root, vb) == invalidated(
                    translate(old(self).slots(), root, vb),
                    pages@,
                    pages@.len() as int,
                    vb,
                ),
            r is Err ==> r == Err::<(), AllocatorError>(AllocatorError::OutOfMemory),
            r is Err ==> no_free_page(final(pmm).pages()),
            r is Err ==> exists|m: int|
                0 <= m < pages@.len() && #[trigger] invalidated_prefix(
                    final(self).slots(),
                    old(self).slots(),
                    root,
                    pages@,
                    m,
                ),
            r is Ok ==> forall|j: int|
                0 <= j < pages@.len() ==> walk_prepared(final(self).slots(), root, #[trigger] pages@[j] as u64),
            forall|vb: u64|
                walk_prepared(old(self).slots(), root, vb) ==> #[trigger] walk_prepared(
                    final(self).slots(),
                    root,
                    vb,
                ),
            (forall|i: int| 0 <= i < pages@.len() ==> walk_prepared(old(self).slots(), root, #[trigger] pages@[i] as u64))
                ==> r is Ok && *final(pmm) == *old(pmm),
    {
        let ghost s0 = self.slots();
        let ghost p0 = pmm.pages();
        let mut i: usize = 0;
        while i < pages.len()
            invariant
                i <= pages@.len(),
                s0 == old(self).slots(),
                p0 == old(pmm).pages(),
                page_table_ready(self.slots(), root, pmm.pages()),
                pmm.wf(),
                pages_only_allocated(p0, pmm.pages()),
                pmm.spec_metadata_start() == old(pmm).spec_metadata_start(),
                forall|vb: u64| #[trigger]
                    translate(self.slots(), root, vb) == invalidated(translate(s0, root, vb), pages@, i as int, vb),
                forall|vb: u64| walk_prepared(s0, root, vb) ==> #[trigger] walk_prepared(self.slots(), root, vb),
                forall|j: int| 0 <= j < i ==> walk_prepared(self.slots(), root, #[trigger] pages@[j] as u64),
                (forall|j: int| 0 <= j < pages@.len() ==> walk_prepared(s0, root, #[trigger] pages@[j] as u64))
                    ==> *pmm == *old(pmm),
            decreases pages@.len() - i,
        {
            let ghost s1 = self.slots();
            let ghost p1 = pmm.pages();
            let va = mm::VAddr::new(pages[i]);
            match self.add_invalid_entry(root, va, pmm) {
                Ok(()) => {},
                Err(e) => {
                    proof {
                        lemma_pages_only_allocated_trans(p0, p1, pmm.pages());
                        assert(invalidated_prefix(self.slots(), s0, root, pages@, i as int));
                    }
                    return Err(e);
                },
            }
            proof {
                lemma_pages_only_allocated_trans(p0, p1, pmm.pages());
                assert forall|vb: u64| #[trigger]
                    translate(self.slots(), root, vb) == invalidated(translate(s0, root, vb), pages@, i + 1, vb) by {
                    assert(translate(s1, root, vb) == invalidated(translate(s0, root, vb), pages@, i as int, vb));
                    if same_page_index(pages@[i as int] as u64, vb) {
                        lemma_translate_by_vpn(self.slots(), root, pages@[i as int] as u64, vb);
                    }
                }
            }
            i = i + 1;
        }
        Ok(())
    }

    /// Maps the `page_count` pages from `addr` on each to the physical page at the same
    /// address, with the rights `perms`; stops at the first failure.
    pub fn identity_map_range(
        &mut self,
        root: u64,
        addr: mm::VAddr,
        page_count: usize,
        perms: Permissions,
        pmm: &mut PhysicalMemoryManager,
    ) -> (r: Result<(), AllocatorError>)
        requires
            page_table_ready(old(self).slots(), root, old(pmm).pages()),
            old(pmm).wf(),
            page_count > 0 ==> addr.val + (page_count - 1) * PAGE_SIZE <= usize::MAX,
        ensures
            page_table_ready(final(self).slots(), root, final(pmm).pages()),
            final(pmm).wf(),
            pages_only_allocated(old(pmm).pages(), final(pmm).pages()),
            final(pmm).spec_metadata_start() == old(pmm).spec_metadata_start(),
            r is Ok ==> forall|vb: u64| #[trigger]
                translate(final(self).slots(), root, vb) == identity_mapped(
                    translate(old(self).slots(), root, vb),
                    range_pages(addr.val as int, page_count as int),
                    page_count as int,
                    vb,
                    perms,
                ),
            r is Err ==> r == Err::<(), AllocatorError>(AllocatorError::OutOfMemory),
            r is Err ==> no_free_page(final(pmm).pages()),
            r is Err ==> exists|m: int|
                0 <= m < page_count && #[trigger] identity_mapped_prefix(
                    final(self).slots(),
                    old(self).slots(),
                    root,
                    range_pages(addr.val as int, page_count as int),
                    m,
                    perms,
                ),
            r is Ok ==> forall|j: int|
                0 <= j < page_count ==> walk_prepared(
                    final(self).slots(),
                    root,
                    #[trigger] range_pages(addr.val as int, page_count as int)[j] as u64,
                ),
            forall|vb: u64|
                walk_prepared(old(self).slots(), root, vb) ==> #[trigger] walk_prepared(
                    final(self).slots(),
                    root,
                    vb,
                ),
            (forall|j: int|
                0 <= j < page_count ==> walk_prepared(
                    old(self).slots(),
                    root,
                    #[trigger] range_pages(addr.val as int, page_count as int)[j] as u64,
                )) ==> r is Ok && *final(pmm) == *old(pmm),
    {
        let start = addr.val;
        let mut pages: Vec<usize> = Vec::new();
        let mut i: usize = 0;
        while i < page_count
            invariant
                i <= page_count,
                start == addr.val,
                page_count > 0 ==> start + (page_count - 1) * PAGE_SIZE <= usize::MAX,
                pages@.len() == i,
                forall|j: int| 0 <= j < i ==> #[trigger] pages@[j] == start + j * PAGE_SIZE,
            decreases page_count - i,
        {
            proof {
                assert(i * PAGE_SIZE <= (page_count - 1) * PAGE_SIZE) by (nonlinear_arith)
                    requires
                        i < page_count,
                ;
            }
            pages.push(start + i * PAGE_SIZE);
            i = i + 1;
        }
        assert(pages@ =~= range_pages(addr.val as int, page_count as int));
        proof {
            if forall|j: int|
                0 <= j < page_count ==> walk_prepared(
                    self.slots(),
                    root,
                    #[trigger] range_pages(addr.val as int, page_count as int)[j] as u64,
                ) {
                assert forall|i: int| 0 <= i < pages@.len() implies walk_prepared(
                    self.slots(),
                    root,
                    #[trigger] pages@[i] as u64,
                ) by {
                    assert(pages@[i] == range_pages(addr.val as int, page_count as int)[i]);
                }
            }
        }
        self.identity_map_pages(root, &pages, perms, pmm)
    }

    /// Maps the pages of `range` each to the physical page at the same address, with the rights
    /// `perms`; stops at the first failure.
    pub fn identity_map_addressrange(
        &mut self,
        root: u64,
        range: AddressRange,
        perms: Permissions,
        pmm: &mut PhysicalMemoryManager,
    ) -> (r: Result<(), AllocatorError>)
        requires
            page_table_ready(old(self).slots(), root, old(pmm).pages()),
            old(pmm).wf(),
            range_pageable(range),
        ensures
            page_table_ready(final(self).slots(), root, final(pmm).pages()),
            final(pmm).wf(),
            pages_only_allocated(old(pmm).pages(), final(pmm).pages()),
            final(pmm).spec_metadata_start() == old(pmm).spec_metadata_start(),
            r is Ok ==> forall|vb: u64| #[trigger]
                translate(final(self).slots(), root, vb) == identity_mapped(
                    translate(old(self).slots(), root, vb),
                    range_pages(range.start as int, range_page_count(range)),
                    range_page_count(range),
                    vb,
                    perms,
                ),
            r is Err ==> r == Err::<(), AllocatorError>(AllocatorError::OutOfMemory),
            r is Err ==> no_free_page(final(pmm).pages()),
            r is Err ==> exists|m: int|
                0 <= m < range_page_count(range) && #[trigger] identity_mapped_prefix(
                    final(self).slots(),
                    old(self).slots(),
                    root,
                    range_pages(range.start as int, range_page_count(range)),
                    m,
                    perms,
                ),
            forall|vb: u64|
                walk_prepared(old(self).slots(), root, vb) ==> #[trigger] walk_prepared(
                    final(self).slots(),
                    root,
                    vb,
                ),
    {
        let pages = range.iter_pages(PAGE_SIZE);
        assert(pages@ =~= range_pages(range.start as int, range_page_count(range)));
        self.identity_map_pages(root, &pages, perms, pmm)
    }

    /// Gives the pages of `range` invalid entries, allocating the tables of their walks, so that
    /// mapping them later needs no allocation; stops at the first failure.
    pub fn add_invalid_entries(&mut self, root: u64, range: AddressRange, pmm: &mut PhysicalMemoryManager) -> (r: Result<(), AllocatorError>)
        requires
            page_table_ready(old(self).slots(), root, old(pmm).pages()),
            old(pmm).wf(),
            range_pageable(range),
        ensures
            page_table_ready(final(self).slots(), root, final(pmm).pages()),
            final(pmm).wf(),
            pages_only_allocated(old(pmm).pages(), final(pmm).pages()),
            final(pmm).spec_metadata_start() == old(pmm).spec_metadata_start(),
            r is Ok ==> forall|vb: u64| #[trigger]
                translate(final(self).slots(), root, vb) == invalidated(
                    translate(old(self).slots(), root, vb),
                    range_pages(range.start as int, range_page_count(range)),
                    range_page_count(range),
                    vb,
                ),
            r is Err ==> r == Err::<(), AllocatorError>(AllocatorError::OutOfMemory),
            r is Err ==> no_free_page(final(pmm).pages()),
            r is Err ==> exists|m: int|
                0 <= m < range_page_count(range) && #[trigger] invalidated_prefix(
                    final(self).slots(),
                    old(self).slots(),
                    root,
                    range_pages(range.start as int, range_page_count(range)),
                    m,
                ),
            r is Ok ==> forall|j: int|
                0 <= j < range_page_count(range) ==> walk_prepared(
                    final(self).slots(),
                    root,
                    #[trigger] range_pages(range.start as int, range_page_count(range))[j] as u64,
                ),
            forall|vb: u64|
                walk_prepared(old(self).slots(), root, vb) ==> #[trigger] walk_prepared(
                    final(self).slots(),
                    root,
                    vb,
                ),
    {
        let pages = range.iter_pages(PAGE_SIZE);
        assert(pages@ =~= range_pages(range.start as int, range_page_count(range)));
        self.invalidate_pages(root, &pages, pmm)
    }
}

/// The translation of `vb` once the pages of the first `n` ranges were identity mapped with
/// `perms`, range after range, over tables that translated it to `before`.
pub open spec fn ranges_identity_mapped(
    before: Option<(u64, u64)>,
    ranges: Seq<AddressRange>,
    n: int,
    vb: u64,
    perms: Permissions,
) -> Option<(u64, u64)>
    decreases n,
{
    if n <= 0 {
        before
    } else {
        let range = ranges[n - 1];
        identity_mapped(
            ranges_identity_mapped(before, ranges, n - 1, vb, perms),
            range_pages(range.start as int, range_page_count(range)),
            range_page_count(range),
            vb,
            perms,
        )
    }
}

/// The translation of `vb` once the pages of the first `n` ranges were given invalid entries,
/// over tables that translated it to `before`.
pub open spec fn ranges_invalidated(before: Option<(u64, u64)>, ranges: Seq<AddressRange>, n: int, vb: u64) -> Option<
    (u64, u64),
>
    decreases n,
{
    if n <= 0 {
        before
    } else {
        let range = ranges[n - 1];
        invalidated(
            ranges_invalidated(before, ranges, n - 1, vb),
            range_pages(range.start as int, range_page_count(range)),
            range_page_count(range),
            vb,
        )
    }
}

/// Read access only.
pub open spec fn read_only() -> Permissions {
    Permissions { bits: READ_BIT }
}

/// Read and write access.
pub open spec fn read_write() -> Permissions {
    Permissions { bits: READ_BIT | WRITE_BIT }
}

/// Read, write and execute access.
pub open spec fn read_write_execute() -> Permissions {
    Permissions { bits: READ_BIT | WRITE_BIT | EXECUTE_BIT }
}

/// The translation of `vb` in a fresh page table once the pages of the `pre_allocated` ranges
/// got invalid entries, then those of the `r` ranges were identity mapped read-only, then those
/// of `rw` read-write, then those of `rwx` with all rights: a later mapping of a page wins.
pub open spec fn prefilled(
    r: Seq<AddressRange>,
    rw: Seq<AddressRange>,
    rwx: Seq<AddressRange>,
    pre_allocated: Seq<AddressRange>,
    vb: u64,
) -> Option<(u64, u64)> {
    let p = ranges_invalidated(None, pre_allocated, pre_allocated.len() as int, vb);
    let p = ranges_identity_mapped(p, r, r.len() as int, vb, read_only());
    let p = ranges_identity_mapped(p, rw, rw.len() as int, vb, read_write());
    ranges_identity_mapped(p, rwx, rwx.len() as int, vb, read_write_execute())
}

/// The ranges that the prefill handles at `stage`: 0 for the pre-allocated ones, 1 for the
/// read-only ones, 2 for the read-write ones, 3 for those with all rights.
pub open spec fn prefill_stage_ranges(
    r: Seq<AddressRange>,
    rw: Seq<AddressRange>,
    rwx: Seq<AddressRange>,
    pre_allocated: Seq<AddressRange>,
    stage: int,
) -> Seq<AddressRange> {
    if stage == 0 {
        pre_allocated
    } else if stage == 1 {
        r
    } else if stage == 2 {
        rw
    } else {
        rwx
    }
}

/// The translation of `vb` in the fresh page table of a prefill that stopped at `stage`, after
/// the ranges of the earlier stages, the first `n` ranges of this stage and the first `m` pages of
/// its range `n`: nothing after that point was done.
pub open spec fn prefilled_until(
    r: Seq<AddressRange>,
    rw: Seq<AddressRange>,
    rwx: Seq<AddressRange>,
    pre_allocated: Seq<AddressRange>,
    stage: int,
    n: int,
    m: int,
    vb: u64,
) -> Option<(u64, u64)> {
    let list = prefill_stage_ranges(r, rw, rwx, pre_allocated, stage);
    let pages = range_pages(list[n].start as int, range_page_count(list[n]));
    let p0 = ranges_invalidated(None, pre_allocated, pre_allocated.len() as int, vb);
    let p1 = ranges_identity_mapped(p0, r, r.len() as int, vb, read_only());
    let p2 = ranges_identity_mapped(p1, rw, rw.len() as int, vb, read_write());
    if stage == 0 {
        invalidated(ranges_invalidated(None, pre_allocated, n, vb), pages, m, vb)
    } else if stage == 1 {
        identity_mapped(ranges_identity_mapped(p0, r, n, vb, read_only()), pages, m, vb, read_only())
    } else if stage == 2 {
        identity_mapped(ranges_identity_mapped(p1, rw, n, vb, read_write()), pages, m, vb, read_write())
    } else {
        identity_mapped(
            ranges_identity_mapped(p2, rwx, n, vb, read_write_execute()),
            pages,
            m,
            vb,
            read_write_execute(),
        )
    }
}

/// The page table at `root` among `slots` is that of a prefill that ran out of pages at `stage`,
/// on page `m` of its range `n`.
pub open spec fn prefill_stopped_at(
    slots: Seq<TableSlot>,
    root: u64,
    r: Seq<AddressRange>,
    rw: Seq<AddressRange>,
    rwx: Seq<AddressRange>,
    pre_allocated: Seq<AddressRange>,
    stage: int,
    n: int,
    m: int,
) -> bool {
    let list = prefill_stage_ranges(r, rw, rwx, pre_allocated, stage);
    &&& 0 <= stage < 4
    &&& 0 <= n < list.len()
    &&& 0 <= m < range_page_count(list[n])
    &&& table_at(slots, root) is Some
    &&& table_at(slots, root)->0.level == 2
    &&& forall|vb: u64| #[trigger] translate(slots, root, vb) == prefilled_until(r, rw, rwx, pre_allocated, stage, n, m, vb)
}

/// The walk from `root` of every page of the first `n` ranges reaches a table at level 0, so
/// that mapping them needs no allocation.
pub open spec fn ranges_prepared(slots: Seq<TableSlot>, root: u64, ranges: Seq<AddressRange>, n: int) -> bool {
    forall|i: int, j: int|
        0 <= i < n && 0 <= j < range_page_count(ranges[i]) ==> #[trigger] walk_prepared(
            slots,
            root,
            range_pages(ranges[i].start as int, range_page_count(ranges[i]))[j] as u64,
        )
}

/// The tables `after` translate every address as `before` did once the pages of the first `n`
/// of `ranges`, and then the first `m` pages of range `n`, were mapped each to itself with
/// `perms`.
pub open spec fn ranges_identity_mapped_prefix(
    after: Seq<TableSlot>,
    before: Seq<TableSlot>,
    root: u64,
    ranges: Seq<AddressRange>,
    n: int,
    m: int,
    perms: Permissions,
) -> bool {
    forall|vb: u64| #[trigger]
        translate(after, root, vb) == identity_mapped(
            ranges_identity_mapped(translate(before, root, vb), ranges, n, vb, perms),
            range_pages(ranges[n].start as int, range_page_count(ranges[n])),
            m,
            vb,
            perms,
        )
}

/// The tables `after` translate every address as `before` did once the pages of the first `n`
/// of `ranges`, and then the first `m` pages of range `n`, were given invalid entries.
pub open spec fn ranges_invalidated_prefix(
    after: Seq<TableSlot>,
    before: Seq<TableSlot>,
    root: u64,
    ranges: Seq<AddressRange>,
    n: int,
    m: int,
) -> bool {
    forall|vb: u64| #[trigger]
        translate(after, root, vb) == invalidated(
            ranges_invalidated(translate(before, root, vb), ranges, n, vb),
            range_pages(ranges[n].start as int, range_page_count(ranges[n])),
            m,
            vb,
        )
}

/// Every range of the list can be walked page by page.
pub open spec fn all_pageable(ranges: Seq<AddressRange>) -> bool {
    forall|i: int| 0 <= i < ranges.len() ==> range_pageable(#[trigger] ranges[i])
}

impl PageTableMemory {
    /// Identity maps the pages of each of `ranges`, in order, with the rights `perms`; stops at
    /// the first failure.
    fn identity_map_ranges(
        &mut self,
        root: u64,
        ranges: &Vec<AddressRange>,
        perms: Permissions,
        pmm: &mut PhysicalMemoryManager,
    ) -> (r: Result<(), AllocatorError>)
        requires
            page_table_ready(old(self).slots(), root, old(pmm).pages()),
            old(pmm).wf(),
            all_pageable(ranges@),
        ensures
            page_table_ready(final(self).slots(), root, final(pmm).pages()),
            final(pmm).wf(),
            pages_only_allocated(old(pmm).pages(), final(pmm).pages()),
            final(pmm).spec_metadata_start() == old(pmm).spec_metadata_start(),
            r is Ok ==> forall|vb: u64| #[trigger]
                translate(final(self).slots(), root, vb) == ranges_identity_mapped(
                    translate(old(self).slots(), root, vb),
                    ranges@,
                    ranges@.len() as int,
                    vb,
                    perms,
                ),
            r is Err ==> r == Err::<(), AllocatorError>(AllocatorError::OutOfMemory),
            r is Err ==> no_free_page(final(pmm).pages()),
            r is Err ==> exists|n: int, m: int|
                0 <= n < ranges@.len() && 0 <= m < range_page_count(ranges@[n])
                    && #[trigger] ranges_identity_mapped_prefix(
                    final(self).slots(),
                    old(self).slots(),
                    root,
                    ranges@,
                    n,
                    m,
                    perms,
                ),
            forall|vb: u64|
                walk_prepared(old(self).slots(), root, vb) ==> #[trigger] walk_prepared(
                    final(self).slots(),
                    root,
                    vb,
                ),
    {
        let ghost s0 = self.slots();
        let ghost p0 = pmm.pages();
        let mut i: usize = 0;
        while i < ranges.len()
            invariant
                i <= ranges@.len(),
                s0 == old(self).slots(),
                p0 == old(pmm).pages(),
                all_pageable(ranges@),
                page_table_ready(self.slots(), root, pmm.pages()),
                pmm.wf(),
                pages_only_allocated(p0, pmm.pages()),
                pmm.spec_metadata_start() == old(pmm).spec_metadata_start(),
                forall|vb: u64| #[trigger]
                    translate(self.slots(), root, vb) == ranges_identity_mapped(
                        translate(s0, root, vb),
                        ranges@,
                        i as int,
                        vb,
                        perms,
                    ),
                forall|vb: u64| walk_prepared(s0, root, vb) ==> #[trigger] walk_prepared(self.slots(), root, vb),
            decreases ranges@.len() - i,
        {
            let ghost s1 = self.slots();
            let ghost p1 = pmm.pages();
            let range = ranges[i];
            assert(range_pageable(ranges@[i as int]));
            match self.identity_map_addressrange(root, range, perms, pmm) {
                Ok(()) => {},
                Err(e) => {
                    proof {
                        lemma_pages_only_allocated_trans(p0, p1, pmm.pages());
                        let m = choose|m: int|
                            0 <= m < range_page_count(range) && #[trigger] identity_mapped_prefix(
                                self.slots(),
                                s1,
                                root,
                                range_pages(range.start as int, range_page_count(range)),
                                m,
                                perms,
                            );
                        assert(ranges_identity_mapped_prefix(self.slots(), s0, root, ranges@, i as int, m, perms));
                    }
                    return Err(e);
                },
            }
            proof {
                lemma_pages_only_allocated_trans(p0, p1, pmm.pages());
                assert forall|vb: u64| #[trigger]
                    translate(self.slots(), root, vb) == ranges_identity_mapped(
                        translate(s0, root, vb),
                        ranges@,
                        i + 1,
                        vb,
                        perms,
                    ) by {
                    assert(translate(s1, root, vb) == ranges_identity_mapped(
                        translate(s0, root, vb),
                        ranges@,
                        i as int,
                        vb,
                        perms,
                    ));
                }
            }
            i = i + 1;
        }
        Ok(())
    }

    /// Gives the pages of each of `ranges`, in order, invalid entries; stops at the first
    /// failure.
    fn invalidate_ranges(&mut self, root: u64, ranges: &Vec<AddressRange>, pmm: &mut PhysicalMemoryManager) -> (r: Result<(), AllocatorError>)
        requires
            page_table_ready(old(self).slots(), root, old(pmm).pages()),
            old(pmm).wf(),
            all_pageable(ranges@),
        ensures
            page_table_ready(final(self).slots(), root, final(pmm).pages()),
            final(pmm).wf(),
            pages_only_allocated(old(pmm).pages(), final(pmm).pages()),
            final(pmm).spec_metadata_start() == old(pmm).spec_metadata_start(),
            r is Ok ==> forall|vb: u64| #[trigger]
                translate(final(self).slots(), root, vb) == ranges_invalidated(
                    translate(old(self).slots(), root, vb),
                    ranges@,
                    ranges@.len() as int,
                    vb,
                ),
            r is Err ==> r == Err::<(), AllocatorError>(AllocatorError::OutOfMemory),
            r is Err ==> no_free_page(final(pmm).pages()),
            r is Err ==> exists|n: int, m: int|
                0 <= n < ranges@.len() && 0 <= m < range_page_count(ranges@[n])
                    && #[trigger] ranges_invalidated_prefix(final(self).slots(), old(self).slots(), root, ranges@, n, m),
            r is Ok ==> ranges_prepared(final(self).slots(), root, ranges@, ranges@.len() as int),
            forall|vb: u64|
                walk_prepared(old(self).slots(), root, vb) ==> #[trigger] walk_prepared(
                    final(self).slots(),
                    root,
                    vb,
                ),
    {
        let ghost s0 = self.slots();
        let ghost p0 = pmm.pages();
        let mut i: usize = 0;
        while i < ranges.len()
            invariant
                i <= ranges@.len(),
                s0 == old(self).slots(),
                p0 == old(pmm).pages(),
                all_pageable(ranges@),
                page_table_ready(self.slots(), root, pmm.pages()),
                pmm.wf(),
                pages_only_allocated(p0, pmm.pages()),
                pmm.spec_metadata_start() == old(pmm).spec_metadata_start(),
                forall|vb: u64| #[trigger]
                    translate(self.slots(), root, vb) == ranges_invalidated(
                        translate(s0, root, vb),
                        ranges@,
                        i as int,
                        vb,
                    ),
                forall|vb: u64| walk_prepared(s0, root, vb) ==> #[trigger] walk_prepared(self.slots(), root, vb),
                ranges_prepared(self.slots(), root, ranges@, i as int),
            decreases ranges@.len() - i,
        {
            let ghost s1 = self.slots();
            let ghost p1 = pmm.pages();
            let range = ranges[i];
            assert(range_pageable(ranges@[i as int]));
            match self.add_invalid_entries(root, range, pmm) {
                Ok(()) => {},
                Err(e) => {
                    proof {
                        lemma_pages_only_allocated_trans(p0, p1, pmm.pages());
                        let m = choose|m: int|
                            0 <= m < range_page_count(range) && #[trigger] invalidated_prefix(
                                self.slots(),
                                s1,
                                root,
                                range_pages(range.start as int, range_page_count(range)),
                                m,
                            );
                        assert(ranges_invalidated_prefix(self.slots(), s0, root, ranges@, i as int, m));
                    }
                    return Err(e);
                },
            }
            proof {
                lemma_pages_only_allocated_trans(p0, p1, pmm.pages());
                assert forall|vb: u64| #[trigger]
                    translate(self.slots(), root, vb) == ranges_invalidated(
                        translate(s0, root, vb),
                        ranges@,
                        i + 1,
                        vb,
                    ) by {
                    assert(translate(s1, root, vb) == ranges_invalidated(
                        translate(s0, root, vb),
                        ranges@,
                        i as int,
                        vb,
                    ));
                }
            }
            i = i + 1;
        }
        Ok(())
    }
}

/// Builds a new page table in `tables`, with its pages allocated from `allocator`: the pages of
/// the `pre_allocated` ranges get invalid entries (so that mapping them later needs no
/// allocation), then the pages of the `r`, `rw` and `rwx` ranges are identity mapped read-only,
/// read-write and with all rights, in that order. Returns the address of its root, or fails when
/// the allocator runs out of pages.
pub fn prefill_pagetable(
    tables: &mut PageTableMemory,
    r: &Vec<AddressRange>,
    rw: &Vec<AddressRange>,
    rwx: &Vec<AddressRange>,
    pre_allocated: &Vec<AddressRange>,
    allocator: &mut PhysicalMemoryManager,
) -> (res: Result<u64, AllocatorError>)
    requires
        tables_wf(old(tables).slots()),
        old(allocator).wf(),
        pages_addressable(old(allocator).pages()),
        tables_backed(old(tables).slots(), old(allocator).pages()),
        all_pageable(r@),
        all_pageable(rw@),
        all_pageable(rwx@),
        all_pageable(pre_allocated@),
    ensures
        tables_wf(final(tables).slots()),
        final(allocator).wf(),
        pages_addressable(final(allocator).pages()),
        tables_backed(final(tables).slots(), final(allocator).pages()),
        pages_only_allocated(old(allocator).pages(), final(allocator).pages()),
        final(allocator).spec_metadata_start() == old(allocator).spec_metadata_start(),
        match res {
            Ok(root) => page_table_ready(final(tables).slots(), root, final(allocator).pages())
                && root < 0x10_0000_0000_0000 && (forall|vb: u64| #[trigger]
                translate(final(tables).slots(), root, vb) == prefilled(r@, rw@, rwx@, pre_allocated@, vb))
                && ranges_prepared(final(tables).slots(), root, pre_allocated@, pre_allocated@.len() as int),
            Err(e) => e == AllocatorError::OutOfMemory && no_free_page(final(allocator).pages()) && (
                final(tables).slots() == old(tables).slots() || exists|root: u64, stage: int, n: int, m: int|
                table_at(old(tables).slots(), root) is None && #[trigger] prefill_stopped_at(
                    final(tables).slots(),
                    root,
                    r@,
                    rw@,
                    rwx@,
                    pre_allocated@,
                    stage,
                    n,
                    m,
                )),
        },
{
    let ghost p0 = allocator.pages();
    let root = match tables.new_root(allocator) {
        Ok(root) => root,
        Err(e) => {
            return Err(e);
        },
    };
    let ghost s1 = tables.slots();
    let ghost p1 = allocator.pages();
    let res = tables.invalidate_ranges(root, pre_allocated, allocator);
    proof {
        lemma_pages_only_allocated_trans(p0, p1, allocator.pages());
    }
    if res.is_err() {
        proof {
            let (n, m) = choose|n: int, m: int|
                0 <= n < pre_allocated@.len() && 0 <= m < range_page_count(pre_allocated@[n])
                    && #[trigger] ranges_invalidated_prefix(tables.slots(), s1, root, pre_allocated@, n, m);
            assert forall|vb: u64| #[trigger]
                translate(tables.slots(), root, vb) == prefilled_until(r@, rw@, rwx@, pre_allocated@, 0, n, m, vb) by {
                assert(translate(s1, root, vb) is None);
            }
            assert(prefill_stopped_at(tables.slots(), root, r@, rw@, rwx@, pre_allocated@, 0, n, m));
        }
        return Err(AllocatorError::OutOfMemory);
    }
    let ghost s2 = tables.slots();
    let ghost p2 = allocator.pages();
    let res = tables.identity_map_ranges(root, r, Permissions::read(), allocator);
    proof {
        lemma_pages_only_allocated_trans(p0, p2, allocator.pages());
    }
    if res.is_err() {
        proof {
            let (n, m) = choose|n: int, m: int|
                0 <= n < r@.len() && 0 <= m < range_page_count(r@[n])
                    && #[trigger] ranges_identity_mapped_prefix(tables.slots(), s2, root, r@, n, m, read_only());
            assert forall|vb: u64| #[trigger]
                translate(tables.slots(), root, vb) == prefilled_until(r@, rw@, rwx@, pre_allocated@, 1, n, m, vb) by {
                assert(translate(s1, root, vb) is None);
                assert(translate(s2, root, vb) == ranges_invalidated(None, pre_allocated@, pre_allocated@.len() as int, vb));
            }
            assert(prefill_stopped_at(tables.slots(), root, r@, rw@, rwx@, pre_allocated@, 1, n, m));
        }
        return Err(AllocatorError::OutOfMemory);
    }
    let ghost s3 = tables.slots();
    let ghost p3 = allocator.pages();
    let res = tables.identity_map_ranges(root, rw, Permissions::read().union(Permissions::write()), allocator);
    proof {
        lemma_pages_only_allocated_trans(p0, p3, allocator.pages());
    }
    if res.is_err() {
        proof {
            let (n, m) = choose|n: int, m: int|
                0 <= n < rw@.len() && 0 <= m < range_page_count(rw@[n])
                    && #[trigger] ranges_identity_mapped_prefix(tables.slots(), s3, root, rw@, n, m, read_write());
            assert forall|vb: u64| #[trigger]
                translate(tables.slots(), root, vb) == prefilled_until(r@, rw@, rwx@, pre_allocated@, 2, n, m, vb) by {
                assert(translate(s1, root, vb) is None);
                assert(translate(s2, root, vb) == ranges_invalidated(None, pre_allocated@, pre_allocated@.len() as int, vb));
                assert(translate(s3, root, vb) == ranges_identity_mapped(
                    translate(s2, root, vb),
                    r@,
                    r@.len() as int,
                    vb,
                    read_only(),
                ));
            }
            assert(prefill_stopped_at(tables.slots(), root, r@, rw@, rwx@, pre_allocated@, 2, n, m));
        }
        return Err(AllocatorError::OutOfMemory);
    }
    let ghost s4 = tables.slots();
    let ghost p4 = allocator.pages();
    let res = tables.identity_map_ranges(
        root,
        rwx,
        Permissions::read().union(Permissions::write()).union(Permissions::execute()),
        allocator,
    );
    proof {
        lemma_pages_only_allocated_trans(p0, p4, allocator.pages());
    }
    if res.is_err() {
        proof {
            let (n, m) = choose|n: int, m: int|
                0 <= n < rwx@.len() && 0 <= m < range_page_count(rwx@[n])
                    && #[trigger] ranges_identity_mapped_prefix(tables.slots(), s4, root, rwx@, n, m, read_write_execute());
            assert forall|vb: u64| #[trigger]
                translate(tables.slots(), root, vb) == prefilled_until(r@, rw@, rwx@, pre_allocated@, 3, n, m, vb) by {
                assert(translate(s1, root, vb) is None);
                assert(translate(s2, root, vb) == ranges_invalidated(None, pre_allocated@, pre_allocated@.len() as int, vb));
                assert(translate(s3, root, vb) == ranges_identity_mapped(
                    translate(s2, root, vb),
                    r@,
                    r@.len() as int,
                    vb,
                    read_only(),
                ));
                assert(translate(s4, root, vb) == ranges_identity_mapped(
                    translate(s3, root, vb),
                    rw@,
                    rw@.len() as int,
                    vb,
                    read_write(),
                ));
            }
            assert(prefill_stopped_at(tables.slots(), root, r@, rw@, rwx@, pre_allocated@, 3, n, m));
        }
        return Err(AllocatorError::OutOfMemory);
    }
    proof {
        assert forall|vb: u64| #[trigger]
            translate(tables.slots(), root, vb) == prefilled(r@, rw@, rwx@, pre_allocated@, vb) by {
            assert(translate(s1, root, vb) is None);
        }
    }
    Ok(root)
}

/// Addresses translated by the same entries have the same page number modulo 2^27.
proof fn lemma_same_page_number(x: u64, y: u64)
    requires
        same_page_index(x, y),
    ensures
        (x / 4096) % 0x800_0000 == (y / 4096) % 0x800_0000,
{
    let a = x >> 12u64;
    let b = y >> 12u64;
    assert((a >> 0u64) & 0x1ff < 512 && (a >> 9u64) & 0x1ff < 512 && (a >> 18u64) & 0x1ff < 512)
        by (bit_vector);
    assert((b >> 0u64) & 0x1ff < 512 && (b >> 9u64) & 0x1ff < 512 && (b >> 18u64) & 0x1ff < 512)
        by (bit_vector);
    assert((a >> 0u64) & 0x1ff == (b >> 0u64) & 0x1ff);
    assert((a >> 9u64) & 0x1ff == (b >> 9u64) & 0x1ff);
    assert((a >> 18u64) & 0x1ff == (b >> 18u64) & 0x1ff);
    assert((a >> 0u64) & 0x1ff == (b >> 0u64) & 0x1ff && (a >> 9u64) & 0x1ff == (b >> 9u64) & 0x1ff
        && (a >> 18u64) & 0x1ff == (b >> 18u64) & 0x1ff ==> a % 0x800_0000 == b % 0x800_0000)
        by (bit_vector);
    assert(x >> 12u64 == x / 4096) by (bit_vector);
    assert(y >> 12u64 == y / 4096) by (bit_vector);
}

/// Two pages of a run of at most 2^27 consecutive pages are translated by different entries.
proof fn lemma_range_pages_apart(start: int, i: int, j: int)
    requires
        0 <= start,
        0 <= i < j < 0x800_0000,
        start + j * PAGE_SIZE <= u64::MAX,
    ensures
        !same_page_index((start + i * PAGE_SIZE) as u64, (start + j * PAGE_SIZE) as u64),
{
    let x = start + i * PAGE_SIZE;
    let y = start + j * PAGE_SIZE;
    let q = start / 4096;
    let rem = start % 4096;
    vstd::arithmetic::div_mod::lemma_fundamental_div_mod(start, 4096);
    assert(x == 4096 * (q + i) + rem);
    assert(y == 4096 * (q + j) + rem);
    vstd::arithmetic::div_mod::lemma_div_multiples_vanish_fancy(q + i, rem, 4096);
    vstd::arithmetic::div_mod::lemma_div_multiples_vanish_fancy(q + j, rem, 4096);
    if same_page_index(x as u64, y as u64) {
        lemma_same_page_number(x as u64, y as u64);
        assert((q + i) % 0x800_0000 == (q + j) % 0x800_0000);
        vstd::arithmetic::div_mod::lemma_mod_equivalence(q + j, q + i, 0x800_0000);
        assert((j - i) % 0x800_0000 == 0);
        vstd::arithmetic::div_mod::lemma_small_mod((j - i) as nat, 0x800_0000);
        assert(false);
    }
}

/// The last of the first `n` pages in the page of `vb` is the `i`-th when it lies there and no
/// later one does.
proof fn lemma_last_mapping_is(pages: Seq<usize>, n: int, vb: u64, i: int)
    requires
        0 <= i < n <= pages.len(),
        same_page_index(pages[i] as u64, vb),
        forall|j: int| i < j < n ==> !same_page_index(#[trigger] pages[j] as u64, vb),
    ensures
        last_mapping(pages, n, vb) == i,
    decreases n,
{
    if n - 1 > i {
        lemma_last_mapping_is(pages, n - 1, vb, i);
    }
}

/// Identity mapping a run of at most 2^27 pages maps each of its pages to itself: a later page
/// of the run never takes the entry of an earlier one.
pub proof fn lemma_identity_range_maps_each_page(
    before: Option<(u64, u64)>,
    start: usize,
    n: int,
    i: int,
    perms: Permissions,
)
    requires
        0 <= i < n <= 0x800_0000,
        start + (n - 1) * PAGE_SIZE <= usize::MAX,
    ensures
        identity_mapped(before, range_pages(start as int, n), n, (start + i * PAGE_SIZE) as u64, perms)
            == Some((((start + i * PAGE_SIZE) as u64) & ENTRY_ADDR_MASK, (perms.bits & 0xf) as u64)),
{
    let pages = range_pages(start as int, n);
    let vb = (start + i * PAGE_SIZE) as u64;
    assert(i * PAGE_SIZE <= n * PAGE_SIZE) by (nonlinear_arith)
        requires
            i <= n,
    ;
    assert(pages[i] == (start + i * PAGE_SIZE) as usize);
    assert forall|j: int| i < j < n implies !same_page_index(#[trigger] pages[j] as u64, vb) by {
        assert(j * PAGE_SIZE <= n * PAGE_SIZE) by (nonlinear_arith)
            requires
                j <= n,
        ;
        lemma_range_pages_apart(start as int, i, j);
    }
    lemma_last_mapping_is(pages, n, vb, i);
}

} // verus!
