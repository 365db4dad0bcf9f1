use vstd::prelude::*;

use crate::hal_core::fake_once_lock::FakeOnceLock;
use crate::hal_core::mm::{self, spec_align_down, spec_align_up, AllocatorError};
use crate::hal_core::AddressRange;
use crate::kernel::arch::riscv64::page_map::{
    all_pageable, page_table_ready, prefill_pagetable, prefill_stopped_at, prefilled, ranges_prepared,
};
use crate::kernel::arch::riscv64::sv39::{
    load_pt, pages_addressable, pages_only_allocated, spec_satp, table_at, tables_backed, tables_wf, translate,
    PageTableMemory, PAGE_SIZE,
};
use crate::kernel::mm::physical_memory_manager::{no_free_page, PhysicalMemoryManager};

verus! {

/// What the kernel reaches the machine through: the kernel page table, whose root is set once.
pub struct Hal {
    kpt: FakeOnceLock<u64>,
}

impl Hal {
    /// The root of the kernel page table, once it was built.
    pub closed spec fn kernel_root(&self) -> Option<u64> {
        self.kpt.value()
    }

    /// No kernel page table was recorded yet, so `init_kpt` may build one.
    pub open spec fn kpt_unset(&self) -> bool {
        self.kernel_root() is None
    }

    /// No kernel page table yet.
    pub fn new() -> (h: Self)
        ensures
            h.kernel_root() is None,
    {
        Self { kpt: FakeOnceLock::new() }
    }

    /// Builds the kernel page table in `tables` as `prefill_pagetable` does, its pages allocated
    /// from `allocator`, and records its root. The kernel page table is built once only.
    pub fn init_kpt(
        &mut self,
        tables: &mut PageTableMemory,
        r: &Vec<AddressRange>,
        rw: &Vec<AddressRange>,
        rwx: &Vec<AddressRange>,
        pre_allocated: &Vec<AddressRange>,
        allocator: &mut PhysicalMemoryManager,
    ) -> (res: Result<(), AllocatorError>)
        requires
            old(self).kpt_unset(),
            tables_wf(old(tables).slots()),
            old(allocator).wf(),
            pages_addressable(old(allocator).pages()),
            tables_backed(old(tables).slots(), old(allocator).pages()),
            all_pageable(r@),
            all_pageable(rw@),
            all_pageable(rwx@),
            all_pageable(pre_allocated@),
        ensures
            tables_wf(final(tables).slots()),
            final(allocator).wf(),
            pages_addressable(final(allocator).pages()),
            tables_backed(final(tables).slots(), final(allocator).pages()),
            pages_only_allocated(old(allocator).pages(), final(allocator).pages()),
            final(allocator).spec_metadata_start() == old(allocator).spec_metadata_start(),
            match res {
                Ok(_) => final(self).kernel_root() matches Some(root) && page_table_ready(
                    final(tables).slots(),
                    root,
                    final(allocator).pages(),
                ) && root < 0x10_0000_0000_0000 && (forall|vb: u64| #[trigger]
                    translate(final(tables).slots(), root, vb) == prefilled(r@, rw@, rwx@, pre_allocated@, vb))
                    && ranges_prepared(final(tables).slots(), root, pre_allocated@, pre_allocated@.len() as int),
                Err(e) => final(self).kernel_root() is None && e == AllocatorError::OutOfMemory && no_free_page(
                    final(allocator).pages(),
                ) && (final(tables).slots() == old(tables).slots() || exists|
                    root: u64,
                    stage: int,
                    n: int,
                    m: int,
                |
                    table_at(old(tables).slots(), root) is None && #[trigger] prefill_stopped_at(
                        final(tables).slots(),
                        root,
                        r@,
                        rw@,
                        rwx@,
                        pre_allocated@,
                        stage,
                        n,
                        m,
                    )),
            },
    {
        let root = match prefill_pagetable(tables, r, rw, rwx, pre_allocated, allocator) {
            Ok(root) => root,
            Err(e) => {
                return Err(e);
            },
        };
        let _ = self.kpt.set(root);
        Ok(())
    }

    /// The root of the kernel page table, once it was built.
    pub fn kpt(&self) -> (r: Option<u64>)
        ensures
            r == self.kernel_root(),
    {
        match self.kpt.get() {
            Some(root) => Some(*root),
            None => None,
        }
    }

    /// The value of `satp` that turns translation on with the kernel page table.
    pub fn enable_paging(&self) -> (satp: u64)
        requires
            self.kernel_root() matches Some(root) && root < 0x10_0000_0000_0000,
        ensures
            satp == spec_satp(self.kernel_root()->0 >> 12u64, 0, 8),
    {
        let root = match self.kpt.get() {
            Some(root) => *root,
            None => 0,
        };
        load_pt(root)
    }

    /// The size of the pages of the kernel page table.
    pub fn page_size(&self) -> (s: usize)
        ensures
            s == PAGE_SIZE,
    {
        PAGE_SIZE
    }

    /// `val` rounded up to the next page boundary.
    pub fn align_up(&self, val: usize) -> (r: usize)
        requires
            val + PAGE_SIZE - 1 <= usize::MAX,
        ensures
            r == spec_align_up(val as int, PAGE_SIZE as int),
    {
        mm::align_up(val, self.page_size())
    }

    /// The page boundary one page above `align_up(val)`.
    pub fn align_down(&self, val: usize) -> (r: usize)
        requires
            val + PAGE_SIZE - 1 <= usize::MAX,
            spec_align_up(val as int, PAGE_SIZE as int) + PAGE_SIZE <= usize::MAX,
        ensures
            r == spec_align_down(val as int, PAGE_SIZE as int),
    {
        mm::align_down(val, self.page_size())
    }
}

/// The kernel page table is set once: a HAL that recorded the root `root` keeps reading it back,
/// and `init_kpt`, which asks for no recorded root, can no longer run on it, so the root is
/// never replaced.
pub proof fn lemma_kernel_page_table_set_once(hal: Hal, root: u64)
    requires
        hal.kernel_root() == Some(root),
    ensures
        !hal.kpt_unset(),
        hal.kernel_root() == Some(root),
{
}

} // verus!
