use vstd::prelude::*;

use crate::kernel::globals::KernelState;
use crate::kernel::arch::riscv64::page_map::{identity_mapped, page_table_ready, range_pages, read_write};
use crate::kernel::arch::riscv64::sv39::{translate, walk_prepared, PageTableMemory};
use crate::kernel::mm::physical_memory_manager::{
    allocate_run, first_run_end, run_len, PhysicalMemoryManager, PAGE_SIZE,
};

verus! {

/// The kernel heap: it gives whole pages away.
pub struct BinaryBuddyAllocator;

/// The number of pages handed out for `size` bytes: one for up to a page, else one more than
/// the whole pages `size` holds.
pub open spec fn pages_for(size: usize) -> int {
    if size <= PAGE_SIZE {
        1
    } else {
        (size as int) / (PAGE_SIZE as int) + 1
    }
}

impl BinaryBuddyAllocator {
    /// Allocates `size` bytes from the physical memory manager and maps their pages read-write
    /// in the kernel page table whose root is `root`: the address of the first page, or 0 when
    /// there is no memory left. The kernel must be past early initialization, so the MMU is on
    /// and all the memory of the manager has entries in that page table already.
    pub fn allocate(
        &self,
        pmm: &mut PhysicalMemoryManager,
        state: &KernelState,
        tables: &mut PageTableMemory,
        root: u64,
        size: usize,
    ) -> (p: usize)
        requires
            *state != KernelState::EarlyInit,
            size > 0,
            old(pmm).wf(),
            page_table_ready(old(tables).slots(), root, old(pmm).pages()),
            forall|i: int|
                0 <= i < old(pmm).pages().len() ==> walk_prepared(
                    old(tables).slots(),
                    root,
                    #[trigger] old(pmm).pages()[i].base as u64,
                ),
        ensures
            final(pmm).wf(),
            page_table_ready(final(tables).slots(), root, final(pmm).pages()),
            (exists|i: int|
                #![trigger run_len(old(pmm).pages(), i)]
                first_run_end(old(pmm).pages(), pages_for(size), i) && p == old(pmm).pages()[i
                    - pages_for(size) + 1].base && final(pmm).pages() == allocate_run(
                    old(pmm).pages(),
                    i - pages_for(size) + 1,
                    i,
                ) && forall|vb: u64| #[trigger]
                    translate(final(tables).slots(), root, vb) == identity_mapped(
                        translate(old(tables).slots(), root, vb),
                        range_pages(p as int, pages_for(size)),
                        pages_for(size),
                        vb,
                        read_write(),
                    )) || (p == 0 && final(pmm).pages() == old(pmm).pages() && final(tables).slots() == old(
                tables,
            ).slots() && forall|i: int|
                0 <= i < old(pmm).pages().len() ==> #[trigger] run_len(old(pmm).pages(), i)
                    != pages_for(size)),
    {
        let page_count = if size <= PAGE_SIZE {
            1
        } else {
            size / PAGE_SIZE + 1
        };
        match pmm.allocate_mapped(page_count, *state, tables, root) {
            Ok(base) => base,
            Err(_) => 0,
        }
    }

    /// Freeing memory is not supported: nothing happens.
    pub fn dealloc(&self) {
    }
}

} // verus!
