use vstd::prelude::*;

use crate::hal_core::mm::{self, spec_align_up, AllocatorError, Permissions};
use crate::kernel::mm::physical_memory_manager::{
    allocate_run, first_run_end, lemma_run_is_free_and_contiguous, no_free_page, run_len, PageKind,
    PhysicalMemoryManager,
    PhysicalPage,
};

verus! {

/// The bits above bit 38 of a virtual address.
pub const VADDR_HIGH_MASK: u64 = 0xffff_ffc0_0000_0000;

/// The bits above bit 55 of a physical address.
pub const PADDR_HIGH_MASK: u64 = 0xff80_0000_0000_0000;

/// The index, at level `nb`, of the page table entry that translates `addr`.
pub open spec fn spec_vpn(addr: u64, nb: u64) -> u16 {
    (((addr >> 12u64) >> (nb * 9)) & 0x1ff) as u16
}

/// `addr` with the bits above bit 38 set when the top bit of its level-2 index is set, cleared
/// otherwise.
pub open spec fn spec_canonical_vaddr(addr: u64) -> u64 {
    if (spec_vpn(addr, 2) >> 8u16) != 0 {
        addr | VADDR_HIGH_MASK
    } else {
        addr & !VADDR_HIGH_MASK
    }
}

/// A Sv39 virtual address.
#[derive(Debug, Copy, Clone, PartialEq, Eq, Structural)]
pub struct VAddr {
    pub addr: u64,
}

impl VAddr {
    /// The virtual address `addr`, sign-extended from bit 38.
    pub fn from_u64(addr: u64) -> (va: VAddr)
        ensures
            va.addr == spec_canonical_vaddr(addr),
    {
        let mut vaddr = Self { addr };
        let bit38 = (vaddr.vpn(2) >> 8) != 0;
        vaddr.extend_38th_bit(bit38);
        vaddr
    }

    /// The index, at level `nb`, of the page table entry that translates the address.
    pub fn vpn(&self, nb: usize) -> (v: u16)
        requires
            nb <= 2,
        ensures
            v == spec_vpn(self.addr, nb as u64),
            v < 512,
    {
        let vpn = self.addr >> 12;
        let shift = (nb * 9) as u64;
        let v = ((vpn >> shift) & 0x1ff) as u16;
        assert((vpn >> shift) & 0x1ff < 512) by (bit_vector);
        v
    }

    /// Sets all the bits above bit 38 when `bit` is set, clears them otherwise.
    fn extend_38th_bit(&mut self, bit: bool)
        ensures
            final(self).addr == if bit {
                old(self).addr | VADDR_HIGH_MASK
            } else {
                old(self).addr & !VADDR_HIGH_MASK
            },
    {
        let mask: u64 = ((!1u64) >> 38) << 38;
        assert(((!1u64) >> 38u64) << 38u64 == VADDR_HIGH_MASK) by (bit_vector);
        if bit {
            self.addr = self.addr | mask;
        } else {
            self.addr = self.addr & !mask;
        }
    }
}

/// Making a virtual address canonical keeps the three indexes that translate it.
pub proof fn lemma_canonical_vaddr_keeps_vpn(addr: u64)
    ensures
        spec_vpn(spec_canonical_vaddr(addr), 0) == spec_vpn(addr, 0),
        spec_vpn(spec_canonical_vaddr(addr), 1) == spec_vpn(addr, 1),
        spec_vpn(spec_canonical_vaddr(addr), 2) == spec_vpn(addr, 2),
{
    let c = spec_canonical_vaddr(addr);
    assert((((addr | 0xffff_ffc0_0000_0000u64) >> 12u64) >> 0u64) & 0x1ff == ((addr >> 12u64)
        >> 0u64) & 0x1ff) by (bit_vector);
    assert((((addr | 0xffff_ffc0_0000_0000u64) >> 12u64) >> 9u64) & 0x1ff == ((addr >> 12u64)
        >> 9u64) & 0x1ff) by (bit_vector);
    assert(((((addr >> 12u64) >> 18u64) & 0x1ff) as u16 >> 8u16) != 0 ==> (((addr
        | 0xffff_ffc0_0000_0000u64) >> 12u64) >> 18u64) & 0x1ff == ((addr >> 12u64) >> 18u64)
        & 0x1ff) by (bit_vector);
    assert((((addr & !0xffff_ffc0_0000_0000u64) >> 12u64) >> 0u64) & 0x1ff == ((addr >> 12u64)
        >> 0u64) & 0x1ff) by (bit_vector);
    assert((((addr & !0xffff_ffc0_0000_0000u64) >> 12u64) >> 9u64) & 0x1ff == ((addr >> 12u64)
        >> 9u64) & 0x1ff) by (bit_vector);
    assert(((((addr >> 12u64) >> 18u64) & 0x1ff) as u16 >> 8u16) == 0 ==> (((addr
        & !0xffff_ffc0_0000_0000u64) >> 12u64) >> 18u64) & 0x1ff == ((addr >> 12u64) >> 18u64)
        & 0x1ff) by (bit_vector);
}

/// The physical page number field of level `nb` of `addr`: 26 bits at level 2, 9 bits
/// below.
pub open spec fn spec_ppn(addr: u64, nb: u64) -> u64 {
    if nb == 2 {
        ((addr >> 12u64) >> 18u64) & 0x3fffff
    } else {
        ((addr >> 12u64) >> (nb * 9)) & 0x1ff
    }
}

/// `addr` with the bits above bit 55 set when bits 38 to 51 hold anything, cleared otherwise.
pub open spec fn spec_extended_paddr(addr: u64) -> u64 {
    if (spec_ppn(addr, 2) >> 8u64) != 0 {
        addr | PADDR_HIGH_MASK
    } else {
        addr & !PADDR_HIGH_MASK
    }
}

/// A Sv39 physical address.
#[derive(Debug, Copy, Clone, PartialEq, Eq, Structural)]
pub struct PAddr {
    pub addr: u64,
}

impl PAddr {
    /// The physical address `addr`, extended as `spec_extended_paddr` says.
    pub fn from_u64(addr: u64) -> (pa: Self)
        ensures
            pa.addr == spec_extended_paddr(addr),
    {
        let mut paddr = Self { addr };
        let bit55 = (paddr.ppn(2) >> 8) != 0;
        paddr.extend_55th_bit(bit55);
        paddr
    }

    /// The physical page number field of level `nb` of the address.
    pub fn ppn(&self, nb: usize) -> (p: u64)
        requires
            nb <= 2,
        ensures
            p == spec_ppn(self.addr, nb as u64),
    {
        let ppn = self.addr >> 12;
        if nb == 2 {
            (ppn >> 18) & 0x3fffff
        } else {
            (ppn >> ((nb * 9) as u64)) & 0x1ff
        }
    }

    /// Sets all the bits above bit 55 when `bit` is set, clears them otherwise.
    fn extend_55th_bit(&mut self, bit: bool)
        ensures
            final(self).addr == if bit {
                old(self).addr | PADDR_HIGH_MASK
            } else {
                old(self).addr & !PADDR_HIGH_MASK
            },
    {
        let mask: u64 = ((!0u64) >> 55) << 55;
        assert(((!0u64) >> 55u64) << 55u64 == PADDR_HIGH_MASK) by (bit_vector);
        if bit {
            self.addr = self.addr | mask;
        } else {
            self.addr = self.addr & !mask;
        }
    }
}

/// The bits of a page table entry that hold the physical page number.
pub const PPN_FIELD_MASK: u64 = 0x003f_ffff_ffff_fc00;

/// The bits of a physical address an entry keeps: bits 12 to 51.
pub const ENTRY_ADDR_MASK: u64 = 0x000f_ffff_ffff_f000;

/// The valid bit of an entry.
pub open spec fn spec_entry_valid(bits: u64) -> bool {
    bits & 1 == 1
}

/// The address an entry points to: its physical page number times the page size.
pub open spec fn spec_entry_target(bits: u64) -> u64 {
    (((((bits >> 28u64) & 0x3ffffff) << 18u64) | (((bits >> 19u64) & 0x1ff) << 9u64) | ((bits
        >> 10u64) & 0x1ff)) * 4096) as u64
}

/// The read, write, execute and user bits of an entry, in the order of `Permissions`.
pub open spec fn spec_entry_perms(bits: u64) -> u64 {
    (bits >> 1u64) & 0xf
}

/// An entry whose physical page number fields hold those of `paddr`.
pub open spec fn spec_with_paddr(bits: u64, paddr: u64) -> u64 {
    (bits & !PPN_FIELD_MASK) | (spec_ppn(paddr, 0) << 10u64) | (spec_ppn(paddr, 1) << 19u64) | (
    spec_ppn(paddr, 2) << 28u64)
}

/// An entry whose read, write, execute and user bits are those of `perms`.
pub open spec fn spec_with_perms(bits: u64, perms: u8) -> u64 {
    (bits & !0x1eu64) | (((perms & 0xf) as u64) << 1u64)
}

/// An entry of a Sv39 page table.
#[derive(Debug, Copy, Clone, PartialEq, Eq, Structural)]
pub struct PageTableEntry {
    pub bits: u64,
}

impl PageTableEntry {
    /// An entry with every bit clear.
    pub fn new_invalid() -> (e: Self)
        ensures
            e.bits == 0,
    {
        Self { bits: 0 }
    }

    /// Clears every bit of the entry.
    pub fn clear(&mut self)
        ensures
            final(self).bits == 0,
    {
        self.bits = 0;
    }

    /// The entry is valid.
    pub fn is_valid(&self) -> (b: bool)
        ensures
            b == spec_entry_valid(self.bits),
    {
        self.bits & 1 == 1
    }

    /// Sets the valid bit.
    pub fn set_valid(&mut self)
        ensures
            final(self).bits == old(self).bits | 1,
    {
        self.bits = self.bits | 1;
    }

    /// Sets the valid bit to `v`, 0 or 1.
    pub fn set_v(&mut self, v: u8)
        requires
            v <= 1,
        ensures
            final(self).bits == (old(self).bits & !1u64) | (v as u64),
    {
        self.bits = (self.bits & !1u64) | (v as u64);
    }

    /// Points the entry at the page of `paddr`.
    pub fn set_paddr(&mut self, paddr: &PAddr)
        ensures
            final(self).bits == spec_with_paddr(old(self).bits, paddr.addr),
    {
        let p0 = paddr.ppn(0);
        let p1 = paddr.ppn(1);
        let p2 = paddr.ppn(2);
        self.bits = (self.bits & !PPN_FIELD_MASK) | (p0 << 10) | (p1 << 19) | (p2 << 28);
    }

    /// Points the entry at the page table at address `addr`.
    pub fn set_target(&mut self, addr: u64)
        ensures
            final(self).bits == spec_with_paddr(old(self).bits, spec_extended_paddr(addr)),
    {
        self.set_paddr(&PAddr::from_u64(addr))
    }

    /// The address the entry points to.
    pub fn get_target(&self) -> (a: u64)
        ensures
            a == spec_entry_target(self.bits),
    {
        let bits = self.bits;
        let p2 = (bits >> 28) & 0x3ffffff;
        let p1 = (bits >> 19) & 0x1ff;
        let p0 = (bits >> 10) & 0x1ff;
        assert(((p2 << 18u64) | (p1 << 9u64) | p0) < 0x1000_0000_0000) by (bit_vector)
            requires
                p2 == (bits >> 28u64) & 0x3ffffff,
                p1 == (bits >> 19u64) & 0x1ff,
                p0 == (bits >> 10u64) & 0x1ff,
        ;
        ((p2 << 18) | (p1 << 9) | p0) * 4096u64
    }

    /// Sets the read, write, execute and user bits as `perms` grants them.
    pub fn set_perms(&mut self, perms: Permissions)
        ensures
            final(self).bits == spec_with_perms(old(self).bits, perms.bits),
    {
        let r: u64 = if perms.contains(Permissions::read()) {
            1
        } else {
            0
        };
        let w: u64 = if perms.contains(Permissions::write()) {
            1
        } else {
            0
        };
        let x: u64 = if perms.contains(Permissions::execute()) {
            1
        } else {
            0
        };
        let u: u64 = if perms.contains(Permissions::user()) {
            1
        } else {
            0
        };
        let b = perms.bits;
        let old_bits = self.bits;
        assert((old_bits & !0x1eu64) | (r << 1u64) | (w << 2u64) | (x << 3u64) | (u << 4u64) == (
        old_bits & !0x1eu64) | (((b & 0xf) as u64) << 1u64)) by (bit_vector)
            requires
                r == (if b & 1 == 1 {
                    1u64
                } else {
                    0u64
                }),
                w == (if b & 2 == 2 {
                    1u64
                } else {
                    0u64
                }),
                x == (if b & 4 == 4 {
                    1u64
                } else {
                    0u64
                }),
                u == (if b & 8 == 8 {
                    1u64
                } else {
                    0u64
                }),
        ;
        self.bits = (self.bits & !0x1eu64) | (r << 1) | (w << 2) | (x << 3) | (u << 4);
    }
}

/// Pointing an entry at an address and reading the target back gives bits 12 to 51 of the
/// address, whatever the rest of the entry holds.
pub proof fn lemma_target_after_set_paddr(bits: u64, addr: u64)
    ensures
        spec_entry_target(spec_with_paddr(bits, spec_extended_paddr(addr))) == addr
            & ENTRY_ADDR_MASK,
        spec_entry_valid(spec_with_paddr(bits, spec_extended_paddr(addr))) == spec_entry_valid(bits),
        spec_entry_perms(spec_with_paddr(bits, spec_extended_paddr(addr))) == spec_entry_perms(bits),
{
    let ext = spec_extended_paddr(addr);
    assert(spec_ppn(ext, 0) == spec_ppn(addr, 0) && spec_ppn(ext, 1) == spec_ppn(addr, 1)
        && spec_ppn(ext, 2) == spec_ppn(addr, 2)) by {
        assert(((((addr | 0xff80_0000_0000_0000u64) >> 12u64) >> 0u64) & 0x1ff) == (((addr >> 12u64)
            >> 0u64) & 0x1ff)) by (bit_vector);
        assert(((((addr | 0xff80_0000_0000_0000u64) >> 12u64) >> 9u64) & 0x1ff) == (((addr >> 12u64)
            >> 9u64) & 0x1ff)) by (bit_vector);
        assert(((((addr | 0xff80_0000_0000_0000u64) >> 12u64) >> 18u64) & 0x3fffff) == (((addr
            >> 12u64) >> 18u64) & 0x3fffff)) by (bit_vector);
        assert(((((addr & !0xff80_0000_0000_0000u64) >> 12u64) >> 0u64) & 0x1ff) == (((addr
            >> 12u64) >> 0u64) & 0x1ff)) by (bit_vector);
        assert(((((addr & !0xff80_0000_0000_0000u64) >> 12u64) >> 9u64) & 0x1ff) == (((addr
            >> 12u64) >> 9u64) & 0x1ff)) by (bit_vector);
        assert(((((addr & !0xff80_0000_0000_0000u64) >> 12u64) >> 18u64) & 0x3fffff) == (((addr
            >> 12u64) >> 18u64) & 0x3fffff)) by (bit_vector);
    }
    let p0 = ((addr >> 12u64) >> 0u64) & 0x1ff;
    let p1 = ((addr >> 12u64) >> 9u64) & 0x1ff;
    let p2 = ((addr >> 12u64) >> 18u64) & 0x3fffff;
    let nb = (bits & !0x003f_ffff_ffff_fc00u64) | (p0 << 10u64) | (p1 << 19u64) | (p2 << 28u64);
    assert(nb == spec_with_paddr(bits, ext));
    assert(((((((nb >> 28u64) & 0x3ffffff) << 18u64) | (((nb >> 19u64) & 0x1ff) << 9u64) | ((nb
        >> 10u64) & 0x1ff)) * 4096) as u64) == addr & 0x000f_ffff_ffff_f000u64) by (bit_vector)
        requires
            p0 == ((addr >> 12u64) >> 0u64) & 0x1ff,
            p1 == ((addr >> 12u64) >> 9u64) & 0x1ff,
            p2 == ((addr >> 12u64) >> 18u64) & 0x3fffff,
            nb == (bits & !0x003f_ffff_ffff_fc00u64) | (p0 << 10u64) | (p1 << 19u64) | (p2
                << 28u64),
    ;
    assert((nb & 1 == 1) == (bits & 1 == 1)) by (bit_vector)
        requires
            nb == (bits & !0x003f_ffff_ffff_fc00u64) | (p0 << 10u64) | (p1 << 19u64) | (p2
                << 28u64),
    ;
    assert((nb >> 1u64) & 0xf == (bits >> 1u64) & 0xf) by (bit_vector)
        requires
            nb == (bits & !0x003f_ffff_ffff_fc00u64) | (p0 << 10u64) | (p1 << 19u64) | (p2
                << 28u64),
    ;
}

/// The number of entries of a page table.
pub const ENTRIES: usize = 512;

/// The size of a page, and of a page table.
pub const PAGE_SIZE: usize = 4096;

/// A Sv39 page table: 512 entries.
pub struct PageTable {
    pub entries: Vec<PageTableEntry>,
}

impl PageTable {
    /// A table whose entries are all clear.
    pub fn zeroed() -> (t: Self)
        ensures
            t.entries@.len() == ENTRIES,
            forall|i: int| 0 <= i < ENTRIES ==> (#[trigger] t.entries@[i]).bits == 0,
    {
        let mut entries: Vec<PageTableEntry> = Vec::new();
        let mut i: usize = 0;
        while i < ENTRIES
            invariant
                i <= ENTRIES,
                entries@.len() == i,
                forall|k: int| 0 <= k < i ==> (#[trigger] entries@[k]).bits == 0,
            decreases ENTRIES - i,
        {
            entries.push(PageTableEntry::new_invalid());
            i = i + 1;
        }
        Self { entries }
    }

    /// The size of the pages the table maps.
    pub fn get_page_size() -> (s: usize)
        ensures
            s == PAGE_SIZE,
    {
        PAGE_SIZE
    }

    /// `addr` with its offset in its page cleared.
    pub fn align_down(addr: usize) -> (r: usize)
        ensures
            r == addr & !((PAGE_SIZE - 1) as usize),
            r <= addr,
            r % PAGE_SIZE == 0,
            addr - r < PAGE_SIZE,
    {
        let page_size = Self::get_page_size();
        let page_mask = !(page_size - 1);
        assert(addr & !(4095usize) <= addr) by (bit_vector);
        assert((addr & !(4095usize)) % 4096 == 0) by (bit_vector);
        assert(addr - (addr & !(4095usize)) < 4096) by (bit_vector);
        addr & page_mask
    }

    /// `addr` rounded up to the next page boundary.
    pub fn align_up(addr: usize) -> (r: usize)
        requires
            addr + PAGE_SIZE - 1 <= usize::MAX,
        ensures
            r == spec_align_up(addr as int, PAGE_SIZE as int),
    {
        let page_size = Self::get_page_size();
        ((addr + (page_size - 1)) / page_size) * page_size
    }
}

/// A page table in physical memory: its address and its level (2 for a root, 0 for the
/// tables that map pages).
pub struct TableSlot {
    pub addr: u64,
    pub level: u8,
    pub table: PageTable,
}

/// The index of the first table at `addr` from slot `k` on, or the number of tables if none.
pub open spec fn table_index_from(slots: Seq<TableSlot>, addr: u64, k: int) -> int
    decreases slots.len() - k,
{
    if k < 0 || k >= slots.len() {
        slots.len() as int
    } else if slots[k].addr == addr {
        k
    } else {
        table_index_from(slots, addr, k + 1)
    }
}

/// The table at `addr`, if there is one.
pub open spec fn table_at(slots: Seq<TableSlot>, addr: u64) -> Option<TableSlot> {
    let k = table_index_from(slots, addr, 0);
    if k < slots.len() {
        Some(slots[k])
    } else {
        None
    }
}

/// The bits of entry `i` of a table.
pub open spec fn entry_bits(slot: TableSlot, i: int) -> u64 {
    slot.table.entries@[i].bits
}

/// Where the walk for `va` goes from the table at `table_addr`, at `level`: the entry for `va`,
/// if the table exists and the entry is valid.
pub open spec fn walk_step(slots: Seq<TableSlot>, table_addr: u64, va: u64, level: u64) -> Option<u64> {
    match table_at(slots, table_addr) {
        None => None,
        Some(t) => {
            let e = entry_bits(t, spec_vpn(va, level) as int);
            if spec_entry_valid(e) {
                Some(e)
            } else {
                None
            }
        },
    }
}

/// The translation of the virtual address `va` through the tables from the root at `root`:
/// the physical address of its page and the rights of the mapping, if the walk reaches a
/// valid entry at level 0.
pub open spec fn translate(slots: Seq<TableSlot>, root: u64, va: u64) -> Option<(u64, u64)> {
    match walk_step(slots, root, va, 2) {
        None => None,
        Some(e2) => match walk_step(slots, spec_entry_target(e2), va, 1) {
            None => None,
            Some(e1) => match walk_step(slots, spec_entry_target(e1), va, 0) {
                None => None,
                Some(e0) => Some((spec_entry_target(e0), spec_entry_perms(e0))),
            },
        },
    }
}

/// Every table has its own address and 512 entries, and every valid entry of a table above
/// level 0 points to a table one level below.
pub open spec fn tables_wf(slots: Seq<TableSlot>) -> bool {
    &&& forall|i: int, j: int|
        0 <= i < slots.len() && 0 <= j < slots.len() && i != j ==> #[trigger] slots[i].addr
            != #[trigger] slots[j].addr
    &&& forall|i: int| 0 <= i < slots.len() ==> (#[trigger] slots[i]).table.entries@.len() == ENTRIES
    &&& forall|i: int| 0 <= i < slots.len() ==> (#[trigger] slots[i]).level <= 2
    &&& forall|i: int, e: int|
        0 <= i < slots.len() && 0 <= e < ENTRIES && slots[i].level > 0 && spec_entry_valid(
            #[trigger] entry_bits(slots[i], e),
        ) ==> table_at(slots, spec_entry_target(entry_bits(slots[i], e))) is Some && table_at(
            slots,
            spec_entry_target(entry_bits(slots[i], e)),
        )->0.level == slots[i].level - 1
    &&& targets_unique(slots)
}

/// No two valid entries of tables above level 0 point to the same table: the tables form a
/// tree.
pub open spec fn targets_unique(slots: Seq<TableSlot>) -> bool {
    forall|i: int, e: int, j: int, f: int|
        0 <= i < slots.len() && 0 <= j < slots.len() && 0 <= e < ENTRIES && 0 <= f < ENTRIES
            && slots[i].level > 0 && slots[j].level > 0 && (i != j || e != f) && spec_entry_valid(
            #[trigger] entry_bits(slots[i], e),
        ) && spec_entry_valid(#[trigger] entry_bits(slots[j], f)) ==> spec_entry_target(
            entry_bits(slots[i], e),
        ) != spec_entry_target(entry_bits(slots[j], f))
}

/// The walk for `va` from the root at `root` reaches a table at level 0: mapping `va` needs no
/// new table.
pub open spec fn walk_prepared(slots: Seq<TableSlot>, root: u64, va: u64) -> bool {
    &&& walk_step(slots, root, va, 2) is Some
    &&& walk_step(slots, spec_entry_target(walk_step(slots, root, va, 2)->0), va, 1) is Some
}

/// The two addresses are translated by the same entries: they lie in the same page of the
/// 2^39-byte address space.
pub open spec fn same_page_index(va: u64, vb: u64) -> bool {
    &&& spec_vpn(va, 0) == spec_vpn(vb, 0)
    &&& spec_vpn(va, 1) == spec_vpn(vb, 1)
    &&& spec_vpn(va, 2) == spec_vpn(vb, 2)
}

/// The physical pages of the manager have distinct addresses, each at a page boundary below
/// 2^52, so that a page table entry can point at any of them.
pub open spec fn pages_addressable(pages: Seq<PhysicalPage>) -> bool {
    &&& forall|i: int, j: int|
        0 <= i < pages.len() && 0 <= j < pages.len() && i != j ==> #[trigger] pages[i].base
            != #[trigger] pages[j].base
    &&& forall|i: int|
        0 <= i < pages.len() ==> (#[trigger] pages[i]).base % PAGE_SIZE == 0 && pages[i].base
            < 0x10_0000_0000_0000
}

/// Every page table lives in a page that the manager has handed out.
pub open spec fn tables_backed(slots: Seq<TableSlot>, pages: Seq<PhysicalPage>) -> bool {
    forall|i: int|
        0 <= i < slots.len() ==> exists|p: int|
            0 <= p < pages.len() && pages[p].kind == PageKind::Allocated && #[trigger] slots[i].addr
                == pages[p].base as u64
}

/// The later state of the manager only turned free pages into allocated ones.
pub open spec fn pages_only_allocated(before: Seq<PhysicalPage>, after: Seq<PhysicalPage>) -> bool {
    &&& after.len() == before.len()
    &&& forall|i: int|
        0 <= i < before.len() ==> (#[trigger] after[i]).base == before[i].base && (before[i].kind
            == PageKind::Allocated ==> after[i].kind == PageKind::Allocated) && (after[i].kind
            != before[i].kind ==> after[i].kind == PageKind::Allocated)
}

/// The page tables in physical memory.
pub struct PageTableMemory {
    tables: Vec<TableSlot>,
}

impl PageTableMemory {
    /// The tables, each at its address.
    pub closed spec fn slots(&self) -> Seq<TableSlot> {
        self.tables@
    }

    /// No table yet.
    pub fn new_empty() -> (m: Self)
        ensures
            m.slots().len() == 0,
            tables_wf(m.slots()),
    {
        Self { tables: Vec::new() }
    }

    /// The index of the table at `addr`.
    fn find_table(&self, addr: u64) -> (r: usize)
        requires
            table_at(self.slots(), addr) is Some,
        ensures
            r == table_index_from(self.slots(), addr, 0),
            r < self.slots().len(),
    {
        let mut k: usize = 0;
        proof {
            lemma_table_index_bound(self.slots(), addr, 0);
        }
        while k < self.tables.len()
            invariant
                k <= self.slots().len(),
                table_index_from(self.slots(), addr, k as int) == table_index_from(self.slots(), addr, 0),
                table_index_from(self.slots(), addr, 0) < self.slots().len(),
            decreases self.slots().len() - k,
        {
            if self.tables[k].addr == addr {
                return k;
            }
            k = k + 1;
        }
        k
    }

    /// Allocates a page from `pmm` and puts a table with all entries clear there: the new root
    /// of a page table. Fails when the manager has no free page.
    pub fn new_table(&mut self, level: u8, pmm: &mut PhysicalMemoryManager) -> (r: Result<u64, AllocatorError>)
        requires
            level <= 2,
            tables_wf(old(self).slots()),
            old(pmm).wf(),
            pages_addressable(old(pmm).pages()),
            tables_backed(old(self).slots(), old(pmm).pages()),
        ensures
            tables_wf(final(self).slots()),
            final(pmm).wf(),
            pages_addressable(final(pmm).pages()),
            tables_backed(final(self).slots(), final(pmm).pages()),
            pages_only_allocated(old(pmm).pages(), final(pmm).pages()),
            final(pmm).spec_metadata_start() == old(pmm).spec_metadata_start(),
            forall|a: u64| #[trigger] table_at(old(self).slots(), a) is Some ==> table_at(final(self).slots(), a)
                == table_at(old(self).slots(), a),
            forall|i: int|
                0 <= i < old(self).slots().len() ==> #[trigger] final(self).slots()[i] == old(self).slots()[i],
            forall|rt: u64, va: u64| #[trigger]
                translate(final(self).slots(), rt, va) == translate(old(self).slots(), rt, va),
            forall|a: u64, va: u64, l: u64|
                l <= 2 ==> #[trigger] walk_step(final(self).slots(), a, va, l) == walk_step(old(self).slots(), a, va, l),
            match r {
                Ok(addr) => final(self).slots().len() == old(self).slots().len() + 1 && final(self).slots()[old(self).slots().len() as int].addr == addr && (forall|e: int|
                    0 <= e < ENTRIES ==> !spec_entry_valid(
                        #[trigger] entry_bits(final(self).slots()[old(self).slots().len() as int], e),
                    )) && table_at(old(self).slots(), addr) is None && table_at(
                    final(self).slots(),
                    addr,
                ) is Some && table_at(final(self).slots(), addr)->0.level == level && (forall|e: int|
                    0 <= e < ENTRIES ==> !spec_entry_valid(
                        #[trigger] entry_bits(table_at(final(self).slots(), addr)->0, e),
                    )) && addr % (PAGE_SIZE as u64) == 0 && addr < 0x10_0000_0000_0000,
                Err(e) => e == AllocatorError::OutOfMemory && final(self).slots() == old(self).slots()
                    && no_free_page(final(pmm).pages()),
            },
            r is Err <==> no_free_page(old(pmm).pages()),
    {
        let page = match pmm.alloc_pages(1) {
            Ok(page) => page,
            Err(e) => {
                return Err(e);
            },
        };
        let ghost old_pages = old(pmm).pages();
        proof {
            let i = choose|i: int|
                #![trigger run_len(old_pages, i)]
                first_run_end(old_pages, 1, i) && page == old_pages[i - 1 + 1].base && pmm.pages()
                    == allocate_run(old_pages, i - 1 + 1, i);
            lemma_run_is_free_and_contiguous(old_pages, i);
            assert(old_pages[i].kind == PageKind::Free);
            assert forall|a: u64| #[trigger] table_at(self.slots(), a) is Some implies a != page as u64 by {
                let k = table_index_from(self.slots(), a, 0);
                lemma_table_index_bound(self.slots(), a, 0);
                let p = choose|p: int|
                    0 <= p < old_pages.len() && old_pages[p].kind == PageKind::Allocated
                        && #[trigger] self.slots()[k].addr == old_pages[p].base as u64;
                assert(p != i);
            }
            if table_at(self.slots(), page as u64) is Some {
                assert(false);
            }
            assert(pages_only_allocated(old_pages, pmm.pages()));
        }
        let addr = page as u64;
        let ghost before = self.slots();
        self.tables.push(TableSlot { addr, level, table: PageTable::zeroed() });
        proof {
            lemma_table_index_absent(before, addr, 0);
            assert(self.slots() == before.push(self.slots()[before.len() as int]));
            assert forall|a: u64| #[trigger] table_at(before, a) is Some implies table_at(self.slots(), a)
                == table_at(before, a) by {
                lemma_table_index_push(before, self.slots()[before.len() as int], a, 0);
                lemma_table_index_bound(before, a, 0);
                let k = table_index_from(before, a, 0);
                assert(k < before.len());
                assert(self.slots()[k] == before[k]);
            }
            lemma_table_index_push(before, self.slots()[before.len() as int], addr, 0);
            assert(table_index_from(self.slots(), addr, 0) == before.len());
            assert forall|i: int, j: int|
                0 <= i < self.slots().len() && 0 <= j < self.slots().len() && i != j implies #[trigger] self.slots()[i].addr
                    != #[trigger] self.slots()[j].addr by {
                if i == before.len() {
                    lemma_table_index_found(before, self.slots()[j].addr, j);
                } else if j == before.len() {
                    lemma_table_index_found(before, self.slots()[i].addr, i);
                }
            }
            assert forall|i: int, e: int|
                0 <= i < self.slots().len() && 0 <= e < ENTRIES && self.slots()[i].level > 0
                    && spec_entry_valid(#[trigger] entry_bits(self.slots()[i], e)) implies table_at(
                self.slots(),
                spec_entry_target(entry_bits(self.slots()[i], e)),
            ) is Some && table_at(self.slots(), spec_entry_target(entry_bits(self.slots()[i], e)))->0.level
                == self.slots()[i].level - 1 by {
                if i == before.len() {
                    assert(entry_bits(self.slots()[i], e) == 0);
                    assert(!spec_entry_valid(0u64)) by (bit_vector);
                }
                assert(i < before.len());
                assert(self.slots()[i] == before[i]);
                let t = spec_entry_target(entry_bits(before[i], e));
                assert(table_at(before, t) is Some);
            }
            assert forall|i: int| 0 <= i < self.slots().len() implies exists|p: int|
                0 <= p < pmm.pages().len() && pmm.pages()[p].kind == PageKind::Allocated
                    && #[trigger] self.slots()[i].addr == pmm.pages()[p].base as u64 by {
                if i == before.len() {
                    let j = choose|j: int|
                        #![trigger run_len(old_pages, j)]
                        first_run_end(old_pages, 1, j) && page == old_pages[j - 1 + 1].base
                            && pmm.pages() == allocate_run(old_pages, j - 1 + 1, j);
                    assert(pmm.pages()[j].kind == PageKind::Allocated);
                    assert(self.slots()[i].addr == pmm.pages()[j].base as u64);
                } else {
                    assert(self.slots()[i] == before[i]);
                    let p = choose|p: int|
                        0 <= p < old_pages.len() && old_pages[p].kind == PageKind::Allocated
                            && #[trigger] before[i].addr == old_pages[p].base as u64;
                    assert(pmm.pages()[p].kind == PageKind::Allocated);
                }
            }
            let j = choose|j: int|
                #![trigger run_len(old_pages, j)]
                first_run_end(old_pages, 1, j) && page == old_pages[j - 1 + 1].base && pmm.pages()
                    == allocate_run(old_pages, j - 1 + 1, j);
            assert(old_pages[j].base % PAGE_SIZE == 0);
            assert(old_pages[j].base < 0x10_0000_0000_0000);
            let t = table_at(self.slots(), addr)->0;
            assert(t == self.slots()[before.len() as int]);
            assert(!spec_entry_valid(0u64)) by (bit_vector);
            assert forall|e: int| 0 <= e < ENTRIES implies !spec_entry_valid(#[trigger] entry_bits(t, e)) by {
                assert(entry_bits(t, e) == 0);
            }
            assert forall|i: int, e: int, j: int, f: int|
                0 <= i < self.slots().len() && 0 <= j < self.slots().len() && 0 <= e < ENTRIES && 0
                    <= f < ENTRIES && self.slots()[i].level > 0 && self.slots()[j].level > 0 && (i
                    != j || e != f) && spec_entry_valid(#[trigger] entry_bits(self.slots()[i], e))
                    && spec_entry_valid(#[trigger] entry_bits(self.slots()[j], f)) implies spec_entry_target(
                entry_bits(self.slots()[i], e),
            ) != spec_entry_target(entry_bits(self.slots()[j], f)) by {
                if i == before.len() {
                    assert(entry_bits(self.slots()[i], e) == 0);
                }
                if j == before.len() {
                    assert(entry_bits(self.slots()[j], f) == 0);
                }
                assert(self.slots()[i] == before[i]);
                assert(self.slots()[j] == before[j]);
            }
            assert forall|rt: u64, va: u64| #[trigger] translate(self.slots(), rt, va) == translate(
                before,
                rt,
                va,
            ) by {
                lemma_push_empty_table(before, self.slots()[before.len() as int], va);
            }
            assert forall|a: u64, va: u64, l: u64| l <= 2 implies #[trigger] walk_step(self.slots(), a, va, l)
                == walk_step(before, a, va, l) by {
                lemma_push_empty_table(before, self.slots()[before.len() as int], va);
            }
        }
        Ok(addr)
    }
}

/// How the setters of an entry change what the walk reads from it: the target comes from the
/// physical address alone, the rights from the permissions alone, and the valid bit from
/// `set_valid` alone.
pub proof fn lemma_entry_fields(bits: u64, x: u64, p: u8)
    ensures
        spec_entry_target(spec_with_paddr(bits, x)) == x & ENTRY_ADDR_MASK,
        spec_entry_valid(spec_with_paddr(bits, x)) == spec_entry_valid(bits),
        spec_entry_perms(spec_with_paddr(bits, x)) == spec_entry_perms(bits),
        spec_entry_target(spec_with_perms(bits, p)) == spec_entry_target(bits),
        spec_entry_valid(spec_with_perms(bits, p)) == spec_entry_valid(bits),
        spec_entry_perms(spec_with_perms(bits, p)) == (p & 0xf) as u64,
        spec_entry_target(bits | 1) == spec_entry_target(bits),
        spec_entry_perms(bits | 1) == spec_entry_perms(bits),
        spec_entry_valid(bits | 1),
        spec_entry_target((bits & !1u64) | 0) == spec_entry_target(bits),
        !spec_entry_valid((bits & !1u64) | 0),
        spec_extended_paddr(x) & ENTRY_ADDR_MASK == x & ENTRY_ADDR_MASK,
{
    let p0 = ((x >> 12u64) >> 0u64) & 0x1ff;
    let p1 = ((x >> 12u64) >> 9u64) & 0x1ff;
    let p2 = ((x >> 12u64) >> 18u64) & 0x3fffff;
    let nb = (bits & !0x003f_ffff_ffff_fc00u64) | (p0 << 10u64) | (p1 << 19u64) | (p2 << 28u64);
    assert(nb == spec_with_paddr(bits, x));
    assert(((((((nb >> 28u64) & 0x3ffffff) << 18u64) | (((nb >> 19u64) & 0x1ff) << 9u64) | ((nb
        >> 10u64) & 0x1ff)) * 4096) as u64) == x & 0x000f_ffff_ffff_f000u64) by (bit_vector)
        requires
            p0 == ((x >> 12u64) >> 0u64) & 0x1ff,
            p1 == ((x >> 12u64) >> 9u64) & 0x1ff,
            p2 == ((x >> 12u64) >> 18u64) & 0x3fffff,
            nb == (bits & !0x003f_ffff_ffff_fc00u64) | (p0 << 10u64) | (p1 << 19u64) | (p2
                << 28u64),
    ;
    assert((nb & 1 == 1) == (bits & 1 == 1) && (nb >> 1u64) & 0xf == (bits >> 1u64) & 0xf)
        by (bit_vector)
        requires
            nb == (bits & !0x003f_ffff_ffff_fc00u64) | (p0 << 10u64) | (p1 << 19u64) | (p2
                << 28u64),
    ;
    let q = (bits & !0x1eu64) | (((p & 0xf) as u64) << 1u64);
    assert(q == spec_with_perms(bits, p));
    assert(((((((q >> 28u64) & 0x3ffffff) << 18u64) | (((q >> 19u64) & 0x1ff) << 9u64) | ((q
        >> 10u64) & 0x1ff)) * 4096) as u64) == ((((((bits >> 28u64) & 0x3ffffff) << 18u64) | (((bits
        >> 19u64) & 0x1ff) << 9u64) | ((bits >> 10u64) & 0x1ff)) * 4096) as u64)) by (bit_vector)
        requires
            q == (bits & !0x1eu64) | (((p & 0xf) as u64) << 1u64),
    ;
    assert((q & 1 == 1) == (bits & 1 == 1) && (q >> 1u64) & 0xf == (p & 0xf) as u64) by (bit_vector)
        requires
            q == (bits & !0x1eu64) | (((p & 0xf) as u64) << 1u64),
    ;
    let v = bits | 1;
    assert(((((((v >> 28u64) & 0x3ffffff) << 18u64) | (((v >> 19u64) & 0x1ff) << 9u64) | ((v
        >> 10u64) & 0x1ff)) * 4096) as u64) == ((((((bits >> 28u64) & 0x3ffffff) << 18u64) | (((bits
        >> 19u64) & 0x1ff) << 9u64) | ((bits >> 10u64) & 0x1ff)) * 4096) as u64)) by (bit_vector)
        requires
            v == bits | 1,
    ;
    assert((v >> 1u64) & 0xf == (bits >> 1u64) & 0xf && v & 1 == 1) by (bit_vector)
        requires
            v == bits | 1,
    ;
    let c = (bits & !1u64) | 0;
    assert(((((((c >> 28u64) & 0x3ffffff) << 18u64) | (((c >> 19u64) & 0x1ff) << 9u64) | ((c
        >> 10u64) & 0x1ff)) * 4096) as u64) == ((((((bits >> 28u64) & 0x3ffffff) << 18u64) | (((bits
        >> 19u64) & 0x1ff) << 9u64) | ((bits >> 10u64) & 0x1ff)) * 4096) as u64)) by (bit_vector)
        requires
            c == (bits & !1u64) | 0,
    ;
    assert(!(c & 1 == 1)) by (bit_vector)
        requires
            c == (bits & !1u64) | 0,
    ;
    assert((x | 0xff80_0000_0000_0000u64) & 0x000f_ffff_ffff_f000u64 == x & 0x000f_ffff_ffff_f000u64)
        by (bit_vector);
    assert((x & !0xff80_0000_0000_0000u64) & 0x000f_ffff_ffff_f000u64 == x & 0x000f_ffff_ffff_f000u64)
        by (bit_vector);
}

/// The walk for an address reads only the three indexes that translate it.
pub proof fn lemma_translate_by_vpn(slots: Seq<TableSlot>, root: u64, va: u64, vb: u64)
    requires
        spec_vpn(va, 0) == spec_vpn(vb, 0),
        spec_vpn(va, 1) == spec_vpn(vb, 1),
        spec_vpn(va, 2) == spec_vpn(vb, 2),
    ensures
        translate(slots, root, va) == translate(slots, root, vb),
{
}

/// A page-aligned address below 2^52 is kept whole by an entry.
pub proof fn lemma_aligned_addr_kept(addr: u64)
    requires
        addr % 4096 == 0,
        addr < 0x10_0000_0000_0000,
    ensures
        addr & ENTRY_ADDR_MASK == addr,
{
    assert(addr % 4096 == 0 && addr < 0x10_0000_0000_0000 ==> addr & 0x000f_ffff_ffff_f000u64 == addr)
        by (bit_vector);
}

/// Two sequences of tables with the same addresses find tables at the same indexes.
proof fn lemma_table_index_same_addrs(s1: Seq<TableSlot>, s2: Seq<TableSlot>, addr: u64, k: int)
    requires
        s1.len() == s2.len(),
        forall|i: int| 0 <= i < s1.len() ==> #[trigger] s1[i].addr == s2[i].addr,
    ensures
        table_index_from(s1, addr, k) == table_index_from(s2, addr, k),
    decreases s1.len() - k,
{
    if 0 <= k < s1.len() && s1[k].addr != addr {
        lemma_table_index_same_addrs(s1, s2, addr, k + 1);
    }
}

/// Changing one entry of the table at index `k` keeps the tables well-formed when the new entry
/// is not valid, or points to a table one level below.
proof fn lemma_set_entry_wf(s1: Seq<TableSlot>, s2: Seq<TableSlot>, k: int, idx: int)
    requires
        tables_wf(s1),
        0 <= k < s1.len(),
        0 <= idx < ENTRIES,
        s2.len() == s1.len(),
        forall|i: int| 0 <= i < s1.len() && i != k ==> #[trigger] s2[i] == s1[i],
        s2[k].addr == s1[k].addr,
        s2[k].level == s1[k].level,
        s2[k].table.entries@ == s1[k].table.entries@.update(idx, s2[k].table.entries@[idx]),
        s2[k].level > 0 && spec_entry_valid(entry_bits(s2[k], idx)) ==> table_at(
            s1,
            spec_entry_target(entry_bits(s2[k], idx)),
        ) is Some && table_at(s1, spec_entry_target(entry_bits(s2[k], idx)))->0.level == s2[k].level
            - 1,
        s2[k].level > 0 && spec_entry_valid(entry_bits(s2[k], idx)) ==> forall|i: int, e: int|
            0 <= i < s1.len() && 0 <= e < ENTRIES && s1[i].level > 0 && (i != k || e != idx)
                && spec_entry_valid(#[trigger] entry_bits(s1[i], e)) ==> spec_entry_target(
                entry_bits(s1[i], e),
            ) != spec_entry_target(entry_bits(s2[k], idx)),
    ensures
        tables_wf(s2),
        forall|a: u64| #[trigger] table_index_from(s2, a, 0) == table_index_from(s1, a, 0),
        forall|a: u64|
            #[trigger] table_at(s2, a) is Some <==> table_at(s1, a) is Some,
        forall|a: u64|
            table_at(s1, a) is Some ==> (#[trigger] table_at(s2, a))->0.level == table_at(s1, a)->0.level
                && table_at(s2, a)->0.addr == a,
        forall|a: u64|
            table_at(s1, a) is Some && a != s1[k].addr ==> #[trigger] table_at(s2, a) == table_at(
                s1,
                a,
            ),
{
    assert forall|i: int| 0 <= i < s1.len() implies #[trigger] s1[i].addr == s2[i].addr by {
        if i == k {
        } else {
            assert(s2[i] == s1[i]);
        }
    }
    assert forall|a: u64| #[trigger] table_index_from(s2, a, 0) == table_index_from(s1, a, 0) by {
        lemma_table_index_same_addrs(s1, s2, a, 0);
    }
    assert forall|a: u64| #[trigger] table_at(s2, a) is Some <==> table_at(s1, a) is Some by {
        lemma_table_index_same_addrs(s1, s2, a, 0);
    }
    assert forall|a: u64| table_at(s1, a) is Some implies (#[trigger] table_at(s2, a))->0.level
        == table_at(s1, a)->0.level && table_at(s2, a)->0.addr == a by {
        lemma_table_index_same_addrs(s1, s2, a, 0);
        lemma_table_index_bound(s1, a, 0);
        let j = table_index_from(s1, a, 0);
        if j != k {
            assert(s2[j] == s1[j]);
        }
    }
    assert forall|a: u64| table_at(s1, a) is Some && a != s1[k].addr implies #[trigger] table_at(
        s2,
        a,
    ) == table_at(s1, a) by {
        lemma_table_index_same_addrs(s1, s2, a, 0);
        lemma_table_index_bound(s1, a, 0);
        let j = table_index_from(s1, a, 0);
        assert(j != k);
        assert(s2[j] == s1[j]);
    }
    assert forall|i: int, j: int|
        0 <= i < s2.len() && 0 <= j < s2.len() && i != j implies #[trigger] s2[i].addr
            != #[trigger] s2[j].addr by {
        assert(s1[i].addr != s1[j].addr);
    }
    assert forall|i: int| 0 <= i < s2.len() implies (#[trigger] s2[i]).table.entries@.len() == ENTRIES by {
        if i != k {
            assert(s2[i] == s1[i]);
        }
    }
    assert forall|i: int| 0 <= i < s2.len() implies (#[trigger] s2[i]).level <= 2 by {
        if i != k {
            assert(s2[i] == s1[i]);
        }
    }
    assert forall|i: int, e: int|
        0 <= i < s2.len() && 0 <= e < ENTRIES && s2[i].level > 0 && spec_entry_valid(
            #[trigger] entry_bits(s2[i], e),
        ) implies table_at(s2, spec_entry_target(entry_bits(s2[i], e))) is Some && table_at(
        s2,
        spec_entry_target(entry_bits(s2[i], e)),
    )->0.level == s2[i].level - 1 by {
        let t = spec_entry_target(entry_bits(s2[i], e));
        if i == k && e == idx {
            assert(table_at(s1, t) is Some);
        } else {
            assert(entry_bits(s2[i], e) == entry_bits(s1[i], e));
            assert(s2[i].level == s1[i].level);
            assert(table_at(s1, t) is Some);
        }
    }
    assert forall|i: int, e: int, j: int, f: int|
        0 <= i < s2.len() && 0 <= j < s2.len() && 0 <= e < ENTRIES && 0 <= f < ENTRIES
            && s2[i].level > 0 && s2[j].level > 0 && (i != j || e != f) && spec_entry_valid(
            #[trigger] entry_bits(s2[i], e),
        ) && spec_entry_valid(#[trigger] entry_bits(s2[j], f)) implies spec_entry_target(
        entry_bits(s2[i], e),
    ) != spec_entry_target(entry_bits(s2[j], f)) by {
        if !(i == k && e == idx) {
            assert(entry_bits(s2[i], e) == entry_bits(s1[i], e));
            assert(s2[i].level == s1[i].level);
        }
        if !(j == k && f == idx) {
            assert(entry_bits(s2[j], f) == entry_bits(s1[j], f));
            assert(s2[j].level == s1[j].level);
        }
    }
}

impl PageTableMemory {
    /// Makes entry `idx` of the table at `table_addr` (a table above level 0) point to a table
    /// one level below, which it allocates from `pmm` and clears if the entry is not valid yet,
    /// and returns the address of that table.
    fn next_level(&mut self, table_addr: u64, idx: usize, pmm: &mut PhysicalMemoryManager) -> (r: Result<u64, AllocatorError>)
        requires
            tables_wf(old(self).slots()),
            table_at(old(self).slots(), table_addr) is Some,
            1 <= table_at(old(self).slots(), table_addr)->0.level <= 2,
            idx < ENTRIES,
            old(pmm).wf(),
            pages_addressable(old(pmm).pages()),
            tables_backed(old(self).slots(), old(pmm).pages()),
        ensures
            tables_wf(final(self).slots()),
            final(pmm).wf(),
            pages_addressable(final(pmm).pages()),
            tables_backed(final(self).slots(), final(pmm).pages()),
            pages_only_allocated(old(pmm).pages(), final(pmm).pages()),
            final(pmm).spec_metadata_start() == old(pmm).spec_metadata_start(),
            forall|a: u64|
                #[trigger] table_at(old(self).slots(), a) is Some ==> table_at(final(self).slots(), a)
                    is Some && table_at(final(self).slots(), a)->0.level == table_at(
                    old(self).slots(),
                    a,
                )->0.level,
            forall|a: u64|
                table_at(old(self).slots(), a) is Some && a != table_addr ==> #[trigger] table_at(
                    final(self).slots(),
                    a,
                ) == table_at(old(self).slots(), a),
            match r {
                Ok(next) => {
                    let t = table_at(final(self).slots(), table_addr)->0;
                    &&& spec_entry_valid(entry_bits(t, idx as int))
                    &&& spec_entry_target(entry_bits(t, idx as int)) == next
                    &&& table_at(final(self).slots(), next) is Some
                    &&& table_at(final(self).slots(), next)->0.level == t.level - 1
                },
                Err(e) => e == AllocatorError::OutOfMemory && no_free_page(final(pmm).pages()),
            },
            forall|rt: u64, va: u64|
                table_at(old(self).slots(), rt) is Some && table_at(old(self).slots(), rt)->0.level == 2
                    ==> #[trigger] translate(final(self).slots(), rt, va) == translate(old(self).slots(), rt, va),
            forall|a: u64, va: u64, l: u64|
                l <= 2 && walk_step(old(self).slots(), a, va, l) is Some ==> #[trigger] walk_step(
                    final(self).slots(),
                    a,
                    va,
                    l,
                ) == walk_step(old(self).slots(), a, va, l),
            spec_entry_valid(entry_bits(table_at(old(self).slots(), table_addr)->0, idx as int)) ==> r is Ok
                && final(self).slots() == old(self).slots() && *final(pmm) == *old(pmm),
    {
        let k = self.find_table(table_addr);
        proof {
            lemma_table_index_bound(self.slots(), table_addr, 0);
        }
        let e = self.tables[k].table.entries[idx];
        if !e.is_valid() {
            let level = self.tables[k].level - 1;
            let ghost s0 = self.slots();
            let new_addr = match self.new_table(level, pmm) {
                Ok(a) => a,
                Err(err) => {
                    return Err(err);
                },
            };
            let ghost s1 = self.slots();
            let k2 = self.find_table(table_addr);
            proof {
                lemma_table_index_bound(s1, table_addr, 0);
                assert(s1[k2 as int] == s0[k as int]);
                lemma_entry_fields(e.bits, spec_extended_paddr(new_addr), 0);
                lemma_entry_fields(e.bits, new_addr, 0);
                lemma_entry_fields(spec_with_paddr(e.bits, spec_extended_paddr(new_addr)), 0, 0);
                lemma_aligned_addr_kept(new_addr);
            }
            let mut e2 = e;
            e2.set_target(new_addr);
            e2.set_valid();
            self.tables[k2].table.entries.set(idx, e2);
            proof {
                let s2 = self.slots();
                assert(s2[k2 as int].table.entries@ =~= s1[k2 as int].table.entries@.update(
                    idx as int,
                    s2[k2 as int].table.entries@[idx as int],
                ));
                assert(entry_bits(s2[k2 as int], idx as int) == e2.bits);
                lemma_set_entry_wf(s1, s2, k2 as int, idx as int);
                assert(s1[k2 as int] == s0[k as int]);
                assert(!spec_entry_valid(entry_bits(s1[k2 as int], idx as int)));
                assert forall|rt: u64, va: u64|
                    table_at(s0, rt) is Some && table_at(s0, rt)->0.level == 2 implies #[trigger] translate(
                    s2,
                    rt,
                    va,
                ) == translate(s0, rt, va) by {
                    assert(translate(s1, rt, va) == translate(s0, rt, va));
                    lemma_link_empty_table(s1, s2, k2 as int, idx as int, rt, va);
                }
                assert forall|a: u64, va: u64, l: u64|
                    l <= 2 && walk_step(s0, a, va, l) is Some implies #[trigger] walk_step(s2, a, va, l)
                        == walk_step(s0, a, va, l) by {
                    assert(walk_step(s1, a, va, l) == walk_step(s0, a, va, l));
                    lemma_set_clear_entry_keeps_walks(s1, s2, k2 as int, idx as int, a, va, l);
                }
                assert forall|i: int| 0 <= i < s2.len() implies exists|p: int|
                    0 <= p < pmm.pages().len() && pmm.pages()[p].kind == PageKind::Allocated
                        && #[trigger] s2[i].addr == pmm.pages()[p].base as u64 by {
                    assert(s2[i].addr == s1[i].addr);
                    let p = choose|p: int|
                        0 <= p < pmm.pages().len() && pmm.pages()[p].kind == PageKind::Allocated
                            && #[trigger] s1[i].addr == pmm.pages()[p].base as u64;
                }
            }
        }
        let k3 = self.find_table(table_addr);
        proof {
            lemma_table_index_bound(self.slots(), table_addr, 0);
            let t = self.slots()[k3 as int];
            assert(spec_entry_valid(entry_bits(t, idx as int)));
            assert(t.level > 0);
        }
        Ok(self.tables[k3].table.entries[idx].get_target())
    }

    /// Maps the page of the virtual address `vaddr` to the page of the physical address
    /// `paddr` with the rights `perms`, in the page table whose root is at `root`, allocating
    /// the tables it needs on the way from `pmm`. Fails when the manager has no free page left.
    pub fn map_inner(
        &mut self,
        root: u64,
        paddr: PAddr,
        vaddr: VAddr,
        perms: Permissions,
        pmm: &mut PhysicalMemoryManager,
    ) -> (r: Result<(), AllocatorError>)
        requires
            tables_wf(old(self).slots()),
            table_at(old(self).slots(), root) is Some,
            table_at(old(self).slots(), root)->0.level == 2,
            old(pmm).wf(),
            pages_addressable(old(pmm).pages()),
            tables_backed(old(self).slots(), old(pmm).pages()),
        ensures
            tables_wf(final(self).slots()),
            table_at(final(self).slots(), root) is Some,
            table_at(final(self).slots(), root)->0.level == 2,
            final(pmm).wf(),
            pages_addressable(final(pmm).pages()),
            tables_backed(final(self).slots(), final(pmm).pages()),
            pages_only_allocated(old(pmm).pages(), final(pmm).pages()),
            final(pmm).spec_metadata_start() == old(pmm).spec_metadata_start(),
            forall|a: u64|
                #[trigger] table_at(old(self).slots(), a) is Some ==> table_at(final(self).slots(), a)
                    is Some && table_at(final(self).slots(), a)->0.level == table_at(
                    old(self).slots(),
                    a,
                )->0.level,
            match r {
                Ok(_) => translate(final(self).slots(), root, vaddr.addr) == Some(
                    (paddr.addr & ENTRY_ADDR_MASK, (perms.bits & 0xf) as u64),
                ),
                Err(e) => e == AllocatorError::OutOfMemory && no_free_page(final(pmm).pages()),
            },
            forall|vb: u64|
                !same_page_index(vaddr.addr, vb) ==> #[trigger] translate(final(self).slots(), root, vb)
                    == translate(old(self).slots(), root, vb),
            r is Err ==> forall|vb: u64| #[trigger]
                translate(final(self).slots(), root, vb) == translate(old(self).slots(), root, vb),
            walk_prepared(old(self).slots(), root, vaddr.addr) ==> r is Ok && *final(pmm) == *old(pmm),
            forall|vb: u64|
                walk_prepared(old(self).slots(), root, vb) ==> #[trigger] walk_prepared(
                    final(self).slots(),
                    root,
                    vb,
                ),
            r is Ok ==> walk_prepared(final(self).slots(), root, vaddr.addr),
    {
        let ghost s0 = self.slots();
        let ghost p0 = *pmm;
        proof {
            lemma_vpn_bound(vaddr.addr);
        }
        let a1 = match self.next_level(root, vaddr.vpn(2) as usize, pmm) {
            Ok(a) => a,
            Err(e) => {
                return Err(e);
            },
        };
        let ghost s1 = self.slots();
        let a0 = match self.next_level(a1, vaddr.vpn(1) as usize, pmm) {
            Ok(a) => a,
            Err(e) => {
                proof {
                    assert forall|vb: u64| walk_prepared(s0, root, vb) implies #[trigger] walk_prepared(
                        self.slots(),
                        root,
                        vb,
                    ) by {
                        assert(walk_step(s1, root, vb, 2) == walk_step(s0, root, vb, 2));
                        let t1 = spec_entry_target(walk_step(s0, root, vb, 2)->0);
                        assert(walk_step(s1, t1, vb, 1) == walk_step(s0, t1, vb, 1));
                    }
                }
                return Err(e);
            },
        };
        let ghost s2 = self.slots();
        proof {
            assert(root != a1);
            assert(table_at(s2, root) == table_at(s1, root));
        }
        let k = self.find_table(a0);
        proof {
            lemma_table_index_bound(self.slots(), a0, 0);
        }
        let idx = vaddr.vpn(0) as usize;
        let mut pte = self.tables[k].table.entries[idx];
        proof {
            lemma_entry_fields(pte.bits, paddr.addr, perms.bits);
            lemma_entry_fields(spec_with_paddr(pte.bits, paddr.addr), 0, perms.bits);
            lemma_entry_fields(spec_with_perms(spec_with_paddr(pte.bits, paddr.addr), perms.bits), 0, 0);
        }
        pte.set_paddr(&paddr);
        pte.set_perms(perms);
        pte.set_valid();
        self.tables[k].table.entries.set(idx, pte);
        proof {
            let s3 = self.slots();
            assert(s3[k as int].table.entries@ =~= s2[k as int].table.entries@.update(
                idx as int,
                s3[k as int].table.entries@[idx as int],
            ));
            assert(s2[k as int].level == 0);
            lemma_set_entry_wf(s2, s3, k as int, idx as int);
            assert(a0 != root);
            assert(a0 != a1);
            assert(table_at(s3, root) == table_at(s2, root));
            assert(table_at(s3, a1) == table_at(s2, a1));
            assert forall|i: int| 0 <= i < s3.len() implies exists|p: int|
                0 <= p < pmm.pages().len() && pmm.pages()[p].kind == PageKind::Allocated
                    && #[trigger] s3[i].addr == pmm.pages()[p].base as u64 by {
                assert(s3[i].addr == s2[i].addr);
                let p = choose|p: int|
                    0 <= p < pmm.pages().len() && pmm.pages()[p].kind == PageKind::Allocated
                        && #[trigger] s2[i].addr == pmm.pages()[p].base as u64;
            }
            assert(table_index_from(s3, a0, 0) == k);
            assert(entry_bits(table_at(s3, a0)->0, idx as int) == pte.bits);
            lemma_vpn_bound(vaddr.addr);
            assert(walk_step(s2, root, vaddr.addr, 2) is Some);
            assert(spec_entry_target(walk_step(s2, root, vaddr.addr, 2)->0) == a1);
            assert(walk_step(s2, a1, vaddr.addr, 1) is Some);
            assert(spec_entry_target(walk_step(s2, a1, vaddr.addr, 1)->0) == a0);
            assert(s2[k as int].addr == a0);
            assert forall|vb: u64| !same_page_index(vaddr.addr, vb) implies #[trigger] translate(s3, root, vb)
                == translate(s0, root, vb) by {
                assert(translate(s1, root, vb) == translate(s0, root, vb));
                assert(translate(s2, root, vb) == translate(s1, root, vb));
                lemma_set_leaf_frame(s2, s3, k as int, idx as int, root, vaddr.addr, vb);
            }
            if walk_prepared(s0, root, vaddr.addr) {
                assert(*pmm == p0);
            }
            assert forall|vb: u64| #[trigger] walk_prepared(s2, root, vb) implies walk_prepared(s3, root, vb) by {
                lemma_leaf_set_keeps_prepared(s2, s3, k as int, idx as int, root, vb);
            }
            assert forall|vb: u64| walk_prepared(s0, root, vb) implies #[trigger] walk_prepared(s3, root, vb) by {
                assert(walk_step(s1, root, vb, 2) == walk_step(s0, root, vb, 2));
                let t1 = spec_entry_target(walk_step(s0, root, vb, 2)->0);
                assert(walk_step(s1, t1, vb, 1) == walk_step(s0, t1, vb, 1));
                assert(walk_step(s2, root, vb, 2) == walk_step(s1, root, vb, 2));
                assert(walk_step(s2, t1, vb, 1) == walk_step(s1, t1, vb, 1));
                assert(walk_prepared(s2, root, vb));
            }
            assert(walk_prepared(s2, root, vaddr.addr));
        }
        Ok(())
    }
}

impl PageTableMemory {
    /// Allocates a page from `pmm` for the root of a new page table, with all entries clear.
    pub fn new_root(&mut self, pmm: &mut PhysicalMemoryManager) -> (r: Result<u64, AllocatorError>)
        requires
            tables_wf(old(self).slots()),
            old(pmm).wf(),
            pages_addressable(old(pmm).pages()),
            tables_backed(old(self).slots(), old(pmm).pages()),
        ensures
            tables_wf(final(self).slots()),
            final(pmm).wf(),
            pages_addressable(final(pmm).pages()),
            tables_backed(final(self).slots(), final(pmm).pages()),
            pages_only_allocated(old(pmm).pages(), final(pmm).pages()),
            final(pmm).spec_metadata_start() == old(pmm).spec_metadata_start(),
            match r {
                Ok(root) => table_at(old(self).slots(), root) is None && table_at(final(self).slots(), root) is Some
                    && root < 0x10_0000_0000_0000 && table_at(final(self).slots(), root)->0.level == 2 && forall|va: u64|
                    translate(final(self).slots(), root, va) is None,
                Err(e) => e == AllocatorError::OutOfMemory && final(self).slots() == old(self).slots()
                    && no_free_page(final(pmm).pages()),
            },
            r is Err <==> no_free_page(old(pmm).pages()),
    {
        let r = self.new_table(2, pmm);
        proof {
            if let Ok(root) = r {
                assert forall|va: u64| translate(self.slots(), root, va) is None by {
                    let t = table_at(self.slots(), root)->0;
                    lemma_vpn_bound(va);
                    let e = spec_vpn(va, 2) as int;
                    assert(!spec_entry_valid(entry_bits(t, e)));
                }
            }
        }
        r
    }

    /// Maps the page of the virtual address `va` to the page of the physical address `pa`
    /// with the rights `perms`, in the page table whose root is at `root`, allocating the
    /// tables it needs from `pmm`. Fails when the manager has no free page left.
    pub fn map(
        &mut self,
        root: u64,
        pa: mm::PAddr,
        va: mm::VAddr,
        perms: Permissions,
        pmm: &mut PhysicalMemoryManager,
    ) -> (r: Result<(), AllocatorError>)
        requires
            tables_wf(old(self).slots()),
            table_at(old(self).slots(), root) is Some,
            table_at(old(self).slots(), root)->0.level == 2,
            old(pmm).wf(),
            pages_addressable(old(pmm).pages()),
            tables_backed(old(self).slots(), old(pmm).pages()),
        ensures
            tables_wf(final(self).slots()),
            table_at(final(self).slots(), root) is Some,
            table_at(final(self).slots(), root)->0.level == 2,
            final(pmm).wf(),
            pages_addressable(final(pmm).pages()),
            tables_backed(final(self).slots(), final(pmm).pages()),
            pages_only_allocated(old(pmm).pages(), final(pmm).pages()),
            final(pmm).spec_metadata_start() == old(pmm).spec_metadata_start(),
            match r {
                Ok(_) => translate(final(self).slots(), root, va.val as u64) == Some(
                    ((pa.val as u64) & ENTRY_ADDR_MASK, (perms.bits & 0xf) as u64),
                ),
                Err(e) => e == AllocatorError::OutOfMemory && no_free_page(final(pmm).pages()),
            },
            forall|vb: u64|
                !same_page_index(va.val as u64, vb) ==> #[trigger] translate(final(self).slots(), root, vb)
                    == translate(old(self).slots(), root, vb),
            r is Err ==> forall|vb: u64| #[trigger]
                translate(final(self).slots(), root, vb) == translate(old(self).slots(), root, vb),
            walk_prepared(old(self).slots(), root, va.val as u64) ==> r is Ok && *final(pmm) == *old(pmm),
            forall|vb: u64|
                walk_prepared(old(self).slots(), root, vb) ==> #[trigger] walk_prepared(
                    final(self).slots(),
                    root,
                    vb,
                ),
            r is Ok ==> walk_prepared(final(self).slots(), root, va.val as u64),
    {
        let paddr = PAddr::from_u64(pa.val as u64);
        let vaddr = VAddr::from_u64(va.val as u64);
        let r = self.map_inner(root, paddr, vaddr, perms, pmm);
        proof {
            lemma_canonical_vaddr_keeps_vpn(va.val as u64);
            lemma_translate_by_vpn(self.slots(), root, vaddr.addr, va.val as u64);
            lemma_entry_fields(0, pa.val as u64, 0);
        }
        r
    }

    /// The address of the level-0 table the walk for `va` reaches.
    fn leaf_table(&self, root: u64, va: VAddr) -> (a: u64)
        requires
            tables_wf(self.slots()),
            translate(self.slots(), root, va.addr) is Some,
        ensures
            table_at(self.slots(), a) is Some,
            walk_step(self.slots(), a, va.addr, 0) is Some,
            ({
                let e2 = walk_step(self.slots(), root, va.addr, 2)->0;
                let e1 = walk_step(self.slots(), spec_entry_target(e2), va.addr, 1)->0;
                a == spec_entry_target(e1)
            }),
    {
        let k2 = self.find_table(root);
        proof {
            lemma_table_index_bound(self.slots(), root, 0);
        }
        let a1 = self.tables[k2].table.entries[va.vpn(2) as usize].get_target();
        let k1 = self.find_table(a1);
        proof {
            lemma_table_index_bound(self.slots(), a1, 0);
        }
        self.tables[k1].table.entries[va.vpn(1) as usize].get_target()
    }

    /// Makes the page of `vaddr` not mapped, keeping the tables of the walk for it (allocating
    /// them from `pmm` if needed) so that mapping it later needs no allocation.
    pub fn add_invalid_entry(&mut self, root: u64, vaddr: mm::VAddr, pmm: &mut PhysicalMemoryManager) -> (r: Result<(), AllocatorError>)
        requires
            tables_wf(old(self).slots()),
            table_at(old(self).slots(), root) is Some,
            table_at(old(self).slots(), root)->0.level == 2,
            old(pmm).wf(),
            pages_addressable(old(pmm).pages()),
            tables_backed(old(self).slots(), old(pmm).pages()),
        ensures
            tables_wf(final(self).slots()),
            table_at(final(self).slots(), root) is Some,
            table_at(final(self).slots(), root)->0.level == 2,
            final(pmm).wf(),
            pages_addressable(final(pmm).pages()),
            tables_backed(final(self).slots(), final(pmm).pages()),
            pages_only_allocated(old(pmm).pages(), final(pmm).pages()),
            final(pmm).spec_metadata_start() == old(pmm).spec_metadata_start(),
            match r {
                Ok(_) => translate(final(self).slots(), root, vaddr.val as u64) is None && walk_prepared(
                    final(self).slots(),
                    root,
                    vaddr.val as u64,
                ),
                Err(e) => e == AllocatorError::OutOfMemory && no_free_page(final(pmm).pages()),
            },
            walk_prepared(old(self).slots(), root, vaddr.val as u64) ==> r is Ok && *final(pmm) == *old(pmm),
            forall|vb: u64|
                walk_prepared(old(self).slots(), root, vb) ==> #[trigger] walk_prepared(
                    final(self).slots(),
                    root,
                    vb,
                ),
            forall|vb: u64|
                !same_page_index(vaddr.val as u64, vb) ==> #[trigger] translate(final(self).slots(), root, vb)
                    == translate(old(self).slots(), root, vb),
            r is Err ==> forall|vb: u64| #[trigger]
                translate(final(self).slots(), root, vb) == translate(old(self).slots(), root, vb),
    {
        let ghost s0 = self.slots();
        let va = VAddr::from_u64(vaddr.val as u64);
        proof {
            lemma_canonical_vaddr_keeps_vpn(vaddr.val as u64);
        }
        match self.map_inner(root, PAddr::from_u64(0x0A0A_0A0A_0A0A_0A0A), va, Permissions::read(), pmm) {
            Ok(_) => {},
            Err(e) => {
                return Err(e);
            },
        }
        let ghost s1 = self.slots();
        let a0 = self.leaf_table(root, va);
        let k = self.find_table(a0);
        proof {
            lemma_table_index_bound(self.slots(), a0, 0);
        }
        let idx = va.vpn(0) as usize;
        let mut pte = self.tables[k].table.entries[idx];
        proof {
            lemma_entry_fields(pte.bits, 0, 0);
        }
        pte.set_v(0);
        self.tables[k].table.entries.set(idx, pte);
        proof {
            let s2 = self.slots();
            assert(s2[k as int].table.entries@ =~= s1[k as int].table.entries@.update(
                idx as int,
                s2[k as int].table.entries@[idx as int],
            ));
            lemma_vpn_bound(va.addr);
            let e2 = walk_step(s1, root, va.addr, 2)->0;
            let i2 = table_index_from(s1, root, 0);
            lemma_table_index_bound(s1, root, 0);
            assert(spec_entry_valid(entry_bits(s1[i2], spec_vpn(va.addr, 2) as int)));
            let a1 = spec_entry_target(e2);
            assert(table_at(s1, a1)->0.level == 1);
            let i1 = table_index_from(s1, a1, 0);
            lemma_table_index_bound(s1, a1, 0);
            assert(spec_entry_valid(entry_bits(s1[i1], spec_vpn(va.addr, 1) as int)));
            assert(table_at(s1, a0)->0.level == 0);
            assert(s1[k as int].level == 0);
            lemma_set_entry_wf(s1, s2, k as int, idx as int);
            assert(a0 != root);
            assert(a0 != a1);
            assert(table_at(s2, root) == table_at(s1, root));
            assert(table_at(s2, a1) == table_at(s1, a1));
            assert(table_index_from(s2, a0, 0) == k);
            assert(entry_bits(table_at(s2, a0)->0, idx as int) == pte.bits);
            assert forall|i: int| 0 <= i < s2.len() implies exists|p: int|
                0 <= p < pmm.pages().len() && pmm.pages()[p].kind == PageKind::Allocated
                    && #[trigger] s2[i].addr == pmm.pages()[p].base as u64 by {
                assert(s2[i].addr == s1[i].addr);
                let p = choose|p: int|
                    0 <= p < pmm.pages().len() && pmm.pages()[p].kind == PageKind::Allocated
                        && #[trigger] s1[i].addr == pmm.pages()[p].base as u64;
            }
            lemma_translate_by_vpn(s2, root, va.addr, vaddr.val as u64);
            assert forall|vb: u64| !same_page_index(vaddr.val as u64, vb) implies #[trigger] translate(
                s2,
                root,
                vb,
            ) == translate(s0, root, vb) by {
                assert(translate(s1, root, vb) == translate(s0, root, vb));
                lemma_set_leaf_frame(s1, s2, k as int, idx as int, root, va.addr, vb);
            }
            assert forall|vb: u64| walk_prepared(s0, root, vb) implies #[trigger] walk_prepared(s2, root, vb) by {
                assert(walk_prepared(s1, root, vb));
                lemma_leaf_set_keeps_prepared(s1, s2, k as int, idx as int, root, vb);
            }
            lemma_leaf_set_keeps_prepared(s1, s2, k as int, idx as int, root, va.addr);
        }
        Ok(())
    }
}

impl PageTableMemory {
    /// The entry for `va` of the table at `table_addr`, at `level`, if the table exists and the
    /// entry is valid.
    fn walk(&self, table_addr: u64, va: u64, level: usize) -> (r: Option<u64>)
        requires
            level <= 2,
            tables_wf(self.slots()),
        ensures
            r == walk_step(self.slots(), table_addr, va, level as u64),
    {
        let mut k: usize = 0;
        proof {
            lemma_table_index_bound(self.slots(), table_addr, 0);
        }
        while k < self.tables.len()
            invariant
                k <= self.slots().len(),
                level <= 2,
                tables_wf(self.slots()),
                table_index_from(self.slots(), table_addr, k as int) == table_index_from(self.slots(), table_addr, 0),
            decreases self.slots().len() - k,
        {
            if self.tables[k].addr == table_addr {
                proof {
                    lemma_vpn_bound(va);
                    assert(self.slots()[k as int].table.entries@.len() == ENTRIES);
                }
                let vaddr = VAddr { addr: va };
                let e = self.tables[k].table.entries[vaddr.vpn(level) as usize];
                proof {
                    lemma_vpn_bound(va);
                }
                if e.is_valid() {
                    return Some(e.bits);
                } else {
                    return None;
                }
            }
            k = k + 1;
        }
        None
    }

    /// Whether the walk for `va` from the root at `root` reaches a table at level 0, so that
    /// mapping `va` needs no allocation.
    pub fn is_prepared(&self, root: u64, va: u64) -> (b: bool)
        requires
            tables_wf(self.slots()),
        ensures
            b == walk_prepared(self.slots(), root, va),
    {
        match self.walk(root, va, 2) {
            Some(e2) => self.walk(PageTableEntry { bits: e2 }.get_target(), va, 1).is_some(),
            None => false,
        }
    }

    /// The translation of the virtual address `va` through the tables from the root at `root`:
    /// the physical address of its page and the rights of the mapping, if it is mapped.
    pub fn translate(&self, root: u64, va: u64) -> (r: Option<(u64, u64)>)
        requires
            tables_wf(self.slots()),
        ensures
            r == translate(self.slots(), root, va),
    {
        let e2 = match self.walk(root, va, 2) {
            Some(e) => e,
            None => {
                return None;
            },
        };
        let e1 = match self.walk(PageTableEntry { bits: e2 }.get_target(), va, 1) {
            Some(e) => e,
            None => {
                return None;
            },
        };
        let e0 = match self.walk(PageTableEntry { bits: e1 }.get_target(), va, 0) {
            Some(e) => e,
            None => {
                return None;
            },
        };
        let perms = (e0 >> 1) & 0xf;
        Some((PageTableEntry { bits: e0 }.get_target(), perms))
    }
}

/// The translation modes of the `satp` register.
#[derive(Debug, Copy, Clone, PartialEq, Eq, Structural)]
pub enum SatpMode {
    Bare,
    Sv39,
    _Sv48,
    _Sv57,
    _Sv64,
}

/// The value of the mode field for `mode`.
pub open spec fn spec_mode_value(mode: SatpMode) -> u64 {
    match mode {
        SatpMode::Bare => 0u64,
        SatpMode::Sv39 => 8,
        SatpMode::_Sv48 => 9,
        SatpMode::_Sv57 => 10,
        SatpMode::_Sv64 => 11,
    }
}

impl SatpMode {
    /// The value of the mode field for the mode.
    pub fn value(&self) -> (v: u64)
        ensures
            v == spec_mode_value(*self),
    {
        match self {
            SatpMode::Bare => 0,
            SatpMode::Sv39 => 8,
            SatpMode::_Sv48 => 9,
            SatpMode::_Sv57 => 10,
            SatpMode::_Sv64 => 11,
        }
    }
}

/// The `satp` register: the physical page number of the root table in bits 0 to 43, the
/// address space id in bits 44 to 59, the mode in bits 60 to 63.
pub open spec fn spec_satp(ppn: u64, asid: u64, mode: u64) -> u64 {
    ppn | (asid << 44u64) | (mode << 60u64)
}

/// The value of the `satp` register for these fields.
pub fn satp_value(ppn: u64, asid: u64, mode: SatpMode) -> (v: u64)
    requires
        ppn < 0x1000_0000_0000,
        asid < 0x1_0000,
    ensures
        v == spec_satp(ppn, asid, spec_mode_value(mode)),
{
    ppn | (asid << 44) | (mode.value() << 60)
}

/// The value of `satp` that turns Sv39 translation on with the root table at `pt_addr`.
pub fn load_pt(pt_addr: u64) -> (v: u64)
    requires
        pt_addr < 0x100_0000_0000_0000,
    ensures
        v == spec_satp(pt_addr >> 12u64, 0, 8),
{
    let ppn = pt_addr >> 12;
    assert(pt_addr < 0x100_0000_0000_0000 ==> pt_addr >> 12u64 < 0x1000_0000_0000) by (bit_vector);
    satp_value(ppn, 0, SatpMode::Sv39)
}

/// The value of `satp` that turns translation off.
pub fn disable() -> (v: u64)
    ensures
        v == spec_satp(0, 0, 0),
{
    satp_value(0, 0, SatpMode::Bare)
}

/// The indexes that translate an address are below 512.
pub proof fn lemma_vpn_bound(va: u64)
    ensures
        spec_vpn(va, 0) < 512,
        spec_vpn(va, 1) < 512,
        spec_vpn(va, 2) < 512,
{
    assert(((va >> 12u64) >> 0u64) & 0x1ff < 512) by (bit_vector);
    assert(((va >> 12u64) >> 9u64) & 0x1ff < 512) by (bit_vector);
    assert(((va >> 12u64) >> 18u64) & 0x1ff < 512) by (bit_vector);
}

proof fn lemma_table_index_bound(slots: Seq<TableSlot>, addr: u64, k: int)
    requires
        0 <= k,
    ensures
        k <= table_index_from(slots, addr, k) <= slots.len() || (k > slots.len()
            && table_index_from(slots, addr, k) == slots.len()),
        table_index_from(slots, addr, k) < slots.len() ==> slots[table_index_from(slots, addr, k)].addr
            == addr,
        forall|j: int|
            k <= j < table_index_from(slots, addr, k) && j < slots.len() ==> slots[j].addr != addr,
    decreases slots.len() - k,
{
    if k < slots.len() && slots[k].addr != addr {
        lemma_table_index_bound(slots, addr, k + 1);
    }
}

proof fn lemma_table_index_found(slots: Seq<TableSlot>, addr: u64, j: int)
    requires
        0 <= j < slots.len(),
        slots[j].addr == addr,
    ensures
        table_index_from(slots, addr, 0) <= j,
        table_at(slots, addr) is Some,
{
    lemma_table_index_bound(slots, addr, 0);
}

proof fn lemma_table_index_absent(slots: Seq<TableSlot>, addr: u64, k: int)
    requires
        0 <= k,
        table_index_from(slots, addr, k) >= slots.len(),
    ensures
        forall|j: int| k <= j < slots.len() ==> slots[j].addr != addr,
{
    lemma_table_index_bound(slots, addr, k);
}

proof fn lemma_table_index_push(slots: Seq<TableSlot>, slot: TableSlot, addr: u64, k: int)
    requires
        0 <= k <= slots.len(),
    ensures
        table_index_from(slots, addr, k) < slots.len() ==> table_index_from(slots.push(slot), addr, k)
            == table_index_from(slots, addr, k),
        table_index_from(slots, addr, k) >= slots.len() ==> table_index_from(slots.push(slot), addr, k)
            == (if slot.addr == addr {
            slots.len() as int
        } else {
            slots.len() as int + 1
        }),
    decreases slots.len() - k,
{
    let pushed = slots.push(slot);
    if k < slots.len() {
        assert(pushed[k] == slots[k]);
        if slots[k].addr != addr {
            lemma_table_index_push(slots, slot, addr, k + 1);
        }
    } else {
        assert(pushed[k] == slot);
        if slot.addr != addr {
            assert(table_index_from(pushed, addr, k + 1) == pushed.len());
        }
    }
}

/// Adding a table whose entries are all clear, at an address where no table was, changes no
/// translation.
proof fn lemma_push_empty_table(s1: Seq<TableSlot>, slot: TableSlot, va: u64)
    requires
        table_at(s1, slot.addr) is None,
        slot.table.entries@.len() == ENTRIES,
        forall|e: int| 0 <= e < ENTRIES ==> !spec_entry_valid(#[trigger] entry_bits(slot, e)),
    ensures
        forall|rt: u64| #[trigger] translate(s1.push(slot), rt, va) == translate(s1, rt, va),
        forall|a: u64, l: u64| l <= 2 ==> #[trigger] walk_step(s1.push(slot), a, va, l) == walk_step(s1, a, va, l),
{
    let s2 = s1.push(slot);
    lemma_vpn_bound(va);
    assert forall|a: u64, l: u64| l <= 2 implies #[trigger] walk_step(s2, a, va, l) == walk_step(
        s1,
        a,
        va,
        l,
    ) by {
        lemma_table_index_push(s1, slot, a, 0);
        lemma_table_index_bound(s1, a, 0);
        let k = table_index_from(s1, a, 0);
        if k < s1.len() {
            assert(s2[k] == s1[k]);
        } else if a == slot.addr {
            assert(s2[s1.len() as int] == slot);
            if l == 0 {
            } else if l == 1 {
            } else {
            }
        }
    }
}

/// Making a clear entry of a table above level 0 point to a table whose entries are all clear
/// leaves what every address translates to, from a root, as it was.
proof fn lemma_link_empty_table(s1: Seq<TableSlot>, s2: Seq<TableSlot>, k: int, idx: int, rt: u64, va: u64)
    requires
        tables_wf(s1),
        0 <= k < s1.len(),
        0 <= idx < ENTRIES,
        s2.len() == s1.len(),
        forall|i: int| 0 <= i < s1.len() && i != k ==> #[trigger] s2[i] == s1[i],
        s2[k].addr == s1[k].addr,
        s2[k].level == s1[k].level,
        s2[k].table.entries@ == s1[k].table.entries@.update(idx, s2[k].table.entries@[idx]),
        s1[k].level > 0,
        !spec_entry_valid(entry_bits(s1[k], idx)),
        table_at(s1, spec_entry_target(entry_bits(s2[k], idx))) is Some,
        spec_entry_target(entry_bits(s2[k], idx)) != s1[k].addr,
        forall|e: int|
            0 <= e < ENTRIES ==> !spec_entry_valid(
                #[trigger] entry_bits(table_at(s1, spec_entry_target(entry_bits(s2[k], idx)))->0, e),
            ),
        table_at(s1, rt) is Some,
        table_at(s1, rt)->0.level == 2,
    ensures
        translate(s2, rt, va) == translate(s1, rt, va),
{
    let a = s1[k].addr;
    let t = spec_entry_target(entry_bits(s2[k], idx));
    lemma_vpn_bound(va);
    assert forall|i: int| 0 <= i < s1.len() implies #[trigger] s1[i].addr == s2[i].addr by {
        if i != k {
            assert(s2[i] == s1[i]);
        }
    }
    lemma_table_index_found(s1, a, k);
    lemma_table_index_bound(s1, a, 0);
    assert(table_index_from(s1, a, 0) == k);
    lemma_table_index_same_addrs(s1, s2, a, 0);
    assert forall|b: u64| b != a implies #[trigger] table_at(s2, b) == table_at(s1, b) by {
        lemma_table_index_same_addrs(s1, s2, b, 0);
        lemma_table_index_bound(s1, b, 0);
        let j = table_index_from(s1, b, 0);
        if j < s1.len() {
            assert(j != k);
            assert(s2[j] == s1[j]);
        }
    }
    assert forall|l: u64| l <= 2 implies #[trigger] walk_step(s2, t, va, l) is None by {
        assert(table_at(s2, t) == table_at(s1, t));
        if l == 0 {
        } else if l == 1 {
        } else {
        }
    }
    assert forall|b: u64, l: u64| l <= 2 && (b != a || spec_vpn(va, l) != idx) implies #[trigger] walk_step(
        s2,
        b,
        va,
        l,
    ) == walk_step(s1, b, va, l) by {
        if b == a {
            assert(table_at(s2, a)->0 == s2[k]);
            assert(table_at(s1, a)->0 == s1[k]);
            if l == 0 {
                assert(entry_bits(s2[k], spec_vpn(va, 0) as int) == entry_bits(s1[k], spec_vpn(va, 0) as int));
            } else if l == 1 {
                assert(entry_bits(s2[k], spec_vpn(va, 1) as int) == entry_bits(s1[k], spec_vpn(va, 1) as int));
            } else {
                assert(entry_bits(s2[k], spec_vpn(va, 2) as int) == entry_bits(s1[k], spec_vpn(va, 2) as int));
            }
        }
    }
    if rt == a && spec_vpn(va, 2) == idx {
        assert(table_at(s1, a)->0 == s1[k]);
        assert(walk_step(s1, rt, va, 2) is None);
        assert(walk_step(s2, t, va, 1) is None);
    } else {
        assert(walk_step(s2, rt, va, 2) == walk_step(s1, rt, va, 2));
        if let Some(e2) = walk_step(s1, rt, va, 2) {
            let i2 = table_index_from(s1, rt, 0);
            lemma_table_index_bound(s1, rt, 0);
            let t1 = spec_entry_target(e2);
            assert(entry_bits(s1[i2], spec_vpn(va, 2) as int) == e2);
            assert(table_at(s1, t1)->0.level == 1);
            if t1 == a && spec_vpn(va, 1) == idx {
                assert(table_at(s1, a)->0 == s1[k]);
                assert(walk_step(s1, t1, va, 1) is None);
                assert(walk_step(s2, t, va, 0) is None);
            } else {
                assert(walk_step(s2, t1, va, 1) == walk_step(s1, t1, va, 1));
                if let Some(e1) = walk_step(s1, t1, va, 1) {
                    let i1 = table_index_from(s1, t1, 0);
                    lemma_table_index_bound(s1, t1, 0);
                    let t0 = spec_entry_target(e1);
                    assert(entry_bits(s1[i1], spec_vpn(va, 1) as int) == e1);
                    assert(table_at(s1, t0)->0.level == 0);
                    assert(t0 != a);
                    assert(walk_step(s2, t0, va, 0) == walk_step(s1, t0, va, 0));
                }
            }
        }
    }
}

/// Changing the entry of a table at level 0 that the walk for `va` ends on changes the
/// translation of no address outside the page of `va`: the tables form a tree, so no other walk
/// reads that entry.
proof fn lemma_set_leaf_frame(s1: Seq<TableSlot>, s2: Seq<TableSlot>, k: int, idx: int, rt: u64, va: u64, vb: u64)
    requires
        tables_wf(s1),
        0 <= k < s1.len(),
        0 <= idx < ENTRIES,
        s2.len() == s1.len(),
        forall|i: int| 0 <= i < s1.len() && i != k ==> #[trigger] s2[i] == s1[i],
        s2[k].addr == s1[k].addr,
        s2[k].level == s1[k].level,
        s2[k].table.entries@ == s1[k].table.entries@.update(idx, s2[k].table.entries@[idx]),
        s1[k].level == 0,
        table_at(s1, rt) is Some,
        table_at(s1, rt)->0.level == 2,
        walk_step(s1, rt, va, 2) is Some,
        walk_step(s1, spec_entry_target(walk_step(s1, rt, va, 2)->0), va, 1) is Some,
        spec_entry_target(walk_step(s1, spec_entry_target(walk_step(s1, rt, va, 2)->0), va, 1)->0)
            == s1[k].addr,
        spec_vpn(va, 0) == idx,
        !same_page_index(va, vb),
    ensures
        translate(s2, rt, vb) == translate(s1, rt, vb),
{
    let a = s1[k].addr;
    lemma_vpn_bound(va);
    lemma_vpn_bound(vb);
    assert forall|i: int| 0 <= i < s1.len() implies #[trigger] s1[i].addr == s2[i].addr by {
        if i != k {
            assert(s2[i] == s1[i]);
        }
    }
    lemma_table_index_found(s1, a, k);
    lemma_table_index_bound(s1, a, 0);
    assert(table_index_from(s1, a, 0) == k);
    lemma_table_index_same_addrs(s1, s2, a, 0);
    assert forall|b: u64| b != a implies #[trigger] table_at(s2, b) == table_at(s1, b) by {
        lemma_table_index_same_addrs(s1, s2, b, 0);
        lemma_table_index_bound(s1, b, 0);
        let j = table_index_from(s1, b, 0);
        if j < s1.len() {
            assert(j != k);
            assert(s2[j] == s1[j]);
        }
    }
    let i2 = table_index_from(s1, rt, 0);
    lemma_table_index_bound(s1, rt, 0);
    assert(rt != a);
    assert(walk_step(s2, rt, vb, 2) == walk_step(s1, rt, vb, 2));
    if let Some(f2) = walk_step(s1, rt, vb, 2) {
        let u1 = spec_entry_target(f2);
        assert(entry_bits(s1[i2], spec_vpn(vb, 2) as int) == f2);
        assert(table_at(s1, u1)->0.level == 1);
        assert(u1 != a);
        assert(walk_step(s2, u1, vb, 1) == walk_step(s1, u1, vb, 1));
        if let Some(f1) = walk_step(s1, u1, vb, 1) {
            let j1 = table_index_from(s1, u1, 0);
            lemma_table_index_bound(s1, u1, 0);
            let u0 = spec_entry_target(f1);
            assert(entry_bits(s1[j1], spec_vpn(vb, 1) as int) == f1);
            if u0 == a && spec_vpn(vb, 0) == idx {
                let e2 = walk_step(s1, rt, va, 2)->0;
                let t1 = spec_entry_target(e2);
                assert(entry_bits(s1[i2], spec_vpn(va, 2) as int) == e2);
                let i1 = table_index_from(s1, t1, 0);
                lemma_table_index_bound(s1, t1, 0);
                let e1 = walk_step(s1, t1, va, 1)->0;
                assert(entry_bits(s1[i1], spec_vpn(va, 1) as int) == e1);
                assert(s1[i1].level == 1);
                assert(s1[j1].level == 1);
                assert(i1 == j1 && spec_vpn(va, 1) == spec_vpn(vb, 1));
                assert(t1 == u1);
                assert(spec_vpn(va, 2) == spec_vpn(vb, 2));
                assert(false);
            } else if u0 == a {
                assert(table_at(s2, a)->0 == s2[k]);
                assert(table_at(s1, a)->0 == s1[k]);
                assert(entry_bits(s2[k], spec_vpn(vb, 0) as int) == entry_bits(s1[k], spec_vpn(vb, 0) as int));
            } else {
                assert(walk_step(s2, u0, vb, 0) == walk_step(s1, u0, vb, 0));
            }
        }
    }
}

/// Making a clear entry valid changes no step of a walk that was already possible.
proof fn lemma_set_clear_entry_keeps_walks(
    s1: Seq<TableSlot>,
    s2: Seq<TableSlot>,
    k: int,
    idx: int,
    a: u64,
    vb: u64,
    l: u64,
)
    requires
        tables_wf(s1),
        0 <= k < s1.len(),
        0 <= idx < ENTRIES,
        s2.len() == s1.len(),
        forall|i: int| 0 <= i < s1.len() && i != k ==> #[trigger] s2[i] == s1[i],
        s2[k].addr == s1[k].addr,
        s2[k].level == s1[k].level,
        s2[k].table.entries@ == s1[k].table.entries@.update(idx, s2[k].table.entries@[idx]),
        !spec_entry_valid(entry_bits(s1[k], idx)),
        l <= 2,
        walk_step(s1, a, vb, l) is Some,
    ensures
        walk_step(s2, a, vb, l) == walk_step(s1, a, vb, l),
{
    lemma_vpn_bound(vb);
    assert forall|i: int| 0 <= i < s1.len() implies #[trigger] s1[i].addr == s2[i].addr by {
        if i != k {
            assert(s2[i] == s1[i]);
        }
    }
    lemma_table_index_same_addrs(s1, s2, a, 0);
    lemma_table_index_bound(s1, a, 0);
    let j = table_index_from(s1, a, 0);
    if j != k {
        assert(s2[j] == s1[j]);
    } else {
        let e = spec_vpn(vb, l) as int;
        if l == 0 {
        } else if l == 1 {
        } else {
        }
        assert(e != idx);
        assert(entry_bits(s2[k], e) == entry_bits(s1[k], e));
    }
}

/// Changing an entry of a table at level 0 keeps every walk to level 0 that was possible.
proof fn lemma_leaf_set_keeps_prepared(s2: Seq<TableSlot>, s3: Seq<TableSlot>, k: int, idx: int, root: u64, vb: u64)
    requires
        tables_wf(s2),
        0 <= k < s2.len(),
        0 <= idx < ENTRIES,
        s3.len() == s2.len(),
        forall|i: int| 0 <= i < s2.len() && i != k ==> #[trigger] s3[i] == s2[i],
        s3[k].addr == s2[k].addr,
        s3[k].level == s2[k].level,
        s3[k].table.entries@ == s2[k].table.entries@.update(idx, s3[k].table.entries@[idx]),
        s2[k].level == 0,
        table_at(s2, root) is Some,
        table_at(s2, root)->0.level == 2,
        walk_prepared(s2, root, vb),
    ensures
        walk_prepared(s3, root, vb),
        walk_step(s3, root, vb, 2) == walk_step(s2, root, vb, 2),
{
    let a0 = s2[k].addr;
    assert forall|i: int| 0 <= i < s2.len() implies #[trigger] s2[i].addr == s3[i].addr by {
        if i != k {
            assert(s3[i] == s2[i]);
        }
    }
    assert forall|b: u64| b != a0 implies #[trigger] table_at(s3, b) == table_at(s2, b) by {
        lemma_table_index_same_addrs(s2, s3, b, 0);
        lemma_table_index_bound(s2, b, 0);
        let j = table_index_from(s2, b, 0);
        if j < s2.len() {
            assert(s2[j].addr == b);
            assert(j != k);
            assert(s3[j] == s2[j]);
        }
    }
    let i2 = table_index_from(s2, root, 0);
    lemma_table_index_bound(s2, root, 0);
    lemma_table_index_found(s2, a0, k);
    lemma_table_index_bound(s2, a0, 0);
    assert(table_index_from(s2, a0, 0) == k);
    assert(root != a0);
    let e2 = walk_step(s2, root, vb, 2)->0;
    lemma_vpn_bound(vb);
    assert(entry_bits(s2[i2], spec_vpn(vb, 2) as int) == e2);
    let t1 = spec_entry_target(e2);
    assert(table_at(s2, t1)->0.level == 1);
    assert(t1 != a0);
    assert(table_at(s3, t1) == table_at(s2, t1));
    assert(table_at(s3, root) == table_at(s2, root));
}

/// The layout of a Sv39 page table entry, as the hardware walker reads it: pointing an entry at
/// the physical address `pa` puts the page number of `pa` (its bits 12 to 51) in order into the
/// entry's bits 10 to 49 and clears bits 50 to 53, without touching any other bit; and the
/// address an entry points to is the page number in bits 10 to 53 times the page size.
pub proof fn lemma_entry_layout(bits: u64, pa: u64)
    ensures
        spec_with_paddr(bits, pa) & 0x003f_ffff_ffff_fc00u64 == (pa & 0x000f_ffff_ffff_f000u64) >> 2u64,
        spec_with_paddr(bits, pa) & !0x003f_ffff_ffff_fc00u64 == bits & !0x003f_ffff_ffff_fc00u64,
        spec_entry_target(bits) == ((bits & 0x003f_ffff_ffff_fc00u64) >> 10u64) << 12u64,
{
    let p0 = ((pa >> 12u64) >> 0u64) & 0x1ff;
    let p1 = ((pa >> 12u64) >> 9u64) & 0x1ff;
    let p2 = ((pa >> 12u64) >> 18u64) & 0x3fffff;
    assert(spec_ppn(pa, 0) == p0);
    assert(spec_ppn(pa, 1) == p1);
    assert(spec_ppn(pa, 2) == p2);
    let nb = (bits & !0x003f_ffff_ffff_fc00u64) | (p0 << 10u64) | (p1 << 19u64) | (p2 << 28u64);
    assert(nb == spec_with_paddr(bits, pa));
    let q2 = (bits >> 28u64) & 0x3ffffff;
    let q1 = (bits >> 19u64) & 0x1ff;
    let q0 = (bits >> 10u64) & 0x1ff;
    let ppn = (q2 << 18u64) | (q1 << 9u64) | q0;
    assert(nb & 0x003f_ffff_ffff_fc00u64 == (pa & 0x000f_ffff_ffff_f000u64) >> 2u64 && nb
        & !0x003f_ffff_ffff_fc00u64 == bits & !0x003f_ffff_ffff_fc00u64 && ppn == (bits
        & 0x003f_ffff_ffff_fc00u64) >> 10u64 && ppn < 0x1000_0000_0000 && ppn * 4096 == ppn << 12u64)
        by (bit_vector)
        requires
            p0 == ((pa >> 12u64) >> 0u64) & 0x1ff,
            p1 == ((pa >> 12u64) >> 9u64) & 0x1ff,
            p2 == ((pa >> 12u64) >> 18u64) & 0x3fffff,
            nb == (bits & !0x003f_ffff_ffff_fc00u64) | (p0 << 10u64) | (p1 << 19u64) | (p2 << 28u64),
            q2 == (bits >> 28u64) & 0x3ffffff,
            q1 == (bits >> 19u64) & 0x1ff,
            q0 == (bits >> 10u64) & 0x1ff,
            ppn == (q2 << 18u64) | (q1 << 9u64) | q0,
    ;
}

} // verus!
