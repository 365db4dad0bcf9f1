use vstd::prelude::*;

verus! {

/// A virtual address.
#[derive(Debug, Clone, Copy)]
pub struct VAddr {
    pub val: usize,
}

impl VAddr {
    /// The virtual address `val`.
    pub fn new(val: usize) -> (va: Self)
        ensures
            va.val == val,
    {
        Self { val }
    }
}

/// A physical address.
#[derive(Debug, Clone, Copy)]
pub struct PAddr {
    pub val: usize,
}

impl PAddr {
    /// The physical address `val`.
    pub fn new(val: usize) -> (pa: Self)
        ensures
            pa.val == val,
    {
        Self { val }
    }
}

/// Access rights of a mapping, one bit each: read, write, execute, user.
#[derive(Debug, Clone, Copy, PartialEq, Eq, Structural)]
pub struct Permissions {
    pub bits: u8,
}

pub const READ_BIT: u8 = 0b00000001;

pub const WRITE_BIT: u8 = 0b00000010;

pub const EXECUTE_BIT: u8 = 0b00000100;

pub const USER_BIT: u8 = 0b00001000;

impl Permissions {
    /// The right to read.
    pub fn read() -> (p: Permissions)
        ensures
            p.bits == READ_BIT,
    {
        Permissions { bits: READ_BIT }
    }

    /// The right to write.
    pub fn write() -> (p: Permissions)
        ensures
            p.bits == WRITE_BIT,
    {
        Permissions { bits: WRITE_BIT }
    }

    /// The right to execute.
    pub fn execute() -> (p: Permissions)
        ensures
            p.bits == EXECUTE_BIT,
    {
        Permissions { bits: EXECUTE_BIT }
    }

    /// The right of user mode to access.
    pub fn user() -> (p: Permissions)
        ensures
            p.bits == USER_BIT,
    {
        Permissions { bits: USER_BIT }
    }

    /// All the rights of `self` and of `other`.
    pub fn union(self, other: Permissions) -> (p: Permissions)
        ensures
            p.bits == self.bits | other.bits,
    {
        Permissions { bits: self.bits | other.bits }
    }

    /// `self` grants every right that `other` grants.
    pub fn contains(&self, other: Permissions) -> (b: bool)
        ensures
            b == (self.bits & other.bits == other.bits),
    {
        self.bits & other.bits == other.bits
    }
}

/// Why an allocation of pages failed.
#[derive(Debug, PartialEq, Eq, Structural, Clone, Copy)]
pub enum AllocatorError {
    NotEnoughMemoryForMetadata,
    OutOfMemory,
}

/// An allocator of physical pages.
pub trait PageAlloc {
    /// The allocator can be asked for pages and given pages back.
    spec fn serves_requests(&self) -> bool;

    /// The allocator can list the pages in use.
    spec fn lists_used_pages(&self) -> bool;

    /// Hands out `page_count` contiguous pages and returns the address of the first.
    fn allocate(&mut self, page_count: usize) -> (r: Result<usize, AllocatorError>)
        requires
            old(self).serves_requests(),
        ensures
            final(self).serves_requests(),
    ;

    /// Takes back the `page_count` pages from `base` on.
    fn dealloc(&mut self, base: usize, page_count: usize) -> (r: Result<(), AllocatorError>)
        requires
            old(self).serves_requests(),
        ensures
            final(self).serves_requests(),
    ;

    /// The addresses of the pages in use.
    fn used_pages(&self) -> (pages: Vec<usize>)
        requires
            self.lists_used_pages(),
    ;
}

/// An allocator that must never be asked for anything: it stands where no allocation may
/// happen.
pub struct NullPageAllocator;

impl PageAlloc for NullPageAllocator {
    open spec fn serves_requests(&self) -> bool {
        false
    }

    open spec fn lists_used_pages(&self) -> bool {
        false
    }

    fn allocate(&mut self, _page_count: usize) -> (r: Result<usize, AllocatorError>) {
        Err(AllocatorError::OutOfMemory)
    }

    fn dealloc(&mut self, _base: usize, _page_count: usize) -> (r: Result<(), AllocatorError>) {
        Err(AllocatorError::OutOfMemory)
    }

    fn used_pages(&self) -> (pages: Vec<usize>) {
        Vec::new()
    }
}

/// An entry of a page table.
pub trait PageEntry {
    /// Marks the entry as not valid.
    fn set_invalid(&mut self);
}

/// `val` rounded up to the next multiple of `page_sz`.
pub open spec fn spec_align_up(val: int, page_sz: int) -> int {
    ((val + page_sz - 1) / page_sz) * page_sz
}

/// Rounds `val` up to the next multiple of `page_sz`.
pub fn align_up(val: usize, page_sz: usize) -> (r: usize)
    requires
        0 < page_sz,
        val + page_sz - 1 <= usize::MAX,
    ensures
        r == spec_align_up(val as int, page_sz as int),
        r % page_sz == 0,
        val <= r < val + page_sz,
{
    proof {
        lemma_align_up_bounds(val as int, page_sz as int);
    }
    ((val + (page_sz - 1)) / page_sz) * page_sz
}

/// What `align_down` computes: the page boundary one page above `align_up`.
pub open spec fn spec_align_down(addr: int, page_sz: int) -> int {
    spec_align_up(addr, page_sz) + page_sz
}

/// The page boundary one page above `align_up(addr, page_sz)`.
pub fn align_down(addr: usize, page_sz: usize) -> (r: usize)
    requires
        0 < page_sz,
        addr + page_sz - 1 <= usize::MAX,
        spec_align_up(addr as int, page_sz as int) + page_sz <= usize::MAX,
    ensures
        r == spec_align_down(addr as int, page_sz as int),
        r % page_sz == 0,
        addr + page_sz <= r < addr + 2 * page_sz,
{
    proof {
        lemma_align_up_bounds(addr as int, page_sz as int);
        vstd::arithmetic::div_mod::lemma_mod_multiples_basic(
            (addr + page_sz - 1) / (page_sz as int) + 1,
            page_sz as int,
        );
        assert(((addr + page_sz - 1) / (page_sz as int) + 1) * page_sz == spec_align_up(
            addr as int,
            page_sz as int,
        ) + page_sz) by (nonlinear_arith);
    }
    align_up(addr, page_sz) + page_sz
}

/// `align_up` rounds to a multiple of the page size, at most one page minus one byte above.
pub proof fn lemma_align_up_bounds(val: int, page_sz: int)
    requires
        0 < page_sz,
        0 <= val,
    ensures
        spec_align_up(val, page_sz) % page_sz == 0,
        val <= spec_align_up(val, page_sz) < val + page_sz,
        0 <= spec_align_up(val, page_sz),
{
    let q = (val + page_sz - 1) / page_sz;
    vstd::arithmetic::div_mod::lemma_fundamental_div_mod(val + page_sz - 1, page_sz);
    vstd::arithmetic::div_mod::lemma_mod_bound(val + page_sz - 1, page_sz);
    vstd::arithmetic::div_mod::lemma_mod_multiples_basic(q, page_sz);
    assert(q * page_sz == page_sz * q) by (nonlinear_arith);
    assert(0 <= q) by (nonlinear_arith)
        requires
            page_sz * q + (val + page_sz - 1) % page_sz == val + page_sz - 1,
            0 <= (val + page_sz - 1) % page_sz < page_sz,
            0 <= val,
            0 < page_sz,
    ;
    assert(0 <= q * page_sz) by (nonlinear_arith)
        requires
            0 <= q,
            0 < page_sz,
    ;
}

} // verus!
