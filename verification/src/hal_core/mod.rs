use vstd::prelude::*;

pub mod fake_once_lock;
pub mod hal;
pub mod mm;
pub mod reentrant_spinlock;

use self::mm::{align_up, spec_align_up};

verus! {

/// A range similar to `core::ops::Range` but that is copyable.
/// The range is half-open, inclusive below, exclusive above, ie. [start; end[
#[derive(Debug, Copy, Clone, PartialEq, Eq, Structural)]
pub struct AddressRange {
    pub start: usize,
    pub end: usize,
}

impl AddressRange {
    /// The addresses the range holds.
    pub open spec fn spec_contains(self, val: int) -> bool {
        self.start <= val < self.end
    }

    /// The number of bytes in the range.
    pub open spec fn spec_size(self) -> int {
        self.end - self.start
    }

    /// Builds the range `[range.start; range.end[`, which must not be empty.
    pub fn new(range: core::ops::Range<usize>) -> (r: Self)
        requires
            range.start < range.end,
        ensures
            r.start == range.start,
            r.end == range.end,
    {
        let (start, end) = (range.start, range.end);
        Self { start, end }
    }

    /// Builds the range of `size` bytes starting at `start`.
    pub fn with_size(start: usize, size: usize) -> (r: Self)
        requires
            0 < size,
            start + size <= usize::MAX,
    ensures
            r.start == start,
            r.end == start + size,
    {
        Self::new(start..start + size)
    }

    /// Moves the end of the range up to the next multiple of `page_size`.
    pub fn round_up_to_page(self, page_size: usize) -> (r: Self)
        requires
            0 < page_size,
            self.end + page_size - 1 <= usize::MAX,
        ensures
            r.start == self.start,
            r.end == spec_align_up(self.end as int, page_size as int),
    {
        Self { start: self.start, end: align_up(self.end, page_size) }
    }

    /// The addresses of the pages of the range, in increasing order: `start`, `start +
    /// page_size`, ... up to the last one below `end`; none when the range is empty. The end
    /// must be a page boundary.
    pub fn iter_pages(self, page_size: usize) -> (pages: Vec<usize>)
        requires
            0 < page_size,
            self.end + page_size - 1 <= usize::MAX,
            self.end == spec_align_up(self.end as int, page_size as int),
        ensures
            pages@.len() == if self.start < self.end {
                (self.end - self.start + page_size - 1) / (page_size as int)
            } else {
                0
            },
            forall|i: int|
                0 <= i < pages@.len() ==> #[trigger] pages@[i] == self.start + i * page_size,
            forall|a: int|
                #![trigger self.spec_contains(a)]
                self.spec_contains(a) && (a - self.start) % (page_size as int) == 0
                    ==> pages@.contains(a as usize),
    {
        let mut pages: Vec<usize> = Vec::new();
        let mut addr: usize = self.start;
        assert(pages@.len() * page_size == 0) by (nonlinear_arith)
            requires
                pages@.len() == 0,
        ;
        while addr < self.end
            invariant_except_break
                0 < page_size,
                addr == self.start + pages@.len() * page_size,
                forall|i: int|
                    0 <= i < pages@.len() ==> #[trigger] pages@[i] == self.start + i * page_size,
                self.start < self.end ==> addr < self.end + page_size,
                self.start >= self.end ==> pages@.len() == 0,
            ensures
                forall|i: int|
                    0 <= i < pages@.len() ==> #[trigger] pages@[i] == self.start + i * page_size,
                self.start < self.end ==> self.end <= self.start + pages@.len() * page_size < self.end
                    + page_size,
                self.start >= self.end ==> pages@.len() == 0,
            decreases self.end - addr,
        {
            proof {
                assert((pages@.len() + 1) * page_size == pages@.len() * page_size + page_size)
                    by (nonlinear_arith);
            }
            pages.push(addr);
            if self.end - addr <= page_size {
                break;
            }
            addr = addr + page_size;
        }
        proof {
            if self.start < self.end {
                let n = (self.end - self.start + page_size - 1) / (page_size as int);
                let len = pages@.len() as int;
                vstd::arithmetic::div_mod::lemma_fundamental_div_mod(
                    self.end - self.start + page_size - 1,
                    page_size as int,
                );
                vstd::arithmetic::div_mod::lemma_mod_bound(
                    self.end - self.start + page_size - 1,
                    page_size as int,
                );
                assert(len == n) by (nonlinear_arith)
                    requires
                        0 < page_size,
                        len * page_size >= self.end - self.start,
                        len * page_size < self.end - self.start + page_size,
                        page_size * n <= self.end - self.start + page_size - 1,
                        self.end - self.start + page_size - 1 < page_size * n + page_size,
                ;
                assert forall|a: int|
                    #![trigger self.spec_contains(a)]
                    self.spec_contains(a) && (a - self.start) % (page_size as int) == 0
                        implies pages@.contains(a as usize) by {
                    let k = (a - self.start) / (page_size as int);
                    vstd::arithmetic::div_mod::lemma_fundamental_div_mod(
                        a - self.start,
                        page_size as int,
                    );
                    assert(0 <= k < len) by (nonlinear_arith)
                        requires
                            a - self.start == page_size * k + 0,
                            0 <= a - self.start < self.end - self.start,
                            len * page_size >= self.end - self.start,
                            0 < page_size,
                    ;
                    assert(pages@[k] == a);
                }
            }
        }
        pages
    }

    /// The number of pages of `page_size` bytes needed to hold the range.
    pub fn count_pages(&self, page_size: usize) -> (n: usize)
        requires
            0 < page_size,
            self.start <= self.end,
            (self.end - self.start) + page_size - 1 <= usize::MAX,
        ensures
            n == spec_align_up(self.spec_size(), page_size as int) / (page_size as int),
            n * page_size >= self.spec_size(),
            n * page_size < self.spec_size() + page_size,
    {
        let r = align_up(self.size(), page_size) / page_size;
        proof {
            let a = spec_align_up(self.spec_size(), page_size as int);
            vstd::arithmetic::div_mod::lemma_fundamental_div_mod(a, page_size as int);
            assert(r * page_size == page_size * (a / (page_size as int))) by (nonlinear_arith)
                requires
                    r == a / (page_size as int),
            ;
        }
        r
    }

    /// Whether `val` lies in the range.
    pub fn contains(&self, val: usize) -> (b: bool)
        ensures
            b == self.spec_contains(val as int),
    {
        self.start <= val && val < self.end
    }

    /// The number of bytes in the range.
    pub fn size(&self) -> (n: usize)
        requires
            self.start <= self.end,
        ensures
            n == self.spec_size(),
    {
        self.end - self.start
    }
}

} // verus!
