use vstd::prelude::*;

use crate::hal_core::AddressRange;
use crate::hal_core::mm::{AllocatorError, PageAlloc};
use crate::hal_core::mm::{align_down, align_up, lemma_align_up_bounds, spec_align_down, spec_align_up};
use crate::kernel::device_tree::DeviceTree;
use crate::kernel::mm::kernel_memory_region;

verus! {

/// The range `[start; end[`.
pub open spec fn range(start: usize, end: usize) -> AddressRange {
    AddressRange { start, end }
}

/// `excluded` lies strictly inside `region`, away from both of its ends.
pub open spec fn strictly_inside(region: AddressRange, excluded: AddressRange) -> bool {
    &&& region.start < excluded.start < region.end
    &&& region.start < excluded.end < region.end
}

/// What is left of `region` once `excluded` is taken out of it, when `excluded` does not lie
/// strictly inside it.
pub open spec fn trimmed(region: AddressRange, excluded: AddressRange) -> Option<AddressRange> {
    if region.start == excluded.start && region.end == excluded.end {
        None
    } else if region.spec_contains(excluded.end as int) {
        Some(range(excluded.end, region.end))
    } else if region.spec_contains(excluded.start as int) {
        Some(range(region.start, excluded.start))
    } else {
        Some(region)
    }
}

/// The index of the first empty slot of `regions` from `k` on, or `regions.len()` if there is
/// none.
pub open spec fn first_free_from(regions: Seq<Option<AddressRange>>, k: int) -> int
    decreases regions.len() - k,
{
    if k >= regions.len() {
        regions.len() as int
    } else if regions[k] is None {
        k
    } else {
        first_free_from(regions, k + 1)
    }
}

/// The index of the first empty slot of `regions`, or `regions.len()` if there is none.
pub open spec fn first_free(regions: Seq<Option<AddressRange>>) -> int {
    first_free_from(regions, 0)
}

/// Slot `i` after `excluded` was taken out of the region it holds. A region that holds
/// `excluded` strictly inside is split in two: its left part stays in slot `i`, its right part
/// goes to the first empty slot.
pub open spec fn exclude_at(
    regions: Seq<Option<AddressRange>>,
    i: int,
    excluded: AddressRange,
) -> Seq<Option<AddressRange>> {
    match regions[i] {
        None => regions,
        Some(region) => if strictly_inside(region, excluded) {
            let left = regions.update(i, Some(range(region.start, excluded.start)));
            let j = first_free(left);
            if j < left.len() {
                left.update(j, Some(range(excluded.end, region.end)))
            } else {
                left
            }
        } else {
            regions.update(i, trimmed(region, excluded))
        },
    }
}

/// Slot `i` can have `excluded` taken out: the region it holds does not start with a proper
/// part of `excluded`, and if it must be split there is an empty slot for its right part.
pub open spec fn exclude_at_defined(
    regions: Seq<Option<AddressRange>>,
    i: int,
    excluded: AddressRange,
) -> bool {
    match regions[i] {
        None => true,
        Some(region) => {
            &&& !(region.start == excluded.start && region.start < region.end && region.end
                < excluded.end)
            &&& strictly_inside(region, excluded) ==> first_free(
                regions.update(i, Some(range(region.start, excluded.start))),
            ) < regions.len()
        },
    }
}

/// The slots after `excluded` was taken out of the first `n` of them, in order.
pub open spec fn exclude_prefix(
    regions: Seq<Option<AddressRange>>,
    excluded: AddressRange,
    n: int,
) -> Seq<Option<AddressRange>>
    decreases n,
{
    if n <= 0 {
        regions
    } else {
        exclude_at(exclude_prefix(regions, excluded, n - 1), n - 1, excluded)
    }
}

/// The slots after `excluded` was taken out of all of them, in order.
pub open spec fn exclude_spec(
    regions: Seq<Option<AddressRange>>,
    excluded: AddressRange,
) -> Seq<Option<AddressRange>> {
    exclude_prefix(regions, excluded, regions.len() as int)
}

/// `excluded` can be taken out of each of the first `n` slots in turn.
pub open spec fn exclude_prefix_defined(
    regions: Seq<Option<AddressRange>>,
    excluded: AddressRange,
    n: int,
) -> bool
    decreases n,
{
    if n <= 0 {
        true
    } else {
        &&& exclude_prefix_defined(regions, excluded, n - 1)
        &&& exclude_at_defined(exclude_prefix(regions, excluded, n - 1), n - 1, excluded)
    }
}

/// `excluded` is a valid range and can be taken out of all slots in turn.
pub open spec fn exclude_defined(regions: Seq<Option<AddressRange>>, excluded: AddressRange) -> bool {
    &&& excluded.start < excluded.end
    &&& exclude_prefix_defined(regions, excluded, regions.len() as int)
}

proof fn lemma_exclude_prefix_len(regions: Seq<Option<AddressRange>>, excluded: AddressRange, n: int)
    requires
        0 <= n <= regions.len(),
    ensures
        exclude_prefix(regions, excluded, n).len() == regions.len(),
    decreases n,
{
    if n > 0 {
        lemma_exclude_prefix_len(regions, excluded, n - 1);
        let s = exclude_prefix(regions, excluded, n - 1);
        if let Some(region) = s[n - 1] {
            lemma_first_free_bound(s.update(n - 1, Some(range(region.start, excluded.start))), 0);
        }
    }
}

proof fn lemma_first_free_bound(regions: Seq<Option<AddressRange>>, k: int)
    requires
        0 <= k,
    ensures
        k <= first_free_from(regions, k) <= regions.len() || (k > regions.len()
            && first_free_from(regions, k) == regions.len()),
        first_free_from(regions, k) < regions.len() ==> regions[first_free_from(regions, k)] is None,
        forall|j: int| k <= j < first_free_from(regions, k) && j < regions.len() ==> regions[j] is Some,
    decreases regions.len() - k,
{
    if k < regions.len() && regions[k] is Some {
        lemma_first_free_bound(regions, k + 1);
    }
}

/// The index of the first empty slot of `regions`, if there is one.
fn find_free_slot<const N: usize>(regions: &[Option<AddressRange>; N]) -> (r: Option<usize>)
    ensures
        match r {
            Some(j) => j == first_free(regions@),
            None => first_free(regions@) == regions@.len(),
        },
{
    let mut j: usize = 0;
    proof {
        lemma_first_free_bound(regions@, 0);
    }
    while j < N
        invariant
            j <= N,
            N == regions@.len(),
            forall|k: int| 0 <= k < j ==> regions@[k] is Some,
            first_free_from(regions@, j as int) == first_free(regions@),
        decreases N - j,
    {
        if regions[j].is_none() {
            return Some(j);
        }
        j = j + 1;
    }
    None
}

/// Takes `excluded` out of each of the regions, in order: a region equal to `excluded` is
/// removed, a region that holds `excluded` strictly inside is split in two (its right part
/// goes to the first empty slot), a region that holds one end of `excluded` is cut there.
pub fn exclude_range<const MAX_REGIONS: usize>(
    regions: &mut [Option<AddressRange>; MAX_REGIONS],
    excluded: AddressRange,
)
    requires
        exclude_defined(old(regions)@, excluded),
    ensures
        final(regions)@ == exclude_spec(old(regions)@, excluded),
{
    let (excl_start, excl_end) = (excluded.start, excluded.end);
    let ghost orig = regions@;
    let mut i: usize = 0;
    while i < MAX_REGIONS
        invariant
            0 <= i <= MAX_REGIONS,
            MAX_REGIONS == orig.len(),
            excl_start == excluded.start,
            excl_end == excluded.end,
            exclude_defined(orig, excluded),
            regions@ == exclude_prefix(orig, excluded, i as int),
        decreases MAX_REGIONS - i,
    {
        proof {
            lemma_exclude_prefix_len(orig, excluded, i as int);
            lemma_exclude_prefix_defined_mono(orig, excluded, i as int + 1, orig.len() as int);
        }
        if regions[i].is_none() {
            i = i + 1;
            continue;
        }
        let region = regions[i].unwrap();
        if region.start == excl_start && region.end == excl_end {
            regions[i] = None;
        } else if (region.start < excl_start && excl_start < region.end) && (region.start
            < excl_end && excl_end < region.end) {
            let new_region = AddressRange { start: excl_end, end: region.end };
            regions[i] = Some(AddressRange::new(region.start..excl_start));
            let slot = find_free_slot(regions);
            let j = slot.unwrap();
            regions[j] = Some(new_region);
        } else if region.contains(excl_end) {
            regions[i] = Some(AddressRange::new(excl_end..region.end));
        } else if region.contains(excl_start) {
            regions[i] = Some(AddressRange::new(region.start..excl_start));
        }
        proof {
            assert(regions@ =~= exclude_prefix(orig, excluded, i as int + 1));
        }
        i = i + 1;
    }
}

proof fn lemma_exclude_prefix_defined_mono(
    regions: Seq<Option<AddressRange>>,
    excluded: AddressRange,
    m: int,
    n: int,
)
    requires
        0 <= m <= n,
        exclude_prefix_defined(regions, excluded, n),
    ensures
        exclude_prefix_defined(regions, excluded, m),
    decreases n - m,
{
    if m < n {
        lemma_exclude_prefix_defined_mono(regions, excluded, m, n - 1);
    }
}


/// The slot holds a region that contains `a`.
pub open spec fn covers(slot: Option<AddressRange>, a: int) -> bool {
    match slot {
        Some(region) => region.spec_contains(a),
        None => false,
    }
}

/// Some region of `regions` contains `a`.
pub open spec fn covered(regions: Seq<Option<AddressRange>>, a: int) -> bool {
    exists|k: int| 0 <= k < regions.len() && #[trigger] covers(regions[k], a)
}

/// No region of `regions` is a non-empty part of `excluded` that starts after its start.
pub open spec fn no_inner_region(regions: Seq<Option<AddressRange>>, excluded: AddressRange) -> bool {
    forall|k: int|
        0 <= k < regions.len() && #[trigger] regions[k] is Some ==> {
            let r = regions[k]->0;
            !(r.start < r.end && excluded.start < r.start && r.end <= excluded.end)
        }
}

spec fn placed_right(
    slot: Option<AddressRange>,
    s: Seq<Option<AddressRange>>,
    e: AddressRange,
    n: int,
) -> bool {
    exists|i: int|
        0 <= i < n && #[trigger] s[i] is Some && strictly_inside(s[i]->0, e) && slot == Some(
            range(e.end, s[i]->0.end),
        )
}

spec fn outside_prefix(s: Seq<Option<AddressRange>>, e: AddressRange, n: int, a: int) -> bool {
    exists|i: int| 0 <= i < n && #[trigger] covers(s[i], a) && !e.spec_contains(a)
}

spec fn processed(k: int, s: Seq<Option<AddressRange>>, n: int) -> bool {
    k < n || s[k] is None
}

spec fn exclude_inv(s: Seq<Option<AddressRange>>, e: AddressRange, n: int) -> bool {
    let cur = exclude_prefix(s, e, n);
    &&& cur.len() == s.len()
    &&& forall|k: int|
        n <= k < s.len() ==> #[trigger] cur[k] == s[k] || (s[k] is None && placed_right(
            cur[k],
            s,
            e,
            n,
        ))
    &&& forall|k: int, a: int|
        0 <= k < s.len() && #[trigger] covers(cur[k], a) && processed(k, s, n) ==> outside_prefix(
            s,
            e,
            n,
            a,
        )
    &&& forall|i: int, a: int|
        0 <= i < n && #[trigger] covers(s[i], a) && !e.spec_contains(a) ==> exists|k: int|
            0 <= k < s.len() && #[trigger] covers(cur[k], a) && processed(k, s, n)
}

/// The parts that the region `r` leaves once `e` is taken out of it hold exactly the
/// addresses of `r` outside `e`.
proof fn lemma_pieces(r: AddressRange, e: AddressRange, a: int)
    requires
        e.start < e.end,
        !(r.start == e.start && r.start < r.end && r.end < e.end),
        !(r.start < r.end && e.start < r.start && r.end <= e.end),
    ensures
        strictly_inside(r, e) ==> (covers(Some(range(r.start, e.start)), a) || covers(
            Some(range(e.end, r.end)),
            a,
        ) <==> r.spec_contains(a) && !e.spec_contains(a)),
        !strictly_inside(r, e) ==> (covers(trimmed(r, e), a) <==> r.spec_contains(a)
            && !e.spec_contains(a)),
{
}

/// A step that leaves the slots from `n` on as they were keeps them as the invariant wants them.
proof fn lemma_exclude_inv_tail(s: Seq<Option<AddressRange>>, e: AddressRange, n: int)
    requires
        0 < n <= s.len(),
        exclude_inv(s, e, n - 1),
        forall|k: int|
            n <= k < s.len() ==> #[trigger] exclude_prefix(s, e, n)[k] == exclude_prefix(s, e, n - 1)[k],
    ensures
        forall|k: int|
            n <= k < s.len() ==> #[trigger] exclude_prefix(s, e, n)[k] == s[k] || (s[k] is None
                && placed_right(exclude_prefix(s, e, n)[k], s, e, n)),
{
    let m = n - 1;
    let cur = exclude_prefix(s, e, m);
    let nxt = exclude_prefix(s, e, n);
        assert forall|k: int| n <= k < s.len() implies #[trigger] nxt[k] == s[k] || (s[k] is None
            && placed_right(nxt[k], s, e, n)) by {
            if nxt[k] != s[k] {
                let i = choose|i: int|
                    0 <= i < m && #[trigger] s[i] is Some && strictly_inside(s[i]->0, e)
                        && cur[k] == Some(range(e.end, s[i]->0.end));
                assert(0 <= i < n);
            }
        }
}

/// A step on an empty slot that changes no slot keeps the invariant.
proof fn lemma_exclude_inv_same(s: Seq<Option<AddressRange>>, e: AddressRange, n: int)
    requires
        0 < n <= s.len(),
        exclude_inv(s, e, n - 1),
        s[n - 1] is None,
        exclude_prefix(s, e, n) == exclude_prefix(s, e, n - 1),
    ensures
        exclude_inv(s, e, n),
{
    let m = n - 1;
    let cur = exclude_prefix(s, e, m);
    let nxt = exclude_prefix(s, e, n);
    lemma_exclude_inv_tail(s, e, n);
        assert forall|k: int, a: int|
            0 <= k < s.len() && #[trigger] covers(nxt[k], a) && processed(k, s, n) implies outside_prefix(
            s,
            e,
            n,
            a,
        ) by {
            assert(processed(k, s, m));
            let i = choose|i: int| 0 <= i < m && #[trigger] covers(s[i], a) && !e.spec_contains(a);
            assert(0 <= i < n);
        }
        assert forall|i: int, a: int|
            0 <= i < n && #[trigger] covers(s[i], a) && !e.spec_contains(a) implies exists|k: int|
            0 <= k < s.len() && #[trigger] covers(nxt[k], a) && processed(k, s, n) by {
            assert(i < m);
            let k = choose|k: int|
                0 <= k < s.len() && #[trigger] covers(cur[k], a) && processed(k, s, m);
            assert(processed(k, s, n));
        }
}

/// The invariant of the exclusion holds once the first `n` slots were handled.
proof fn lemma_exclude_inv(s: Seq<Option<AddressRange>>, e: AddressRange, n: int)
    requires
        0 <= n <= s.len(),
        exclude_defined(s, e),
        no_inner_region(s, e),
    ensures
        exclude_inv(s, e, n),
    decreases n,
{
    lemma_exclude_prefix_len(s, e, n);
    if n == 0 {
        return;
    }
    lemma_exclude_inv(s, e, n - 1);
    lemma_exclude_prefix_defined_mono(s, e, n, s.len() as int);
    let m = n - 1;
    let cur = exclude_prefix(s, e, m);
    let nxt = exclude_prefix(s, e, n);
    assert(nxt == exclude_at(cur, m, e));
    assert(exclude_at_defined(cur, m, e));
    if cur[m] is None {
        assert(s[m] is None) by {
            if cur[m] != s[m] {
                let i = choose|i: int|
                    0 <= i < m && #[trigger] s[i] is Some && strictly_inside(s[i]->0, e)
                        && cur[m] == Some(range(e.end, s[i]->0.end));
            }
        }
        assert(nxt == cur);
        lemma_exclude_inv_same(s, e, n);
        return;
    }
    let r = cur[m]->0;
    if s[m] is None {
        // A right part placed earlier: it is left as it is.
        let i0 = choose|i: int|
            0 <= i < m && #[trigger] s[i] is Some && strictly_inside(s[i]->0, e) && cur[m] == Some(
                range(e.end, s[i]->0.end),
            );
        assert(!strictly_inside(r, e));
        assert(trimmed(r, e) == Some(r));
        assert(nxt =~= cur);
        lemma_exclude_inv_same(s, e, n);
        return;
    }
    assert(cur[m] == s[m]);
    assert(s[m] is Some);
    assert(!(r.start < r.end && e.start < r.start && r.end <= e.end));
    if strictly_inside(r, e) {
        let left = cur.update(m, Some(range(r.start, e.start)));
        let j = first_free(left);
        lemma_first_free_bound(left, 0);
        assert(j < left.len());
        assert(j != m);
        let right = Some(range(e.end, r.end));
        assert(nxt == left.update(j, right));
        assert(cur[j] is None);
        assert(j > m ==> s[j] is None) by {
            if j > m && cur[j] != s[j] {
                let i = choose|i: int|
                    0 <= i < m && #[trigger] s[i] is Some && strictly_inside(s[i]->0, e)
                        && cur[j] == Some(range(e.end, s[i]->0.end));
            }
        }
        assert forall|k: int| n <= k < s.len() implies #[trigger] nxt[k] == s[k] || (s[k] is None
            && placed_right(nxt[k], s, e, n)) by {
            if k == j {
                assert(s[m] is Some && strictly_inside(s[m]->0, e) && nxt[k] == Some(
                    range(e.end, s[m]->0.end),
                ));
            } else if nxt[k] != s[k] {
                let i = choose|i: int|
                    0 <= i < m && #[trigger] s[i] is Some && strictly_inside(s[i]->0, e)
                        && cur[k] == Some(range(e.end, s[i]->0.end));
                assert(0 <= i < n);
            }
        }
        assert forall|k: int, a: int|
            0 <= k < s.len() && #[trigger] covers(nxt[k], a) && processed(k, s, n) implies outside_prefix(
            s,
            e,
            n,
            a,
        ) by {
            lemma_pieces(r, e, a);
            if k == m || k == j {
                assert(covers(s[m], a) && !e.spec_contains(a));
            } else {
                assert(processed(k, s, m));
                assert(covers(cur[k], a));
                let i = choose|i: int|
                    0 <= i < m && #[trigger] covers(s[i], a) && !e.spec_contains(a);
                assert(0 <= i < n);
            }
        }
        assert forall|i: int, a: int|
            0 <= i < n && #[trigger] covers(s[i], a) && !e.spec_contains(a) implies exists|k: int|
            0 <= k < s.len() && #[trigger] covers(nxt[k], a) && processed(k, s, n) by {
            lemma_pieces(r, e, a);
            if i == m {
                if covers(nxt[m], a) {
                    assert(processed(m, s, n));
                } else {
                    assert(covers(nxt[j], a));
                    assert(processed(j, s, n));
                }
            } else {
                let k = choose|k: int|
                    0 <= k < s.len() && #[trigger] covers(cur[k], a) && processed(k, s, m);
                assert(k != m);
                assert(k != j);
                assert(nxt[k] == cur[k]);
                assert(processed(k, s, n));
            }
        }
    } else {
        assert(nxt == cur.update(m, trimmed(r, e)));
        lemma_exclude_inv_tail(s, e, n);
        assert forall|k: int, a: int|
            0 <= k < s.len() && #[trigger] covers(nxt[k], a) && processed(k, s, n) implies outside_prefix(
            s,
            e,
            n,
            a,
        ) by {
            lemma_pieces(r, e, a);
            if k == m {
                assert(covers(s[m], a) && !e.spec_contains(a));
            } else {
                assert(processed(k, s, m));
                assert(covers(cur[k], a));
                let i = choose|i: int|
                    0 <= i < m && #[trigger] covers(s[i], a) && !e.spec_contains(a);
                assert(0 <= i < n);
            }
        }
        assert forall|i: int, a: int|
            0 <= i < n && #[trigger] covers(s[i], a) && !e.spec_contains(a) implies exists|k: int|
            0 <= k < s.len() && #[trigger] covers(nxt[k], a) && processed(k, s, n) by {
            lemma_pieces(r, e, a);
            if i == m {
                assert(covers(nxt[m], a));
                assert(processed(m, s, n));
            } else {
                let k = choose|k: int|
                    0 <= k < s.len() && #[trigger] covers(cur[k], a) && processed(k, s, m);
                assert(k != m);
                assert(nxt[k] == cur[k]);
                assert(processed(k, s, n));
            }
        }
    }
}

/// Taking a range out of the regions removes exactly its addresses from those that the
/// regions cover, provided no region is a non-empty part of the range that starts after its
/// start (such a region is left as it is).
pub proof fn lemma_exclude_range_coverage(regions: Seq<Option<AddressRange>>, excluded: AddressRange)
    requires
        exclude_defined(regions, excluded),
        no_inner_region(regions, excluded),
    ensures
        forall|a: int|
            covered(exclude_spec(regions, excluded), a) <==> covered(regions, a)
                && !excluded.spec_contains(a),
{
    let n = regions.len() as int;
    lemma_exclude_inv(regions, excluded, n);
    let res = exclude_spec(regions, excluded);
    assert forall|a: int|
        covered(res, a) <==> covered(regions, a) && !excluded.spec_contains(a) by {
        if covered(res, a) {
            let k = choose|k: int| 0 <= k < res.len() && #[trigger] covers(res[k], a);
            assert(processed(k, regions, n));
            let i = choose|i: int|
                0 <= i < n && #[trigger] covers(regions[i], a) && !excluded.spec_contains(a);
        }
        if covered(regions, a) && !excluded.spec_contains(a) {
            let i = choose|i: int| 0 <= i < regions.len() && #[trigger] covers(regions[i], a);
            let k = choose|k: int|
                0 <= k < regions.len() && #[trigger] covers(res[k], a) && processed(k, regions, n);
        }
    }
}


/// The size of the pages the physical memory manager hands out.
pub const PAGE_SIZE: usize = 4096;

/// What a physical page is used for.
#[derive(Debug, PartialEq, Eq, Structural, Clone, Copy)]
pub enum PageKind {
    Metadata,
    Allocated,
    Free,
}

/// Holds data about each physical page in the system.
#[derive(Debug, Clone, Copy)]
pub struct PhysicalPage {
    pub kind: PageKind,
    pub base: usize,
    /// Page is last of a contiguous allocation of pages.
    pub last: bool,
}

/// The number of bytes one page descriptor takes in the metadata area.
pub const METADATA_ENTRY_SIZE: usize = 16;

impl PhysicalPage {
    /// The page is not free.
    pub fn is_used(&self) -> (b: bool)
        ensures
            b == (self.kind != PageKind::Free),
    {
        self.kind != PageKind::Free
    }

    /// The page belongs to an allocation.
    pub fn is_allocated(&self) -> (b: bool)
        ensures
            b == (self.kind == PageKind::Allocated),
    {
        self.kind == PageKind::Allocated
    }

    /// Marks the page as belonging to an allocation.
    pub fn set_allocated(&mut self)
        ensures
            final(self).kind == PageKind::Allocated,
            final(self).base == old(self).base,
            final(self).last == old(self).last,
    {
        self.kind = PageKind::Allocated;
    }

    /// The page is the last of an allocation.
    pub fn _is_last(&self) -> (b: bool)
        ensures
            b == self.last,
    {
        self.last
    }

    /// Marks the page as the last of an allocation.
    pub fn set_last(&mut self)
        ensures
            final(self).last,
            final(self).base == old(self).base,
            final(self).kind == old(self).kind,
    {
        self.last = true;
    }
}

/// The total number of bytes of the regions in the first `n` slots.
pub open spec fn total_size(regions: Seq<Option<AddressRange>>, n: int) -> int
    decreases n,
{
    if n <= 0 {
        0
    } else {
        total_size(regions, n - 1) + match regions[n - 1] {
            Some(r) => r.spec_size(),
            None => 0,
        }
    }
}

/// Every region of the slots is a well-formed range: it does not end before it starts.
pub open spec fn regions_ordered(regions: Seq<Option<AddressRange>>) -> bool {
    forall|k: int|
        0 <= k < regions.len() && #[trigger] regions[k] is Some ==> regions[k]->0.start
            <= regions[k]->0.end
}

/// The start of the first region, among the first `n` slots from `k` on, that holds at least
/// `minimum_size` bytes.
pub open spec fn spec_find_large_region(
    regions: Seq<Option<AddressRange>>,
    minimum_size: int,
    k: int,
) -> Option<usize>
    decreases regions.len() - k,
{
    if k < 0 || k >= regions.len() {
        None
    } else if regions[k] is Some && regions[k]->0.spec_size() >= minimum_size {
        Some(regions[k]->0.start)
    } else {
        spec_find_large_region(regions, minimum_size, k + 1)
    }
}

/// The page that starts at `phys_addr`: a metadata page inside `[metadata_start;
/// metadata_end[`, a free page elsewhere.
pub open spec fn spec_physical_page(phys_addr: usize, metadata_start: usize, metadata_end: usize) -> PhysicalPage {
    PhysicalPage {
        kind: if metadata_start <= phys_addr < metadata_end {
            PageKind::Metadata
        } else {
            PageKind::Free
        },
        base: phys_addr,
        last: false,
    }
}

/// The pages of `region`, in increasing order of address.
pub open spec fn region_pages(region: AddressRange, metadata_start: usize, metadata_end: usize) -> Seq<PhysicalPage> {
    Seq::new(
        ((region.end - region.start) / (PAGE_SIZE as int)) as nat,
        |t: int| spec_physical_page((region.start + t * PAGE_SIZE) as usize, metadata_start, metadata_end),
    )
}

/// The pages of the regions in the first `n` slots, slot after slot.
pub open spec fn regions_pages(
    regions: Seq<Option<AddressRange>>,
    n: int,
    metadata_start: usize,
    metadata_end: usize,
) -> Seq<PhysicalPage>
    decreases n,
{
    if n <= 0 {
        Seq::empty()
    } else {
        regions_pages(regions, n - 1, metadata_start, metadata_end) + match regions[n - 1] {
            Some(r) => region_pages(r, metadata_start, metadata_end),
            None => Seq::empty(),
        }
    }
}

/// The physical memory manager: one descriptor per page of available memory, in the order of
/// the regions they come from, and the address where the descriptors are kept.
#[derive(Debug)]
pub struct PhysicalMemoryManager {
    metadata: Vec<PhysicalPage>,
    metadata_start: usize,
}

impl PhysicalMemoryManager {
    /// The descriptors of the pages.
    pub closed spec fn pages(&self) -> Seq<PhysicalPage> {
        self.metadata@
    }

    /// The address where the descriptors are kept.
    pub closed spec fn spec_metadata_start(&self) -> usize {
        self.metadata_start
    }

    /// Every page starts at least one page below the top of the address space, so that the
    /// address just after it can be computed.
    pub open spec fn wf(&self) -> bool {
        forall|i: int|
            0 <= i < self.pages().len() ==> #[trigger] self.pages()[i].base + PAGE_SIZE
                <= usize::MAX
    }

    /// The descriptors of the pages.
    pub fn descriptors(&self) -> (d: &Vec<PhysicalPage>)
        ensures
            d@ == self.pages(),
    {
        &self.metadata
    }

    /// The address where the descriptors are kept.
    pub fn metadata_start(&self) -> (a: usize)
        ensures
            a == self.spec_metadata_start(),
    {
        self.metadata_start
    }

    /// The total number of pages the regions hold.
    pub fn count_pages(regions: &[Option<AddressRange>]) -> (n: usize)
        requires
            regions_ordered(regions@),
            total_size(regions@, regions@.len() as int) <= usize::MAX,
        ensures
            n == total_size(regions@, regions@.len() as int) / (PAGE_SIZE as int),
    {
        let mut total_memory_bytes: usize = 0;
        let mut i: usize = 0;
        while i < regions.len()
            invariant
                i <= regions@.len(),
                regions_ordered(regions@),
                total_size(regions@, regions@.len() as int) <= usize::MAX,
                total_memory_bytes == total_size(regions@, i as int),
            decreases regions@.len() - i,
        {
            proof {
                lemma_total_size_mono(regions@, i as int + 1, regions@.len() as int);
            }
            if let Some(region) = regions[i] {
                total_memory_bytes = total_memory_bytes + region.size();
            }
            i = i + 1;
        }
        total_memory_bytes / PAGE_SIZE
    }

    /// The start of the first region that holds at least `minimum_size` bytes.
    pub fn find_large_region(regions: &[Option<AddressRange>], minimum_size: usize) -> (r: Option<usize>)
        requires
            regions_ordered(regions@),
        ensures
            r == spec_find_large_region(regions@, minimum_size as int, 0),
    {
        let mut i: usize = 0;
        while i < regions.len()
            invariant
                i <= regions@.len(),
                regions_ordered(regions@),
                spec_find_large_region(regions@, minimum_size as int, i as int)
                    == spec_find_large_region(regions@, minimum_size as int, 0),
            decreases regions@.len() - i,
        {
            if let Some(region) = regions[i] {
                if region.size() >= minimum_size {
                    return Some(region.start);
                }
            }
            i = i + 1;
        }
        None
    }

    /// Whether the page at `base` lies in `[metadata_start; metadata_end[`.
    pub fn is_metadata_page(base: usize, metadata_start: usize, metadata_end: usize) -> (b: bool)
        ensures
            b == (metadata_start <= base < metadata_end),
    {
        base >= metadata_start && base < metadata_end
    }

    /// The descriptor of the page at `phys_addr`: a metadata page inside `[metadata_start;
    /// metadata_end[`, a free page elsewhere.
    pub fn phys_addr_to_physical_page(phys_addr: usize, metadata_start: usize, metadata_end: usize) -> (p: PhysicalPage)
        ensures
            p == spec_physical_page(phys_addr, metadata_start, metadata_end),
    {
        let kind = if Self::is_metadata_page(phys_addr, metadata_start, metadata_end) {
            PageKind::Metadata
        } else {
            PageKind::Free
        };
        PhysicalPage { kind, base: phys_addr, last: false }
    }
}

/// The length of the run of free, physically contiguous pages that ends at page `i`, as the
/// allocator counts it: a used page ends a run, and so does a free page that does not follow the
/// previous one in memory (that page does not start a new run either).
pub open spec fn run_len(pages: Seq<PhysicalPage>, i: int) -> int
    decreases i,
{
    if i < 0 || i >= pages.len() {
        0
    } else {
        let prev = if i == 0 {
            0
        } else {
            run_len(pages, i - 1)
        };
        if pages[i].kind != PageKind::Free {
            0
        } else if prev > 0 && i > 0 && pages[i].base != pages[i - 1].base + PAGE_SIZE {
            0
        } else {
            prev + 1
        }
    }
}

/// No page is free: every request of the manager fails.
pub open spec fn no_free_page(pages: Seq<PhysicalPage>) -> bool {
    forall|i: int| 0 <= i < pages.len() ==> #[trigger] pages[i].kind != PageKind::Free
}

/// Page `i` ends the first run of `count` pages.
pub open spec fn first_run_end(pages: Seq<PhysicalPage>, count: int, i: int) -> bool {
    &&& 0 <= i < pages.len()
    &&& run_len(pages, i) == count
    &&& forall|j: int| 0 <= j < i ==> #[trigger] run_len(pages, j) != count
}

/// The pages after those of `[first; last]` were handed out as one allocation.
pub open spec fn allocate_run(pages: Seq<PhysicalPage>, first: int, last: int) -> Seq<PhysicalPage> {
    Seq::new(
        pages.len(),
        |k: int|
            if first <= k <= last {
                PhysicalPage {
                    kind: PageKind::Allocated,
                    base: pages[k].base,
                    last: if k == last {
                        true
                    } else {
                        pages[k].last
                    },
                }
            } else {
                pages[k]
            },
    )
}

impl PhysicalMemoryManager {
    /// A manager without any page.
    pub fn new() -> (pmm: Self)
        ensures
            pmm.pages() == Seq::<PhysicalPage>::empty(),
            pmm.spec_metadata_start() == 0,
    {
        Self { metadata: Vec::new(), metadata_start: 0 }
    }

    /// Hands out the first run of `page_count` free, physically contiguous pages: they become
    /// allocated, the last one is marked as such, and the address of the first one is returned.
    pub fn alloc_pages(&mut self, page_count: usize) -> (r: Result<usize, AllocatorError>)
        requires
            old(self).wf(),
        ensures
            final(self).wf(),
            final(self).spec_metadata_start() == old(self).spec_metadata_start(),
            r is Ok ==> page_count > 0,
            page_count == 1 ==> (r is Err <==> no_free_page(old(self).pages())),
            match r {
                Ok(base) => exists|i: int|
                    #![trigger run_len(old(self).pages(), i)]
                    first_run_end(old(self).pages(), page_count as int, i) && base == old(
                        self,
                    ).pages()[i - page_count + 1].base && final(self).pages() == allocate_run(
                        old(self).pages(),
                        i - page_count + 1,
                        i,
                    ),
                Err(e) => e == AllocatorError::OutOfMemory && final(self).pages() == old(
                    self,
                ).pages() && (page_count == 0 || forall|i: int|
                    0 <= i < old(self).pages().len() ==> #[trigger] run_len(old(self).pages(), i)
                        != page_count),
            },
    {
        let mut consecutive_pages: usize = 0;
        let mut first_page_index: usize = 0;
        let mut last_page_base: usize = 0;
        let ghost pages = self.metadata@;
        let mut i: usize = 0;
        while i < self.metadata.len()
            invariant
                self.wf(),
                self.metadata@ == pages,
                self.metadata_start == old(self).metadata_start,
                pages == old(self).pages(),
                i <= pages.len(),
                consecutive_pages == run_len(pages, i - 1),
                consecutive_pages <= i,
                consecutive_pages > 0 ==> first_page_index == i - consecutive_pages
                    && last_page_base == pages[i - 1].base,
                page_count > 0 ==> forall|j: int|
                    0 <= j < i ==> #[trigger] run_len(pages, j) != page_count,
            decreases pages.len() - i,
        {
            let page = self.metadata[i];
            if consecutive_pages == 0 {
                first_page_index = i;
                last_page_base = page.base;
            }
            if page.is_used() {
                consecutive_pages = 0;
                i = i + 1;
                continue;
            }
            if consecutive_pages > 0 && page.base != last_page_base + PAGE_SIZE {
                consecutive_pages = 0;
                i = i + 1;
                continue;
            }
            consecutive_pages = consecutive_pages + 1;
            last_page_base = page.base;
            if consecutive_pages == page_count {
                let mut j: usize = first_page_index;
                while j <= i
                    invariant
                        first_page_index <= j <= i + 1,
                        i < pages.len(),
                        pages.len() <= usize::MAX,
                        self.metadata@.len() == pages.len(),
                        self.metadata_start == old(self).metadata_start,
                        forall|k: int|
                            0 <= k < pages.len() ==> #[trigger] self.metadata@[k] == if first_page_index
                                <= k < j {
                                PhysicalPage {
                                    kind: PageKind::Allocated,
                                    base: pages[k].base,
                                    last: pages[k].last,
                                }
                            } else {
                                pages[k]
                            },
                    decreases i + 1 - j,
                {
                    let mut p = self.metadata[j];
                    p.set_allocated();
                    self.metadata.set(j, p);
                    j = j + 1;
                }
                let mut p = self.metadata[i];
                p.set_last();
                self.metadata.set(i, p);
                proof {
                    assert(self.metadata@ =~= allocate_run(pages, first_page_index as int, i as int));
                    assert(first_run_end(pages, page_count as int, i as int));
                    assert(pages[i as int].kind == PageKind::Free);
                }
                return Ok(self.metadata[first_page_index].base);
            }
            i = i + 1;
        }
        proof {
            if page_count == 1 {
                assert forall|k: int| 0 <= k < pages.len() implies #[trigger] pages[k].kind
                    != PageKind::Free by {
                    if pages[k].kind == PageKind::Free {
                        lemma_free_page_starts_run(pages, k);
                    }
                }
            }
        }
        Err(AllocatorError::OutOfMemory)
    }
}

/// A free page is, or follows, a page that starts a run the allocator counts: a request for one
/// page finds a free page whenever there is one.
pub proof fn lemma_free_page_starts_run(pages: Seq<PhysicalPage>, i: int)
    requires
        0 <= i < pages.len(),
        pages[i].kind == PageKind::Free,
    ensures
        exists|j: int| 0 <= j <= i && #[trigger] run_len(pages, j) == 1,
    decreases i,
{
    if run_len(pages, i) != 1 {
        if i == 0 {
            assert(run_len(pages, 0) == 1);
        }
        let prev = run_len(pages, i - 1);
        if prev == 0 {
            assert(run_len(pages, i) == prev + 1);
        }
        assert(pages[i - 1].kind == PageKind::Free);
        lemma_free_page_starts_run(pages, i - 1);
    }
}

/// Every region is a range of whole pages whose end can be rounded up to a page boundary.
pub open spec fn regions_page_aligned(regions: Seq<Option<AddressRange>>) -> bool {
    forall|k: int|
        0 <= k < regions.len() && #[trigger] regions[k] is Some ==> {
            let r = regions[k]->0;
            &&& r.start <= r.end
            &&& r.end + PAGE_SIZE - 1 <= usize::MAX
            &&& r.start == spec_align_up(r.start as int, PAGE_SIZE as int)
            &&& r.end == spec_align_up(r.end as int, PAGE_SIZE as int)
        }
}

/// The number of bytes the descriptors of the pages of the regions take.
pub open spec fn metadata_size(regions: Seq<Option<AddressRange>>) -> int {
    (total_size(regions, regions.len() as int) / (PAGE_SIZE as int)) * METADATA_ENTRY_SIZE
}

/// The number of pages the descriptors of the pages of the regions take.
pub open spec fn metadata_pages(regions: Seq<Option<AddressRange>>) -> int {
    spec_align_up(metadata_size(regions), PAGE_SIZE as int) / (PAGE_SIZE as int)
}

impl PhysicalMemoryManager {
    /// Builds the descriptors of all pages of the available regions. They are kept in the
    /// first region large enough to hold them; the pages they take there are marked as
    /// metadata, all other pages are free.
    pub fn init_from_regions<const MAX_REGIONS: usize>(
        &mut self,
        available_regions: &[Option<AddressRange>; MAX_REGIONS],
    ) -> (r: Result<(), AllocatorError>)
        requires
            old(self).wf(),
            regions_page_aligned(available_regions@),
            total_size(available_regions@, available_regions@.len() as int) <= usize::MAX,
            metadata_size(available_regions@) + PAGE_SIZE - 1 <= usize::MAX,
        ensures
            final(self).wf(),
            match spec_find_large_region(available_regions@, metadata_size(available_regions@), 0) {
                None => r == Err::<(), AllocatorError>(AllocatorError::NotEnoughMemoryForMetadata)
                    && final(self).pages() == old(self).pages()
                    && final(self).spec_metadata_start() == old(self).spec_metadata_start(),
                Some(addr) => r == Ok::<(), AllocatorError>(()) && final(self).spec_metadata_start()
                    == addr && final(self).pages() == regions_pages(
                    available_regions@,
                    available_regions@.len() as int,
                    addr,
                    (addr + metadata_pages(available_regions@) * PAGE_SIZE) as usize,
                ),
            },
    {
        proof {
            lemma_aligned_regions_ordered(available_regions@);
        }
        let page_count = Self::count_pages(available_regions.as_slice());
        let metadata_size = page_count * METADATA_ENTRY_SIZE;
        let pages_needed = align_up(metadata_size, PAGE_SIZE) / PAGE_SIZE;
        let metadata_addr = match Self::find_large_region(available_regions.as_slice(), metadata_size) {
            Some(addr) => addr,
            None => {
                return Err(AllocatorError::NotEnoughMemoryForMetadata);
            },
        };
        proof {
            lemma_find_large_region_found(available_regions@, metadata_size as int, 0);
            lemma_align_up_bounds(metadata_size as int, PAGE_SIZE as int);
            vstd::arithmetic::div_mod::lemma_fundamental_div_mod(
                spec_align_up(metadata_size as int, PAGE_SIZE as int),
                PAGE_SIZE as int,
            );
            let k = choose|k: int|
                0 <= k < available_regions@.len() && available_regions@[k] is Some
                    && available_regions@[k]->0.start == metadata_addr
                    && available_regions@[k]->0.spec_size() >= metadata_size;
            lemma_multiple_above_align_up(
                available_regions@[k]->0.start as int,
                available_regions@[k]->0.end as int,
                metadata_size as int,
            );
        }
        let metadata_end = metadata_addr + pages_needed * PAGE_SIZE;
        let mut metadata: Vec<PhysicalPage> = Vec::new();
        let mut i: usize = 0;
        while i < MAX_REGIONS
            invariant
                i <= MAX_REGIONS,
                MAX_REGIONS == available_regions@.len(),
                regions_page_aligned(available_regions@),
                metadata@ == regions_pages(available_regions@, i as int, metadata_addr, metadata_end),
                forall|t: int|
                    0 <= t < metadata@.len() ==> #[trigger] metadata@[t].base + PAGE_SIZE
                        <= usize::MAX,
            decreases MAX_REGIONS - i,
        {
            if let Some(region) = available_regions[i] {
                proof {
                    assert(available_regions@[i as int] is Some);
                    lemma_aligned_page_count(region.start as int, region.end as int);
                }
                let bases = region.iter_pages(PAGE_SIZE);
                let ghost before = metadata@;
                let mut t: usize = 0;
                while t < bases.len()
                    invariant
                        t <= bases@.len(),
                        bases@.len() == (region.end - region.start) / (PAGE_SIZE as int),
                        forall|u: int|
                            0 <= u < bases@.len() ==> #[trigger] bases@[u] == region.start + u
                                * PAGE_SIZE,
                        region.end + PAGE_SIZE - 1 <= usize::MAX,
                        metadata@ == before + region_pages(region, metadata_addr, metadata_end).take(
                            t as int,
                        ),
                        forall|u: int|
                            0 <= u < before.len() ==> #[trigger] before[u].base + PAGE_SIZE
                                <= usize::MAX,
                        forall|u: int|
                            0 <= u < metadata@.len() ==> #[trigger] metadata@[u].base + PAGE_SIZE
                                <= usize::MAX,
                    decreases bases@.len() - t,
                {
                    proof {
                        assert(bases@[t as int] + PAGE_SIZE <= region.end) by (nonlinear_arith)
                            requires
                                bases@[t as int] == region.start + t * PAGE_SIZE,
                                t < (region.end - region.start) / (PAGE_SIZE as int),
                                region.start <= region.end,
                        {
                            vstd::arithmetic::div_mod::lemma_fundamental_div_mod(
                                region.end - region.start,
                                PAGE_SIZE as int,
                            );
                            vstd::arithmetic::div_mod::lemma_mod_bound(
                                region.end - region.start,
                                PAGE_SIZE as int,
                            );
                        }
                    }
                    let page = Self::phys_addr_to_physical_page(bases[t], metadata_addr, metadata_end);
                    metadata.push(page);
                    proof {
                        assert(region_pages(region, metadata_addr, metadata_end).take(t as int + 1)
                            =~= region_pages(region, metadata_addr, metadata_end).take(t as int).push(
                            page,
                        ));
                        assert(metadata@ =~= before + region_pages(region, metadata_addr, metadata_end).take(
                            t as int + 1,
                        ));
                    }
                    t = t + 1;
                }
                proof {
                    assert(region_pages(region, metadata_addr, metadata_end).take(t as int)
                        =~= region_pages(region, metadata_addr, metadata_end));
                }
            }
            proof {
                assert(metadata@ =~= regions_pages(
                    available_regions@,
                    i as int + 1,
                    metadata_addr,
                    metadata_end,
                ));
            }
            i = i + 1;
        }
        self.metadata = metadata;
        self.metadata_start = metadata_addr;
        Ok(())
    }
}

/// The addresses of the allocated pages among the first `n` descriptors, in order.
pub open spec fn allocated_bases(pages: Seq<PhysicalPage>, n: int) -> Seq<usize>
    decreases n,
{
    if n <= 0 {
        Seq::empty()
    } else if pages[n - 1].kind == PageKind::Allocated {
        allocated_bases(pages, n - 1).push(pages[n - 1].base)
    } else {
        allocated_bases(pages, n - 1)
    }
}

/// The page-sized steps from the first descriptor to the last one: `start`, `start + PAGE_SIZE`,
/// ... up to the address of the last of `count` descriptors.
pub open spec fn metadata_page_addrs(start: usize, count: int) -> Seq<usize> {
    Seq::new(
        (((count - 1) * METADATA_ENTRY_SIZE) / (PAGE_SIZE as int) + 1) as nat,
        |t: int| (start + t * PAGE_SIZE) as usize,
    )
}

impl PageAlloc for PhysicalMemoryManager {
    open spec fn serves_requests(&self) -> bool {
        self.wf()
    }

    open spec fn lists_used_pages(&self) -> bool {
        &&& self.pages().len() > 0
        &&& self.spec_metadata_start() + (self.pages().len() - 1) * METADATA_ENTRY_SIZE
            <= usize::MAX
    }

    /// Hands out the first run of `page_count` free, physically contiguous pages, as
    /// `alloc_pages` does.
    fn allocate(&mut self, page_count: usize) -> (r: Result<usize, AllocatorError>)
        ensures
            final(self).spec_metadata_start() == old(self).spec_metadata_start(),
            match r {
                Ok(base) => exists|i: int|
                    #![trigger run_len(old(self).pages(), i)]
                    first_run_end(old(self).pages(), page_count as int, i) && base == old(
                        self,
                    ).pages()[i - page_count + 1].base && final(self).pages() == allocate_run(
                        old(self).pages(),
                        i - page_count + 1,
                        i,
                    ),
                Err(e) => e == AllocatorError::OutOfMemory && final(self).pages() == old(
                    self,
                ).pages() && (page_count == 0 || forall|i: int|
                    0 <= i < old(self).pages().len() ==> #[trigger] run_len(old(self).pages(), i)
                        != page_count),
            },
    {
        self.alloc_pages(page_count)
    }

    /// Giving pages back is not supported: nothing changes.
    fn dealloc(&mut self, _base: usize, _page_count: usize) -> (r: Result<(), AllocatorError>)
        ensures
            r == Ok::<(), AllocatorError>(()),
            final(self).pages() == old(self).pages(),
            final(self).spec_metadata_start() == old(self).spec_metadata_start(),
    {
        Ok(())
    }

    /// The pages in use: the page-sized steps through the descriptors, then the allocated
    /// pages in order.
    fn used_pages(&self) -> (used: Vec<usize>)
        ensures
            used@ == metadata_page_addrs(self.spec_metadata_start(), self.pages().len() as int)
                + allocated_bases(self.pages(), self.pages().len() as int),
    {
        let metadata_start = self.metadata_start;
        let metadata_last = self.metadata_start + (self.metadata.len() - 1) * METADATA_ENTRY_SIZE;
        let ghost count: int = ((self.metadata@.len() - 1) * METADATA_ENTRY_SIZE) / (
        PAGE_SIZE as int) + 1;
        let ghost span: int = (self.metadata@.len() - 1) * METADATA_ENTRY_SIZE;
        proof {
            vstd::arithmetic::div_mod::lemma_fundamental_div_mod(span, PAGE_SIZE as int);
            vstd::arithmetic::div_mod::lemma_mod_bound(span, PAGE_SIZE as int);
            assert(0 <= span) by (nonlinear_arith)
                requires
                    self.metadata@.len() >= 1,
                    span == (self.metadata@.len() - 1) * METADATA_ENTRY_SIZE,
            ;
        }
        let mut used: Vec<usize> = Vec::new();
        let mut addr: usize = metadata_start;
        let mut done = false;
        assert(used@.len() * PAGE_SIZE == 0) by (nonlinear_arith)
            requires
                used@.len() == 0,
        ;
        while !done
            invariant
                metadata_last == metadata_start + span,
                0 <= span,
                span == PAGE_SIZE * (count - 1) + span % (PAGE_SIZE as int),
                0 <= span % (PAGE_SIZE as int) < PAGE_SIZE,
                !done ==> addr == metadata_start + used@.len() * PAGE_SIZE,
                !done ==> addr <= metadata_last,
                metadata_page_addrs(metadata_start, self.metadata@.len() as int).len() == count,
                !done ==> used@.len() < count,
                done ==> used@.len() == count,
                used@ =~= metadata_page_addrs(metadata_start, self.metadata@.len() as int).take(
                    used@.len() as int,
                ),
            decreases count - used@.len(),
        {
            proof {
                assert(used@.len() * PAGE_SIZE + PAGE_SIZE == (used@.len() + 1) * PAGE_SIZE)
                    by (nonlinear_arith);
                assert(metadata_page_addrs(metadata_start, self.metadata@.len() as int)[used@.len() as int]
                    == addr);
            }
            let ghost before = used@;
            used.push(addr);
            proof {
                assert(used@ =~= metadata_page_addrs(metadata_start, self.metadata@.len() as int).take(
                    before.len() as int + 1,
                ));
            }
            if metadata_last - addr < PAGE_SIZE {
                done = true;
                proof {
                    assert(used@.len() == count) by (nonlinear_arith)
                        requires
                            addr == metadata_start + (used@.len() - 1) * PAGE_SIZE,
                            metadata_last - addr < PAGE_SIZE,
                            addr <= metadata_last,
                            metadata_last == metadata_start + span,
                            span == PAGE_SIZE * (count - 1) + span % (PAGE_SIZE as int),
                            0 <= span % (PAGE_SIZE as int) < PAGE_SIZE,
                    ;
                }
            } else {
                addr = addr + PAGE_SIZE;
                proof {
                    assert(used@.len() < count) by (nonlinear_arith)
                        requires
                            addr == metadata_start + used@.len() * PAGE_SIZE,
                            addr <= metadata_last,
                            metadata_last == metadata_start + span,
                            span == PAGE_SIZE * (count - 1) + span % (PAGE_SIZE as int),
                            0 <= span % (PAGE_SIZE as int) < PAGE_SIZE,
                    ;
                }
            }
        }
        let ghost head = used@;
        let mut i: usize = 0;
        while i < self.metadata.len()
            invariant
                i <= self.metadata@.len(),
                used@ == head + allocated_bases(self.metadata@, i as int),
            decreases self.metadata@.len() - i,
        {
            if self.metadata[i].is_allocated() {
                used.push(self.metadata[i].base);
            }
            proof {
                assert(used@ =~= head + allocated_bases(self.metadata@, i as int + 1));
            }
            i = i + 1;
        }
        used
    }

}

/// The slots filled with the memory regions `(base, size)`, in order, the rest empty.
pub open spec fn initial_regions(memory: Seq<(usize, usize)>, n: nat) -> Seq<Option<AddressRange>> {
    Seq::new(
        n,
        |i: int|
            if i < memory.len() {
                Some(range(memory[i].0, (memory[i].0 + memory[i].1) as usize))
            } else {
                None
            },
    )
}

/// The slots after the first `k` ranges of `excluded` were taken out of them, one after the
/// other.
pub open spec fn exclude_each(
    regions: Seq<Option<AddressRange>>,
    excluded: Seq<AddressRange>,
    k: int,
) -> Seq<Option<AddressRange>>
    decreases k,
{
    if k <= 0 {
        regions
    } else {
        exclude_spec(exclude_each(regions, excluded, k - 1), excluded[k - 1])
    }
}

/// Each of the first `k` ranges of `excluded` can be taken out in turn.
pub open spec fn exclude_each_defined(
    regions: Seq<Option<AddressRange>>,
    excluded: Seq<AddressRange>,
    k: int,
) -> bool
    decreases k,
{
    if k <= 0 {
        true
    } else {
        &&& exclude_each_defined(regions, excluded, k - 1)
        &&& exclude_defined(exclude_each(regions, excluded, k - 1), excluded[k - 1])
    }
}

/// The region moved to page boundaries: its start by `align_down`, its end by `align_up`; it is
/// dropped when nothing is left of it.
pub open spec fn realigned(slot: Option<AddressRange>) -> Option<AddressRange> {
    match slot {
        None => None,
        Some(r) => {
            let start = spec_align_down(r.start as int, PAGE_SIZE as int) as usize;
            let end = spec_align_up(r.end as int, PAGE_SIZE as int) as usize;
            if end - start > 0 {
                Some(range(start, end))
            } else {
                None
            }
        },
    }
}

/// The region can be moved to page boundaries: both bounds can be computed and the start does
/// not end up above the end.
pub open spec fn realign_defined(slot: Option<AddressRange>) -> bool {
    match slot {
        None => true,
        Some(r) => {
            &&& r.start + PAGE_SIZE - 1 <= usize::MAX
            &&& spec_align_up(r.start as int, PAGE_SIZE as int) + PAGE_SIZE <= usize::MAX
            &&& r.end + PAGE_SIZE - 1 <= usize::MAX
            &&& spec_align_down(r.start as int, PAGE_SIZE as int) <= spec_align_up(
                r.end as int,
                PAGE_SIZE as int,
            )
        },
    }
}

/// The ranges taken out of the memory regions: the kernel, the device tree, then each reserved
/// region `(base, size)`.
pub open spec fn excluded_ranges(
    kernel_region: AddressRange,
    device_tree_region: (usize, usize),
    reserved: Seq<(usize, usize)>,
) -> Seq<AddressRange> {
    seq![kernel_region, range(device_tree_region.0, device_tree_region.1)] + Seq::new(
        reserved.len(),
        |i: int| range(reserved[i].0, (reserved[i].0 + reserved[i].1) as usize),
    )
}

/// The memory regions, with the excluded ranges taken out, before they are moved to page
/// boundaries.
pub open spec fn unaligned_available_regions(
    memory: Seq<(usize, usize)>,
    n: nat,
    kernel_region: AddressRange,
    device_tree_region: (usize, usize),
    reserved: Seq<(usize, usize)>,
) -> Seq<Option<AddressRange>> {
    let excluded = excluded_ranges(kernel_region, device_tree_region, reserved);
    exclude_each(initial_regions(memory, n), excluded, excluded.len() as int)
}

impl PhysicalMemoryManager {
    /// The memory available for pages: the memory regions `(base, size)` put in slots in
    /// order, with the kernel, the device tree and each reserved region `(base, size)` taken
    /// out, then moved to page boundaries.
    pub fn available_memory_regions<const MAX_REGIONS: usize>(
        memory: &Vec<(usize, usize)>,
        kernel_region: AddressRange,
        device_tree_region: (usize, usize),
        reserved: &Vec<(usize, usize)>,
    ) -> (regions: [Option<AddressRange>; MAX_REGIONS])
        requires
            memory@.len() < MAX_REGIONS,
            forall|i: int| 0 <= i < memory@.len() ==> #[trigger] memory@[i].0 + memory@[i].1 <= usize::MAX,
            forall|i: int|
                0 <= i < reserved@.len() ==> 0 < #[trigger] reserved@[i].1 && reserved@[i].0
                    + reserved@[i].1 <= usize::MAX,
            exclude_each_defined(
                initial_regions(memory@, MAX_REGIONS as nat),
                excluded_ranges(kernel_region, device_tree_region, reserved@),
                reserved@.len() as int + 2,
            ),
            forall|i: int|
                0 <= i < MAX_REGIONS ==> realign_defined(
                    #[trigger] unaligned_available_regions(
                        memory@,
                        MAX_REGIONS as nat,
                        kernel_region,
                        device_tree_region,
                        reserved@,
                    )[i],
                ),
        ensures
            regions@ == unaligned_available_regions(
                memory@,
                MAX_REGIONS as nat,
                kernel_region,
                device_tree_region,
                reserved@,
            ).map_values(|slot: Option<AddressRange>| realigned(slot)),
    {
        let ghost excluded = excluded_ranges(kernel_region, device_tree_region, reserved@);
        let ghost initial = initial_regions(memory@, MAX_REGIONS as nat);
        let mut all_regions: [Option<AddressRange>; MAX_REGIONS] = [None; MAX_REGIONS];
        let mut i: usize = 0;
        while i < memory.len()
            invariant
                i <= memory@.len(),
                memory@.len() < MAX_REGIONS,
                forall|j: int| 0 <= j < memory@.len() ==> #[trigger] memory@[j].0 + memory@[j].1 <= usize::MAX,
                forall|j: int|
                    0 <= j < MAX_REGIONS ==> #[trigger] all_regions@[j] == if j < i {
                        initial[j]
                    } else {
                        None
                    },
                initial == initial_regions(memory@, MAX_REGIONS as nat),
            decreases memory@.len() - i,
        {
            let (base, size) = memory[i];
            all_regions[i] = Some(AddressRange { start: base, end: base + size });
            i = i + 1;
        }
        proof {
            assert(all_regions@ =~= initial);
            assert(exclude_each(initial, excluded, 0) == initial);
            assert(excluded[0] == kernel_region);
            assert(excluded[1] == range(device_tree_region.0, device_tree_region.1));
        }
        proof {
            lemma_exclude_each_defined_mono(initial, excluded, 1, reserved@.len() as int + 2);
        }
        exclude_range(&mut all_regions, kernel_region);
        proof {
            lemma_exclude_each_defined_mono(initial, excluded, 2, reserved@.len() as int + 2);
        }
        exclude_range(
            &mut all_regions,
            AddressRange { start: device_tree_region.0, end: device_tree_region.1 },
        );
        let mut k: usize = 0;
        while k < reserved.len()
            invariant
                k <= reserved@.len(),
                excluded == excluded_ranges(kernel_region, device_tree_region, reserved@),
                forall|j: int|
                    0 <= j < reserved@.len() ==> 0 < #[trigger] reserved@[j].1 && reserved@[j].0
                        + reserved@[j].1 <= usize::MAX,
                exclude_each_defined(initial, excluded, reserved@.len() as int + 2),
                all_regions@ == exclude_each(initial, excluded, k as int + 2),
            decreases reserved@.len() - k,
        {
            let (base, size) = reserved[k];
            proof {
                lemma_exclude_each_defined_mono(initial, excluded, k as int + 3, reserved@.len() as int + 2);
                assert(excluded[k + 2] == range(base, (base + size) as usize));
            }
            exclude_range(&mut all_regions, AddressRange::with_size(base, size));
            k = k + 1;
        }
        let ghost unaligned = all_regions@;
        proof {
            assert(excluded.len() == reserved@.len() + 2);
            assert(unaligned == unaligned_available_regions(
                memory@,
                MAX_REGIONS as nat,
                kernel_region,
                device_tree_region,
                reserved@,
            ));
        }
        let mut j: usize = 0;
        while j < MAX_REGIONS
            invariant
                j <= MAX_REGIONS,
                unaligned.len() == MAX_REGIONS,
                forall|t: int| 0 <= t < MAX_REGIONS ==> realign_defined(#[trigger] unaligned[t]),
                forall|t: int|
                    0 <= t < MAX_REGIONS ==> #[trigger] all_regions@[t] == if t < j {
                        realigned(unaligned[t])
                    } else {
                        unaligned[t]
                    },
            decreases MAX_REGIONS - j,
        {
            if let Some(region) = all_regions[j] {
                proof {
                    assert(realign_defined(unaligned[j as int]));
                }
                let start = align_down(region.start, PAGE_SIZE);
                let end = align_up(region.end, PAGE_SIZE);
                let moved = AddressRange { start, end };
                all_regions[j] = if moved.size() > 0 {
                    Some(moved)
                } else {
                    None
                };
            }
            j = j + 1;
        }
        proof {
            assert(all_regions@ =~= unaligned.map_values(|slot: Option<AddressRange>| realigned(slot)));
        }
        all_regions
    }
}

proof fn lemma_exclude_each_defined_mono(
    regions: Seq<Option<AddressRange>>,
    excluded: Seq<AddressRange>,
    m: int,
    n: int,
)
    requires
        0 <= m <= n,
        exclude_each_defined(regions, excluded, n),
    ensures
        exclude_each_defined(regions, excluded, m),
    decreases n - m,
{
    if m < n {
        lemma_exclude_each_defined_mono(regions, excluded, m, n - 1);
    }
}

proof fn lemma_aligned_regions_ordered(regions: Seq<Option<AddressRange>>)
    requires
        regions_page_aligned(regions),
    ensures
        regions_ordered(regions),
{
    assert forall|k: int| 0 <= k < regions.len() && #[trigger] regions[k] is Some implies regions[k]->0.start
        <= regions[k]->0.end by {
    }
}

/// A range between two page boundaries holds a whole number of pages.
proof fn lemma_aligned_page_count(start: int, end: int)
    requires
        0 <= start <= end,
        start == spec_align_up(start, PAGE_SIZE as int),
        end == spec_align_up(end, PAGE_SIZE as int),
    ensures
        (end - start + PAGE_SIZE - 1) / (PAGE_SIZE as int) == (end - start) / (PAGE_SIZE as int),
        (end - start) % (PAGE_SIZE as int) == 0,
{
    lemma_align_up_bounds(start, PAGE_SIZE as int);
    lemma_align_up_bounds(end, PAGE_SIZE as int);
    let ps = PAGE_SIZE as int;
    vstd::arithmetic::div_mod::lemma_fundamental_div_mod(start, ps);
    vstd::arithmetic::div_mod::lemma_fundamental_div_mod(end, ps);
    let a = start / ps;
    let b = end / ps;
    assert(end - start == (b - a) * ps) by (nonlinear_arith)
        requires
            start == ps * a + 0,
            end == ps * b + 0,
    ;
    vstd::arithmetic::div_mod::lemma_fundamental_div_mod_converse(end - start, ps, b - a, 0);
    vstd::arithmetic::div_mod::lemma_fundamental_div_mod_converse(
        end - start + ps - 1,
        ps,
        b - a,
        ps - 1,
    );
}

/// A page boundary at least `m` bytes above `start` (itself a page boundary) is at or above
/// `start + align_up(m)`.
proof fn lemma_multiple_above_align_up(start: int, end: int, m: int)
    requires
        0 <= start <= end,
        0 <= m <= end - start,
        start == spec_align_up(start, PAGE_SIZE as int),
        end == spec_align_up(end, PAGE_SIZE as int),
    ensures
        start + spec_align_up(m, PAGE_SIZE as int) <= end,
{
    lemma_aligned_page_count(start, end);
    lemma_align_up_bounds(m, PAGE_SIZE as int);
    let ps = PAGE_SIZE as int;
    let au = spec_align_up(m, ps);
    vstd::arithmetic::div_mod::lemma_fundamental_div_mod(end - start, ps);
    vstd::arithmetic::div_mod::lemma_fundamental_div_mod(au, ps);
    let k = (end - start) / ps;
    let q = au / ps;
    assert(q <= k) by (nonlinear_arith)
        requires
            end - start == ps * k + 0,
            au == ps * q + 0,
            m <= end - start,
            au < m + ps,
            ps > 0,
    ;
    assert(au <= end - start) by (nonlinear_arith)
        requires
            end - start == ps * k,
            au == ps * q,
            q <= k,
            ps > 0,
    ;
}

proof fn lemma_find_large_region_found(regions: Seq<Option<AddressRange>>, m: int, k: int)
    requires
        0 <= k,
        spec_find_large_region(regions, m, k) is Some,
    ensures
        exists|j: int|
            k <= j < regions.len() && regions[j] is Some && regions[j]->0.start
                == spec_find_large_region(regions, m, k)->0 && regions[j]->0.spec_size() >= m,
    decreases regions.len() - k,
{
    if !(regions[k] is Some && regions[k]->0.spec_size() >= m) {
        lemma_find_large_region_found(regions, m, k + 1);
    }
}

proof fn lemma_total_size_mono(regions: Seq<Option<AddressRange>>, m: int, n: int)
    requires
        0 <= m <= n <= regions.len(),
        regions_ordered(regions),
    ensures
        0 <= total_size(regions, m) <= total_size(regions, n),
    decreases n - m,
{
    if m < n {
        lemma_total_size_mono(regions, m, n - 1);
        if regions[n - 1] is Some {
            assert(regions[n - 1]->0.start <= regions[n - 1]->0.end);
        }
    } else {
        lemma_total_size_nonneg(regions, m);
    }
}

proof fn lemma_total_size_nonneg(regions: Seq<Option<AddressRange>>, n: int)
    requires
        n <= regions.len(),
        regions_ordered(regions),
    ensures
        0 <= total_size(regions, n),
    decreases n,
{
    if n > 0 {
        lemma_total_size_nonneg(regions, n - 1);
        if regions[n - 1] is Some {
            assert(regions[n - 1]->0.start <= regions[n - 1]->0.end);
        }
    }
}
/// A run the allocator counts is made of free pages, each one page above the previous one in
/// memory.
pub proof fn lemma_run_is_free_and_contiguous(pages: Seq<PhysicalPage>, i: int)
    requires
        run_len(pages, i) > 0,
    ensures
        0 <= i < pages.len(),
        run_len(pages, i) <= i + 1,
        forall|k: int|
            i - run_len(pages, i) + 1 <= k <= i ==> (#[trigger] pages[k]).kind == PageKind::Free
                && pages[k].base == pages[i - run_len(pages, i) + 1].base + (k - (i - run_len(
                pages,
                i,
            ) + 1)) * PAGE_SIZE,
    decreases i,
{
    let c = run_len(pages, i);
    if i > 0 && run_len(pages, i - 1) > 0 {
        lemma_run_is_free_and_contiguous(pages, i - 1);
        let c1 = run_len(pages, i - 1);
        assert(c == c1 + 1);
        assert forall|k: int| i - c + 1 <= k <= i implies (#[trigger] pages[k]).kind == PageKind::Free
            && pages[k].base == pages[i - c + 1].base + (k - (i - c + 1)) * PAGE_SIZE by {
            if k < i {
                assert(pages[k].base == pages[i - c1].base + (k - (i - c1)) * PAGE_SIZE);
            } else {
                assert(pages[i - 1].base == pages[i - c1].base + (i - 1 - (i - c1)) * PAGE_SIZE);
                assert((i - 1 - (i - c1)) * PAGE_SIZE + PAGE_SIZE == (k - (i - c + 1)) * PAGE_SIZE)
                    by (nonlinear_arith)
                    requires
                        c == c1 + 1,
                        k == i,
                ;
            }
        }
    } else {
        assert(c == 1);
        assert forall|k: int| i - c + 1 <= k <= i implies (#[trigger] pages[k]).kind == PageKind::Free
            && pages[k].base == pages[i - c + 1].base + (k - (i - c + 1)) * PAGE_SIZE by {
            assert(k == i);
            assert((k - (i - c + 1)) * PAGE_SIZE == 0) by (nonlinear_arith)
                requires
                    k == i - c + 1,
            ;
        }
    }
}

/// Two allocations one after the other hand out disjoint runs of pages: the pages of the first
/// are allocated, so no later run holds any of them.
pub proof fn lemma_successive_allocations_disjoint(
    pages: Seq<PhysicalPage>,
    count1: int,
    end1: int,
    count2: int,
    end2: int,
)
    requires
        0 < count1,
        0 < count2,
        first_run_end(pages, count1, end1),
        first_run_end(allocate_run(pages, end1 - count1 + 1, end1), count2, end2),
    ensures
        end2 < end1 - count1 + 1 || end1 < end2 - count2 + 1,
{
    let after = allocate_run(pages, end1 - count1 + 1, end1);
    lemma_run_is_free_and_contiguous(pages, end1);
    lemma_run_is_free_and_contiguous(after, end2);
    if !(end2 < end1 - count1 + 1 || end1 < end2 - count2 + 1) {
        let k = if end2 <= end1 {
            end2
        } else {
            end1
        };
        assert(end2 - count2 + 1 <= k <= end2);
        assert(after[k].kind == PageKind::Free);
        assert(after[k].kind == PageKind::Allocated);
    }
}

/// The pages of whole-page regions are as many as their bytes make pages.
pub proof fn lemma_regions_pages_len(
    regions: Seq<Option<AddressRange>>,
    n: int,
    metadata_start: usize,
    metadata_end: usize,
)
    requires
        0 <= n <= regions.len(),
        regions_page_aligned(regions),
    ensures
        regions_pages(regions, n, metadata_start, metadata_end).len() == total_size(regions, n)
            / (PAGE_SIZE as int),
        total_size(regions, n) % (PAGE_SIZE as int) == 0,
    decreases n,
{
    if n > 0 {
        lemma_regions_pages_len(regions, n - 1, metadata_start, metadata_end);
        let prev = total_size(regions, n - 1);
        let ps = PAGE_SIZE as int;
        vstd::arithmetic::div_mod::lemma_fundamental_div_mod(prev, ps);
        if let Some(r) = regions[n - 1] {
            assert(regions[n - 1] is Some);
            lemma_aligned_page_count(r.start as int, r.end as int);
            vstd::arithmetic::div_mod::lemma_fundamental_div_mod(r.end - r.start, ps);
            let a = prev / ps;
            let b = (r.end - r.start) / ps;
            assert(prev + (r.end - r.start) == (a + b) * ps) by (nonlinear_arith)
                requires
                    prev == ps * a + 0,
                    r.end - r.start == ps * b + 0,
            ;
            vstd::arithmetic::div_mod::lemma_fundamental_div_mod_converse(
                prev + (r.end - r.start),
                ps,
                a + b,
                0,
            );
        }
    }
}

/// The number of slots of the available regions when they come from the device tree.
pub const DEVICE_TREE_MAX_REGIONS: usize = 10;

/// The available regions the manager is built from: those of `available_memory_regions` on the
/// memory regions and reserved regions of the device tree, with the kernel at
/// `[kernel_start; kernel_end[` and the device tree itself taken out.
pub open spec fn device_tree_regions(device_tree: DeviceTree, kernel_start: usize, kernel_end: usize) -> Seq<
    Option<AddressRange>,
> {
    unaligned_available_regions(
        device_tree.spec_memory(),
        DEVICE_TREE_MAX_REGIONS as nat,
        range(kernel_start, kernel_end),
        (device_tree.spec_addr(), (device_tree.spec_addr() + device_tree.spec_total_size()) as usize),
        device_tree.spec_reserved(),
    ).map_values(|slot: Option<AddressRange>| realigned(slot))
}

/// The available regions can be computed from the device tree: the memory regions fit in the
/// slots, no region wraps around, each excluded range can be taken out and each region can be
/// moved to page boundaries.
pub open spec fn device_tree_regions_defined(device_tree: DeviceTree, kernel_start: usize, kernel_end: usize) -> bool {
    let memory = device_tree.spec_memory();
    let reserved = device_tree.spec_reserved();
    let kernel_region = range(kernel_start, kernel_end);
    let device_tree_region = (
        device_tree.spec_addr(),
        (device_tree.spec_addr() + device_tree.spec_total_size()) as usize,
    );
    &&& memory.len() < DEVICE_TREE_MAX_REGIONS
    &&& forall|i: int| 0 <= i < memory.len() ==> #[trigger] memory[i].0 + memory[i].1 <= usize::MAX
    &&& forall|i: int|
        0 <= i < reserved.len() ==> 0 < #[trigger] reserved[i].1 && reserved[i].0 + reserved[i].1
            <= usize::MAX
    &&& exclude_each_defined(
        initial_regions(memory, DEVICE_TREE_MAX_REGIONS as nat),
        excluded_ranges(kernel_region, device_tree_region, reserved),
        reserved.len() as int + 2,
    )
    &&& forall|i: int|
        0 <= i < DEVICE_TREE_MAX_REGIONS ==> realign_defined(
            #[trigger] unaligned_available_regions(
                memory,
                DEVICE_TREE_MAX_REGIONS as nat,
                kernel_region,
                device_tree_region,
                reserved,
            )[i],
        )
}

impl PhysicalMemoryManager {
    /// Builds the descriptors of the pages of the memory the device tree describes, less the
    /// kernel at `[kernel_start; kernel_end[`, the device tree itself and the reserved regions.
    pub fn init_from_device_tree(&mut self, device_tree: &DeviceTree, kernel_start: usize, kernel_end: usize) -> (r:
        Result<(), AllocatorError>)
        requires
            old(self).wf(),
            kernel_start < kernel_end,
            device_tree_regions_defined(*device_tree, kernel_start, kernel_end),
            regions_page_aligned(device_tree_regions(*device_tree, kernel_start, kernel_end)),
            total_size(
                device_tree_regions(*device_tree, kernel_start, kernel_end),
                DEVICE_TREE_MAX_REGIONS as int,
            ) <= usize::MAX,
            metadata_size(device_tree_regions(*device_tree, kernel_start, kernel_end)) + PAGE_SIZE - 1
                <= usize::MAX,
        ensures
            final(self).wf(),
            ({
                let regions = device_tree_regions(*device_tree, kernel_start, kernel_end);
                match spec_find_large_region(regions, metadata_size(regions), 0) {
                    None => r == Err::<(), AllocatorError>(AllocatorError::NotEnoughMemoryForMetadata)
                        && final(self).pages() == old(self).pages() && final(self).spec_metadata_start()
                        == old(self).spec_metadata_start(),
                    Some(addr) => r == Ok::<(), AllocatorError>(()) && final(self).spec_metadata_start()
                        == addr && final(self).pages() == regions_pages(
                        regions,
                        regions.len() as int,
                        addr,
                        (addr + metadata_pages(regions) * PAGE_SIZE) as usize,
                    ),
                }
            }),
    {
        let available_regions = Self::available_memory_regions::<10>(
            device_tree.for_all_memory_regions(),
            kernel_memory_region(kernel_start, kernel_end),
            device_tree.memory_region(),
            device_tree.for_all_reserved_memory_regions(),
        );
        assert(available_regions@ =~= device_tree_regions(*device_tree, kernel_start, kernel_end));
        self.init_from_regions(&available_regions)
    }
}

/// Each descriptor of the pages of the first `n` regions is free or a metadata page, as its base
/// lies in `[metadata_start; metadata_end[` or not.
proof fn lemma_regions_pages_kind(
    regions: Seq<Option<AddressRange>>,
    n: int,
    metadata_start: usize,
    metadata_end: usize,
)
    ensures
        forall|i: int|
            0 <= i < regions_pages(regions, n, metadata_start, metadata_end).len() ==> {
                let p = #[trigger] regions_pages(regions, n, metadata_start, metadata_end)[i];
                p.kind == if metadata_start <= p.base < metadata_end {
                    PageKind::Metadata
                } else {
                    PageKind::Free
                }
            },
    decreases n,
{
    if n > 0 {
        lemma_regions_pages_kind(regions, n - 1, metadata_start, metadata_end);
        let prev = regions_pages(regions, n - 1, metadata_start, metadata_end);
        let all = regions_pages(regions, n, metadata_start, metadata_end);
        assert forall|i: int| 0 <= i < all.len() implies {
            let p = #[trigger] all[i];
            p.kind == if metadata_start <= p.base < metadata_end {
                PageKind::Metadata
            } else {
                PageKind::Free
            }
        } by {
            if i < prev.len() {
                assert(all[i] == prev[i]);
            }
        }
    }
}

/// The pages that hold the descriptors are reserved: the manager built from `regions`, with its
/// descriptors from `metadata_start` on, reserves pages enough for one descriptor of
/// METADATA_ENTRY_SIZE bytes per page of the regions, and every page whose base lies among
/// those descriptor bytes, `[metadata_start; metadata_start + (number of pages) *
/// METADATA_ENTRY_SIZE[`, is a metadata page, never a free one.
pub proof fn lemma_descriptor_pages_reserved(regions: Seq<Option<AddressRange>>, metadata_start: usize)
    requires
        regions_page_aligned(regions),
        metadata_start + metadata_pages(regions) * PAGE_SIZE <= usize::MAX,
    ensures
        ({
            let pages = regions_pages(
                regions,
                regions.len() as int,
                metadata_start,
                (metadata_start + metadata_pages(regions) * PAGE_SIZE) as usize,
            );
            &&& metadata_pages(regions) * PAGE_SIZE >= pages.len() * METADATA_ENTRY_SIZE
            &&& forall|i: int|
                0 <= i < pages.len() && metadata_start <= (#[trigger] pages[i]).base < metadata_start
                    + pages.len() * METADATA_ENTRY_SIZE ==> pages[i].kind == PageKind::Metadata
        }),
{
    let end = (metadata_start + metadata_pages(regions) * PAGE_SIZE) as usize;
    let n = regions.len() as int;
    lemma_regions_pages_len(regions, n, metadata_start, end);
    lemma_regions_pages_kind(regions, n, metadata_start, end);
    let size = metadata_size(regions);
    lemma_total_size_nonneg(regions, n);
    assert(size >= 0) by (nonlinear_arith)
        requires
            size == (total_size(regions, n) / (PAGE_SIZE as int)) * METADATA_ENTRY_SIZE,
            total_size(regions, n) >= 0,
    ;
    lemma_align_up_bounds(size, PAGE_SIZE as int);
    let a = spec_align_up(size, PAGE_SIZE as int);
    vstd::arithmetic::div_mod::lemma_fundamental_div_mod(a, PAGE_SIZE as int);
    assert(metadata_pages(regions) * PAGE_SIZE == a) by (nonlinear_arith)
        requires
            metadata_pages(regions) == a / (PAGE_SIZE as int),
            a == (PAGE_SIZE as int) * (a / (PAGE_SIZE as int)) + a % (PAGE_SIZE as int),
            a % (PAGE_SIZE as int) == 0,
    ;
}

} // verus!
