use vstd::prelude::*;

use crate::hal_core::mm::{lemma_align_up_bounds, spec_align_down, spec_align_up};
use crate::hal_core::AddressRange;
use crate::kernel::arch::riscv64::page_map::{range_page_count, range_pages};
use crate::kernel::mm::physical_memory_manager::{
    allocated_bases, realign_defined, realigned, region_pages, regions_pages, spec_find_large_region, PhysicalPage,
    PAGE_SIZE,
};
use crate::kernel::mm::physical_memory_manager::{
    exclude_at, exclude_each, exclude_prefix, exclude_spec, first_free, first_free_from, range, strictly_inside,
    trimmed,
};

verus! {

/// Every region of `after` lies inside a region of `before`.
pub open spec fn regions_within(after: Seq<Option<AddressRange>>, before: Seq<Option<AddressRange>>) -> bool {
    forall|k: int|
        0 <= k < after.len() && #[trigger] after[k] is Some ==> exists|i: int|
            0 <= i < before.len() && #[trigger] before[i] is Some && before[i]->0.start <= after[k]->0.start
                && after[k]->0.end <= before[i]->0.end
}

proof fn lemma_within_refl(a: Seq<Option<AddressRange>>)
    ensures
        regions_within(a, a),
{
    assert forall|k: int| 0 <= k < a.len() && #[trigger] a[k] is Some implies exists|i: int|
        0 <= i < a.len() && #[trigger] a[i] is Some && a[i]->0.start <= a[k]->0.start && a[k]->0.end
            <= a[i]->0.end by {
        assert(a[k] is Some);
    }
}

proof fn lemma_within_trans(a: Seq<Option<AddressRange>>, b: Seq<Option<AddressRange>>, c: Seq<Option<AddressRange>>)
    requires
        regions_within(a, b),
        regions_within(b, c),
    ensures
        regions_within(a, c),
{
    assert forall|k: int| 0 <= k < a.len() && #[trigger] a[k] is Some implies exists|i: int|
        0 <= i < c.len() && #[trigger] c[i] is Some && c[i]->0.start <= a[k]->0.start && a[k]->0.end
            <= c[i]->0.end by {
        let j = choose|j: int|
            0 <= j < b.len() && #[trigger] b[j] is Some && b[j]->0.start <= a[k]->0.start && a[k]->0.end
                <= b[j]->0.end;
        let i = choose|i: int|
            0 <= i < c.len() && #[trigger] c[i] is Some && c[i]->0.start <= b[j]->0.start && b[j]->0.end
                <= c[i]->0.end;
        assert(c[i] is Some);
    }
}

/// The search for an empty slot from `k` on ends at `k` or after it.
proof fn lemma_first_free_from_at_least(regions: Seq<Option<AddressRange>>, k: int)
    requires
        0 <= k <= regions.len(),
    ensures
        first_free_from(regions, k) >= k,
    decreases regions.len() - k,
{
    if k < regions.len() && regions[k] is Some {
        lemma_first_free_from_at_least(regions, k + 1);
    }
}

/// Taking a range out of one slot leaves every region inside a region of before.
proof fn lemma_exclude_at_within(regions: Seq<Option<AddressRange>>, i: int, excluded: AddressRange)
    requires
        0 <= i < regions.len(),
    ensures
        regions_within(exclude_at(regions, i, excluded), regions),
        exclude_at(regions, i, excluded).len() == regions.len(),
{
    let after = exclude_at(regions, i, excluded);
    match regions[i] {
        None => {
            lemma_within_refl(regions);
        },
        Some(region) => {
            if strictly_inside(region, excluded) {
                let left = regions.update(i, Some(range(region.start, excluded.start)));
                let f = first_free(left);
                lemma_first_free_from_at_least(left, 0);
                let right = Some(range(excluded.end, region.end));
                assert(f < left.len() ==> after == left.update(f, right));
                assert(f >= left.len() ==> after == left);
                assert forall|k: int| 0 <= k < after.len() && #[trigger] after[k] is Some implies exists|j: int|
                    0 <= j < regions.len() && #[trigger] regions[j] is Some && regions[j]->0.start
                        <= after[k]->0.start && after[k]->0.end <= regions[j]->0.end by {
                    if f < left.len() && k == f {
                        assert(after[k] == right);
                        assert(regions[i] is Some);
                    } else if f < left.len() {
                        assert(after[k] == left[k]);
                        if k == i {
                            assert(regions[i] is Some);
                        } else {
                            assert(regions[k] is Some);
                        }
                    } else {
                        assert(after[k] == left[k]);
                        if k == i {
                            assert(regions[i] is Some);
                        } else {
                            assert(regions[k] is Some);
                        }
                    }
                }
            } else {
                assert(after == regions.update(i, trimmed(region, excluded)));
                assert forall|k: int| 0 <= k < after.len() && #[trigger] after[k] is Some implies exists|j: int|
                    0 <= j < regions.len() && #[trigger] regions[j] is Some && regions[j]->0.start
                        <= after[k]->0.start && after[k]->0.end <= regions[j]->0.end by {
                    if k == i {
                        assert(after[k] == trimmed(region, excluded));
                        assert(regions[i] is Some);
                    } else {
                        assert(after[k] == regions[k]);
                        assert(regions[k] is Some);
                    }
                }
            }
        },
    }
}

/// Taking a range out of the first `n` slots leaves every region inside a region of before.
proof fn lemma_exclude_prefix_within(regions: Seq<Option<AddressRange>>, excluded: AddressRange, n: int)
    requires
        0 <= n <= regions.len(),
    ensures
        regions_within(exclude_prefix(regions, excluded, n), regions),
        exclude_prefix(regions, excluded, n).len() == regions.len(),
    decreases n,
{
    if n <= 0 {
        lemma_within_refl(regions);
    } else {
        lemma_exclude_prefix_within(regions, excluded, n - 1);
        let prev = exclude_prefix(regions, excluded, n - 1);
        lemma_exclude_at_within(prev, n - 1, excluded);
        lemma_within_trans(exclude_at(prev, n - 1, excluded), prev, regions);
    }
}

/// Taking out each of the first `k` excluded ranges in turn leaves every region inside a
/// region of before.
pub proof fn lemma_exclude_each_within(regions: Seq<Option<AddressRange>>, excluded: Seq<AddressRange>, k: int)
    requires
        0 <= k <= excluded.len(),
    ensures
        regions_within(exclude_each(regions, excluded, k), regions),
        exclude_each(regions, excluded, k).len() == regions.len(),
    decreases k,
{
    if k <= 0 {
        lemma_within_refl(regions);
    } else {
        lemma_exclude_each_within(regions, excluded, k - 1);
        let prev = exclude_each(regions, excluded, k - 1);
        lemma_exclude_prefix_within(prev, excluded[k - 1], prev.len() as int);
        lemma_within_trans(exclude_spec(prev, excluded[k - 1]), prev, regions);
    }
}

/// `a` is one of the pages of one of the `ranges`, as a page table walks them.
pub open spec fn page_of_ranges(a: usize, ranges: Seq<AddressRange>) -> bool {
    exists|i: int, k: int|
        0 <= i < ranges.len() && 0 <= k < range_page_count(ranges[i]) && #[trigger] range_pages(
            ranges[i].start as int,
            range_page_count(ranges[i]),
        )[k] == a
}

/// A page of a region moved to page boundaries is a page of a page-aligned range that holds the
/// region.
proof fn lemma_realigned_page_in_range(r: AddressRange, m: AddressRange, t: int)
    requires
        m.start <= r.start,
        r.end <= m.end,
        m.start % PAGE_SIZE == 0,
        m.end % PAGE_SIZE == 0,
        realign_defined(Some(r)),
        realigned(Some(r)) is Some,
        0 <= t < (realigned(Some(r))->0.end - realigned(Some(r))->0.start) / (PAGE_SIZE as int),
    ensures
        ({
            let a = realigned(Some(r))->0.start + t * PAGE_SIZE;
            let k = (a - m.start) / (PAGE_SIZE as int);
            &&& 0 <= k < range_page_count(m)
            &&& range_pages(m.start as int, range_page_count(m))[k] == a
            &&& a < m.end
        }),
{
    let ps = PAGE_SIZE as int;
    let s1 = spec_align_up(r.start as int, ps);
    let e1 = spec_align_up(r.end as int, ps);
    lemma_align_up_bounds(r.start as int, ps);
    lemma_align_up_bounds(r.end as int, ps);
    let s2 = s1 + ps;
    assert(s2 == spec_align_down(r.start as int, ps));
    let rr = realigned(Some(r))->0;
    assert(rr.start == s2 && rr.end == e1);
    vstd::arithmetic::div_mod::lemma_fundamental_div_mod(s1, ps);
    vstd::arithmetic::div_mod::lemma_fundamental_div_mod(e1, ps);
    vstd::arithmetic::div_mod::lemma_fundamental_div_mod(m.start as int, ps);
    vstd::arithmetic::div_mod::lemma_fundamental_div_mod(m.end as int, ps);
    let qs = s1 / ps + 1;
    let qe = e1 / ps;
    let q0 = (m.start as int) / ps;
    let q1 = (m.end as int) / ps;
    assert(s2 == ps * qs);
    assert(e1 == ps * qe);
    assert(m.start == ps * q0);
    assert(m.end == ps * q1);
    assert(e1 <= m.end) by (nonlinear_arith)
        requires
            e1 == ps * qe,
            m.end == ps * q1,
            r.end <= e1 < r.end + ps,
            r.end <= m.end,
            ps > 0,
    ;
    assert((e1 - s2) / ps == qe - qs) by (nonlinear_arith)
        requires
            e1 - s2 == ps * (qe - qs),
            ps > 0,
    ;
    let a = s2 + t * ps;
    assert(a == ps * (qs + t)) by (nonlinear_arith)
        requires
            a == s2 + t * ps,
            s2 == ps * qs,
    ;
    assert(a < e1) by (nonlinear_arith)
        requires
            a == ps * (qs + t),
            e1 == ps * qe,
            t < qe - qs,
            ps > 0,
    ;
    let k = qs + t - q0;
    assert(qs + t >= q0) by (nonlinear_arith)
        requires
            ps * (qs + t) >= ps * q0,
            ps > 0,
    ;
    assert(a - m.start == ps * k) by (nonlinear_arith)
        requires
            a == ps * (qs + t),
            m.start == ps * q0,
            k == qs + t - q0,
    ;
    assert((a - m.start) / ps == k) by (nonlinear_arith)
        requires
            a - m.start == ps * k,
            ps > 0,
    ;
    vstd::arithmetic::div_mod::lemma_div_multiples_vanish_fancy(q1 - q0, ps - 1, ps);
    assert(m.end - m.start + ps - 1 == ps * (q1 - q0) + (ps - 1));
    assert(range_page_count(m) == q1 - q0);
    assert(k < q1 - q0) by (nonlinear_arith)
        requires
            ps * (qs + t) < ps * q1,
            k == qs + t - q0,
            ps > 0,
    ;
    assert(m.start + k * ps == a) by (nonlinear_arith)
        requires
            a - m.start == ps * k,
    ;
}

/// The address of page `t` of `region`.
pub open spec fn page_at(region: AddressRange, t: int) -> usize {
    (region.start + t * PAGE_SIZE) as usize
}

/// Each page of the regions of the first `n` slots is a page of one of those regions.
pub proof fn lemma_regions_pages_from(
    regions: Seq<Option<AddressRange>>,
    n: int,
    metadata_start: usize,
    metadata_end: usize,
    p: int,
)
    requires
        0 <= n <= regions.len(),
        forall|q: int| 0 <= q < regions.len() && #[trigger] regions[q] is Some ==> regions[q]->0.start <= regions[q]->0.end,
        0 <= p < regions_pages(regions, n, metadata_start, metadata_end).len(),
    ensures
        exists|q: int, t: int|
            0 <= q < n && regions[q] is Some && 0 <= t < (regions[q]->0.end - regions[q]->0.start) / (
            PAGE_SIZE as int) && regions_pages(regions, n, metadata_start, metadata_end)[p].base
                == #[trigger] page_at(regions[q]->0, t),
    decreases n,
{
    let prev = regions_pages(regions, n - 1, metadata_start, metadata_end);
    if p < prev.len() {
        lemma_regions_pages_from(regions, n - 1, metadata_start, metadata_end, p);
        let (q, t) = choose|q: int, t: int|
            0 <= q < n - 1 && regions[q] is Some && 0 <= t < (regions[q]->0.end - regions[q]->0.start) / (
            PAGE_SIZE as int) && prev[p].base == #[trigger] page_at(regions[q]->0, t);
        assert(regions_pages(regions, n, metadata_start, metadata_end)[p] == prev[p]);
        assert(page_at(regions[q]->0, t) == prev[p].base);
    } else {
        let r = regions[n - 1]->0;
        assert(regions[n - 1] is Some);
        let t = p - prev.len();
        assert(regions_pages(regions, n, metadata_start, metadata_end)[p] == region_pages(
            r,
            metadata_start,
            metadata_end,
        )[t]);
        assert(0 <= (r.end - r.start) / (PAGE_SIZE as int));
        assert(page_at(regions[n - 1]->0, t) == regions_pages(regions, n, metadata_start, metadata_end)[p].base);
    }
}

/// The region the search for a large region finds is one of the slots from `k` on.
pub proof fn lemma_find_large_region_slot(regions: Seq<Option<AddressRange>>, minimum_size: int, k: int)
    requires
        0 <= k,
        spec_find_large_region(regions, minimum_size, k) is Some,
    ensures
        exists|q: int|
            k <= q < regions.len() && #[trigger] regions[q] is Some && regions[q]->0.start
                == spec_find_large_region(regions, minimum_size, k)->0 && regions[q]->0.spec_size()
                >= minimum_size,
    decreases regions.len() - k,
{
    if !(regions[k] is Some && regions[k]->0.spec_size() >= minimum_size) {
        lemma_find_large_region_slot(regions, minimum_size, k + 1);
    } else {
        assert(regions[k] is Some);
    }
}

/// Each allocated base among the first `n` descriptors is the base of one of them.
pub proof fn lemma_allocated_bases_from(pages: Seq<PhysicalPage>, n: int, j: int)
    requires
        0 <= n <= pages.len(),
        0 <= j < allocated_bases(pages, n).len(),
    ensures
        exists|idx: int| 0 <= idx < n && #[trigger] pages[idx].base == allocated_bases(pages, n)[j],
    decreases n,
{
    let prev = allocated_bases(pages, n - 1);
    if j < prev.len() {
        lemma_allocated_bases_from(pages, n - 1, j);
        let idx = choose|idx: int| 0 <= idx < n - 1 && #[trigger] pages[idx].base == prev[j];
        assert(allocated_bases(pages, n)[j] == prev[j]);
        assert(pages[idx].base == allocated_bases(pages, n)[j]);
    } else {
        assert(allocated_bases(pages, n)[j] == pages[n - 1].base);
    }
}

/// The pages of a region moved to page boundaries, out of a region inside the `i`-th of
/// page-aligned `ranges`, are pages of the ranges.
pub proof fn lemma_realigned_page_of_ranges(r: AddressRange, ranges: Seq<AddressRange>, i: int, t: int)
    requires
        0 <= i < ranges.len(),
        ranges[i].start <= r.start,
        r.end <= ranges[i].end,
        ranges[i].start % PAGE_SIZE == 0,
        ranges[i].end % PAGE_SIZE == 0,
        realign_defined(Some(r)),
        realigned(Some(r)) is Some,
        0 <= t < (realigned(Some(r))->0.end - realigned(Some(r))->0.start) / (PAGE_SIZE as int),
    ensures
        page_of_ranges(page_at(realigned(Some(r))->0, t), ranges),
{
    lemma_realigned_page_in_range(r, ranges[i], t);
    let a = realigned(Some(r))->0.start + t * PAGE_SIZE;
    let k = (a - ranges[i].start) / (PAGE_SIZE as int);
    assert(range_pages(ranges[i].start as int, range_page_count(ranges[i]))[k] == page_at(
        realigned(Some(r))->0,
        t,
    ));
}

} // verus!
