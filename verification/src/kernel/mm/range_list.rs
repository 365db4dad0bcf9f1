use vstd::prelude::*;

use crate::hal_core::AddressRange;

verus! {

/// `arrayvec::ArrayVec`, a vector of at most `CAP` items kept inline.
#[verifier::external_type_specification]
#[verifier::external_body]
#[verifier::reject_recursive_types(T)]
pub struct ExArrayVec<T, const CAP: usize>(arrayvec::ArrayVec<T, CAP>);

/// The ranges an `ArrayVec` of at most 128 ranges holds, in order, each as its start and end.
pub uninterp spec fn small_list_items(v: arrayvec::ArrayVec<AddressRange, 128>) -> Seq<(usize, usize)>;

/// The ranges an `ArrayVec` of at most 1024 ranges holds, in order, each as its start and end.
pub uninterp spec fn large_list_items(v: arrayvec::ArrayVec<AddressRange, 1024>) -> Seq<(usize, usize)>;

/// The ranges of `v`, each as its start and end.
pub open spec fn range_pairs(v: Seq<AddressRange>) -> Seq<(usize, usize)> {
    v.map_values(|r: AddressRange| (r.start, r.end))
}

/// `arrayvec::ArrayVec::new` for 128 ranges: an empty vector.
#[verifier::external_body]
pub(crate) fn small_list_new() -> (v: arrayvec::ArrayVec<AddressRange, 128>)
    ensures
        small_list_items(v) == Seq::<(usize, usize)>::empty(),
{
    arrayvec::ArrayVec::new()
}

/// `arrayvec::ArrayVec::try_push` for 128 ranges: appends `r` and succeeds when the vector
/// holds fewer than 128 ranges, else fails and leaves it as it was.
#[verifier::external_body]
pub(crate) fn small_list_try_push(v: &mut arrayvec::ArrayVec<AddressRange, 128>, r: AddressRange) -> (ok: bool)
    ensures
        small_list_items(*old(v)).len() < 128 ==> ok && small_list_items(*final(v)) == small_list_items(
            *old(v),
        ).push((r.start, r.end)),
        small_list_items(*old(v)).len() >= 128 ==> !ok && small_list_items(*final(v))
            == small_list_items(*old(v)),
{
    v.try_push(r).is_ok()
}

/// `arrayvec::ArrayVec::into_iter` for 128 ranges: the ranges it holds, in order.
#[verifier::external_body]
pub(crate) fn small_list_into_vec(v: arrayvec::ArrayVec<AddressRange, 128>) -> (r: Vec<AddressRange>)
    ensures
        range_pairs(r@) == small_list_items(v),
{
    v.into_iter().collect()
}

/// `arrayvec::ArrayVec::new` for 1024 ranges: an empty vector.
#[verifier::external_body]
pub(crate) fn large_list_new() -> (v: arrayvec::ArrayVec<AddressRange, 1024>)
    ensures
        large_list_items(v) == Seq::<(usize, usize)>::empty(),
{
    arrayvec::ArrayVec::new()
}

/// `arrayvec::ArrayVec::try_push` for 1024 ranges: appends `r` and succeeds when the vector
/// holds fewer than 1024 ranges, else fails and leaves it as it was.
#[verifier::external_body]
pub(crate) fn large_list_try_push(v: &mut arrayvec::ArrayVec<AddressRange, 1024>, r: AddressRange) -> (ok: bool)
    ensures
        large_list_items(*old(v)).len() < 1024 ==> ok && large_list_items(*final(v)) == large_list_items(
            *old(v),
        ).push((r.start, r.end)),
        large_list_items(*old(v)).len() >= 1024 ==> !ok && large_list_items(*final(v))
            == large_list_items(*old(v)),
{
    v.try_push(r).is_ok()
}

/// `arrayvec::ArrayVec::into_iter` for 1024 ranges: the ranges it holds, in order.
#[verifier::external_body]
pub(crate) fn large_list_into_vec(v: arrayvec::ArrayVec<AddressRange, 1024>) -> (r: Vec<AddressRange>)
    ensures
        range_pairs(r@) == large_list_items(v),
{
    v.into_iter().collect()
}

} // verus!
