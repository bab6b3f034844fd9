//! The bounded top-k structure behind the suggestion ranker: a fixed
//! capacity, worst-eviction shortlist of `(key, index)` pairs, kept by an
//! outside crate and spoken of through its contents and its capacity.
//!
//! Keys are ordered lexicographically, as std documents for pairs of
//! integers; the ranker stores `usize::MAX - distance` as the key, so the
//! largest keys — the closest titles — are the ones retained.

use vstd::prelude::*;
use vstd::multiset::Multiset;

verus! {

#[verifier::external_type_specification]
#[verifier::external_body]
#[verifier::reject_recursive_types(T)]
pub struct ExShortlist<T>(shortlist::Shortlist<T>);

/// What the shortlist holds, as a multiset of `(key, index)` pairs.
pub uninterp spec fn shortlist_items(s: shortlist::Shortlist<(usize, usize)>) -> Multiset<
    (usize, usize),
>;

/// The capacity the shortlist was created with: the most items it retains.
pub uninterp spec fn shortlist_cap(s: shortlist::Shortlist<(usize, usize)>) -> nat;

/// std's lexicographic order on pairs of `usize`.
pub open spec fn pair_le(a: (usize, usize), b: (usize, usize)) -> bool {
    a.0 < b.0 || (a.0 == b.0 && a.1 <= b.1)
}

/// Relies on shortlist::Shortlist::new: a fresh, empty shortlist of the
/// given capacity.  A capacity of zero panics, so it is excluded here.
#[verifier::external_body]
pub(crate) fn shortlist_new(capacity: usize) -> (s: shortlist::Shortlist<(usize, usize)>)
    requires
        capacity >= 1,
    ensures
        shortlist_items(s) == Multiset::<(usize, usize)>::empty(),
        shortlist_cap(s) == capacity as nat,
{
    shortlist::Shortlist::new(capacity)
}

/// Relies on shortlist::Shortlist::push: below capacity the item is added;
/// at capacity it is dropped when no retained item beats it, and otherwise
/// replaces one minimal retained item (which one is unspecified).
#[verifier::external_body]
pub(crate) fn shortlist_push(s: &mut shortlist::Shortlist<(usize, usize)>, item: (usize, usize))
    ensures
        shortlist_cap(*final(s)) == shortlist_cap(*old(s)),
        shortlist_items(*old(s)).len() < shortlist_cap(*old(s)) ==> shortlist_items(*final(s))
            == shortlist_items(*old(s)).insert(item),
        shortlist_items(*old(s)).len() >= shortlist_cap(*old(s)) && (forall|x: (usize, usize)|
            shortlist_items(*old(s)).count(x) > 0 ==> pair_le(item, x)) ==> shortlist_items(
            *final(s),
        ) == shortlist_items(*old(s)),
        shortlist_items(*old(s)).len() >= shortlist_cap(*old(s)) && !(forall|x: (usize, usize)|
            shortlist_items(*old(s)).count(x) > 0 ==> pair_le(item, x)) ==> (exists|
            m: (usize, usize),
        |
            shortlist_items(*old(s)).count(m) > 0 && (forall|x: (usize, usize)|
                shortlist_items(*old(s)).count(x) > 0 ==> pair_le(m, x)) && shortlist_items(
                *final(s),
            ) == shortlist_items(*old(s)).remove(m).insert(item)),
{
    s.push(item)
}

/// Relies on shortlist::Shortlist::into_sorted_vec: the retained items, in
/// ascending lexicographic order.
#[verifier::external_body]
pub(crate) fn shortlist_into_sorted_vec(s: shortlist::Shortlist<(usize, usize)>) -> (v: Vec<
    (usize, usize),
>)
    ensures
        v@.to_multiset() == shortlist_items(s),
        forall|i: int, j: int| #![trigger v@[i], v@[j]]
            0 <= i < j < v@.len() ==> pair_le(v@[i], v@[j]),
{
    s.into_sorted_vec()
}

} // verus!
