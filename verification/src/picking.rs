//! What it means that a list is made of some elements of another one.

use vstd::prelude::*;

verus! {

/// Whether a list holds exactly the elements of another one that meet a rule, once for each place
/// and in their order: `places` says where each of them stood.
pub open spec fn is_picking<A>(
    all: Seq<A>,
    picked: Seq<A>,
    keeps: spec_fn(A) -> bool,
    places: Seq<int>,
) -> bool {
    &&& places.len() == picked.len()
    &&& forall|k: int|
        0 <= k < places.len() ==> 0 <= #[trigger] places[k] < all.len() && picked[k]
            == all[places[k]]
    &&& forall|k: int, m: int| 0 <= k < m < places.len() ==> places[k] < places[m]
    &&& forall|i: int| 0 <= i < all.len() ==> keeps(#[trigger] all[i]) == places.contains(i)
}

/// Whether a list holds exactly the elements of another one that meet a rule, in their order.
pub open spec fn are_picked<A>(all: Seq<A>, picked: Seq<A>, keeps: spec_fn(A) -> bool) -> bool {
    exists|places: Seq<int>| is_picking(all, picked, keeps, places)
}

/// What a filter leaves is what meets its rule.
pub proof fn lemma_filter_picks<A>(all: Seq<A>, keeps: spec_fn(A) -> bool) -> (places: Seq<int>)
    ensures
        is_picking(all, all.filter(keeps), keeps, places),
    decreases all.len(),
{
    reveal(Seq::filter);
    if all.len() == 0 {
        Seq::empty()
    } else {
        let rest = all.drop_last();
        let before = lemma_filter_picks(rest, keeps);
        let last = all.len() - 1;
        if keeps(all.last()) {
            let places = before.push(last);
            assert forall|i: int| 0 <= i < all.len() implies keeps(#[trigger] all[i])
                == places.contains(i) by {
                if i < last {
                    assert(rest[i] == all[i]);
                    if before.contains(i) {
                        let k = before.index_of(i);
                        assert(places[k] == i);
                    }
                    if places.contains(i) {
                        let k = places.index_of(i);
                        assert(before[k] == i);
                    }
                } else {
                    assert(places[before.len() as int] == i);
                }
            }
            places
        } else {
            assert forall|i: int| 0 <= i < all.len() implies keeps(#[trigger] all[i])
                == before.contains(i) by {
                if i < last {
                    assert(rest[i] == all[i]);
                } else if before.contains(i) {
                    let k = before.index_of(i);
                    assert(before[k] < rest.len());
                }
            }
            before
        }
    }
}

} // verus!
