//! Places in a sequence, to say which items of it make up another one.

use vstd::prelude::*;

verus! {

/// The places below `n` that have a property: these, no other, and in order.
pub open spec fn are_the_places(places: Seq<int>, n: int, p: spec_fn(int) -> bool) -> bool {
    &&& forall|k: int|
        0 <= k < places.len() ==> 0 <= #[trigger] places[k] < n && p(places[k])
    &&& forall|j: int, k: int| 0 <= j < k < places.len() ==> places[j] < places[k]
    &&& forall|i: int| 0 <= i < n && #[trigger] p(i) ==> places.contains(i)
}

/// One more place is looked at, behind all others.
pub proof fn lemma_next_place(
    places: Seq<int>,
    n: int,
    p: spec_fn(int) -> bool,
    q: spec_fn(int) -> bool,
)
    requires
        0 <= n,
        are_the_places(places, n, p),
        forall|i: int| 0 <= i < n ==> p(i) == #[trigger] q(i),
    ensures
        are_the_places(
            if q(n) {
                places.push(n)
            } else {
                places
            },
            n + 1,
            q,
        ),
{
    let next = if q(n) {
        places.push(n)
    } else {
        places
    };
    assert forall|k: int| 0 <= k < next.len() implies 0 <= #[trigger] next[k] < n + 1 && q(
        next[k],
    ) by {
        if k < places.len() {
            assert(next[k] == places[k]);
            assert(p(places[k]) == q(places[k]));
        }
    }
    assert forall|j: int, k: int| 0 <= j < k < next.len() implies next[j] < next[k] by {
        assert(next[j] == places[j]);
        if k < places.len() {
            assert(next[k] == places[k]);
        }
    }
    assert forall|i: int| 0 <= i < n + 1 && #[trigger] q(i) implies next.contains(i) by {
        if i < n {
            assert(p(i) == q(i));
            assert(places.contains(i));
            let k = choose|k: int| 0 <= k < places.len() && places[k] == i;
            assert(next[k] == i);
        } else {
            assert(next[places.len() as int] == n);
        }
    }
}

} // verus!
