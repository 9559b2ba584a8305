//! Vectors seen as slices.

use vstd::prelude::*;

verus! {

/// Returns all items of a vector.
pub(crate) fn items<T: DeepView>(v: &Vec<T>) -> (r: &[T])
    ensures
        r@ == v@,
        r.deep_view() == v.deep_view(),
{
    let r = v.as_slice();
    assert(r.deep_view() =~= v.deep_view());
    r
}

} // verus!
