//! The first position at which a property holds.

use vstd::prelude::*;

verus! {

/// Some position `i >= 0` has the property `p`.
pub open spec fn some_index(p: spec_fn(int) -> bool) -> bool {
    exists|i: int| 0 <= i && #[trigger] p(i)
}

/// `i` is the least position with the property `p`.
pub open spec fn is_first(p: spec_fn(int) -> bool, i: int) -> bool {
    &&& 0 <= i
    &&& p(i)
    &&& forall|j: int| 0 <= j < i ==> !#[trigger] p(j)
}

/// The least position with the property `p` (meaningful where `some_index(p)`).
pub open spec fn first_index(p: spec_fn(int) -> bool) -> int {
    choose|i: int| is_first(p, i)
}

/// A least position is the one that `first_index` names.
pub proof fn lemma_first_index(p: spec_fn(int) -> bool, i: int)
    requires
        is_first(p, i),
    ensures
        first_index(p) == i,
        some_index(p),
{
    let k = first_index(p);
    assert(is_first(p, k));
    if k < i {
        assert(!p(k));
    }
    if i < k {
        assert(!p(i));
    }
}

} // verus!
