//! Lists of things to do.

use vstd::prelude::*;

verus! {

/// Whether the action at a position is there, and is the only one of its sort.
pub open spec fn stands_alone<A>(actions: Seq<A>, at: int, what: spec_fn(A) -> bool) -> bool {
    &&& 0 <= at < actions.len()
    &&& forall|i: int|
        #![trigger actions[i]]
        0 <= i < actions.len() ==> (what(actions[i]) <==> i == at)
}

/// Whether none of the actions is of a sort.
pub open spec fn is_absent<A>(actions: Seq<A>, what: spec_fn(A) -> bool) -> bool {
    forall|i: int| #![trigger actions[i]] 0 <= i < actions.len() ==> !what(actions[i])
}

} // verus!
