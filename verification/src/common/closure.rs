//! What can be reached from a set of starting points by following a
//! successor relation, and the two facts worklist algorithms rest on: a
//! closed superset of the start holds everything reachable, and whatever
//! is listed in an order where each item follows an earlier one (or
//! starts) is reachable.

use vstd::prelude::*;

verus! {

/// `c` follows `next` from each item to the one after it.
pub open spec fn is_chain<A>(next: spec_fn(A) -> Set<A>, c: Seq<A>) -> bool {
    &&& c.len() >= 1
    &&& forall|k: int| 0 <= k < c.len() - 1 ==> #[trigger] next(c[k]).contains(c[k + 1])
}

/// `x` is reached from some member of `start` by following `next`
/// (zero or more times).
pub open spec fn derivable<A>(next: spec_fn(A) -> Set<A>, start: Set<A>, x: A) -> bool {
    exists|c: Seq<A>| #[trigger] is_chain(next, c) && start.contains(c[0]) && c.last() == x
}

/// Each item of `o` starts or follows an item listed before it.
pub open spec fn listed_in_order<A>(next: spec_fn(A) -> Set<A>, start: Set<A>, o: Seq<A>) -> bool {
    forall|i: int| 0 <= i < o.len() ==> start.contains(#[trigger] o[i])
        || exists|j: int| 0 <= j < i && next(o[j]).contains(o[i])
}

/// A superset of `start` that `next` does not leave holds everything
/// reachable from `start`.
pub proof fn lemma_closed_holds_derivable<A>(next: spec_fn(A) -> Set<A>, start: Set<A>, s: Set<A>, x: A)
    requires
        forall|y: A| start.contains(y) ==> s.contains(y),
        forall|y: A, z: A| s.contains(y) && #[trigger] next(y).contains(z) ==> s.contains(z),
        derivable(next, start, x),
    ensures
        s.contains(x),
{
    let c = choose|c: Seq<A>| #[trigger] is_chain(next, c) && start.contains(c[0]) && c.last() == x;
    lemma_chain_in(next, s, c, c.len() - 1);
}

proof fn lemma_chain_in<A>(next: spec_fn(A) -> Set<A>, s: Set<A>, c: Seq<A>, k: int)
    requires
        is_chain(next, c),
        s.contains(c[0]),
        forall|y: A, z: A| s.contains(y) && #[trigger] next(y).contains(z) ==> s.contains(z),
        0 <= k < c.len(),
    ensures
        s.contains(c[k]),
    decreases k,
{
    if k > 0 {
        lemma_chain_in(next, s, c, k - 1);
        let j = k - 1;
        assert(0 <= j < c.len() - 1);
        assert(next(c[j]).contains(c[j + 1]));
    }
}

/// Everything listed in an order where each item starts or follows an
/// earlier one is reachable from `start`.
pub proof fn lemma_listed_derivable<A>(next: spec_fn(A) -> Set<A>, start: Set<A>, o: Seq<A>, i: int)
    requires
        listed_in_order(next, start, o),
        0 <= i < o.len(),
    ensures
        derivable(next, start, o[i]),
    decreases i,
{
    if start.contains(o[i]) {
        let c = seq![o[i]];
        assert(is_chain(next, c));
    } else {
        let j = choose|j: int| 0 <= j < i && next(o[j]).contains(o[i]);
        lemma_listed_derivable(next, start, o, j);
        let c = choose|c: Seq<A>| #[trigger] is_chain(next, c) && start.contains(c[0]) && c.last() == o[j];
        let c2 = c.push(o[i]);
        assert forall|k: int| 0 <= k < c2.len() - 1 implies #[trigger] next(c2[k]).contains(c2[k + 1]) by {
            if k < c.len() - 1 {
                assert(c2[k] == c[k] && c2[k + 1] == c[k + 1]);
            } else {
                assert(c2[k] == o[j] && c2[k + 1] == o[i]);
            }
        }
        assert(is_chain(next, c2));
        assert(c2[0] == c[0]);
    }
}

} // verus!
