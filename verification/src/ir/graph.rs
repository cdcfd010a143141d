//! Reachability in a control-flow graph given by adjacency: for each
//! block, in block order, its id and the ids of its successors.

use vstd::prelude::*;

verus! {

broadcast use vstd::seq_lib::group_seq_properties;

/// The adjacency of a graph: one entry per block, its id and successors.
pub open spec fn adj_model(adj: Seq<(usize, Vec<usize>)>) -> Seq<(usize, Seq<usize>)> {
    Seq::new(adj.len(), |i: int| (adj[i].0, adj[i].1@))
}

/// The successors of the first block with id `id`; none if there is no
/// such block.
pub open spec fn adj_succs(adj: Seq<(usize, Seq<usize>)>, id: usize) -> Seq<usize>
    decreases adj.len(),
{
    if adj.len() == 0 {
        Seq::empty()
    } else if adj[0].0 == id {
        adj[0].1
    } else {
        adj_succs(adj.drop_first(), id)
    }
}

/// The nodes reachable from `start` in at most `n` steps, never entering
/// (nor expanding) the node `avoid`.
pub open spec fn reach(adj: Seq<(usize, Seq<usize>)>, start: usize, avoid: Option<usize>, n: nat) -> Set<usize>
    decreases n,
{
    if n == 0 {
        if avoid == Some(start) {
            Set::empty()
        } else {
            set![start]
        }
    } else {
        let r = reach(adj, start, avoid, (n - 1) as nat);
        r.union(Set::new(|s: usize| exists|b: usize| #[trigger] r.contains(b) && adj_succs(adj, b).contains(s) && avoid != Some(s)))
    }
}

/// `x` can be reached from `start` without passing through `avoid`.
pub open spec fn reachable(adj: Seq<(usize, Seq<usize>)>, start: usize, avoid: Option<usize>, x: usize) -> bool {
    exists|n: nat| #[trigger] reach(adj, start, avoid, n).contains(x)
}

/// All successor ids of all blocks, one after another.
pub open spec fn all_succs(adj: Seq<(usize, Seq<usize>)>) -> Seq<usize>
    decreases adj.len(),
{
    if adj.len() == 0 {
        Seq::empty()
    } else {
        adj[0].1 + all_succs(adj.drop_first())
    }
}

proof fn lemma_all_succs(adj: Seq<(usize, Seq<usize>)>, id: usize, s: usize)
    requires
        adj_succs(adj, id).contains(s),
    ensures
        all_succs(adj).contains(s),
    decreases adj.len(),
{
    if adj[0].0 == id {
        let i = choose|i: int| 0 <= i < adj[0].1.len() && adj[0].1[i] == s;
        assert(all_succs(adj)[i] == s);
    } else {
        lemma_all_succs(adj.drop_first(), id, s);
        let rest = all_succs(adj.drop_first());
        let i = choose|i: int| 0 <= i < rest.len() && rest[i] == s;
        assert(all_succs(adj)[adj[0].1.len() + i] == s);
    }
}

/// A set that holds the start (unless avoided) and is closed under
/// successors (except `avoid`) holds everything reachable.
pub proof fn lemma_reach_in_closed(adj: Seq<(usize, Seq<usize>)>, start: usize, avoid: Option<usize>, v: Set<usize>, n: nat)
    requires
        avoid != Some(start) ==> v.contains(start),
        forall|b: usize, s: usize| v.contains(b) && #[trigger] adj_succs(adj, b).contains(s) && avoid != Some(s) ==> v.contains(s),
    ensures
        reach(adj, start, avoid, n).subset_of(v),
    decreases n,
{
    if n > 0 {
        lemma_reach_in_closed(adj, start, avoid, v, (n - 1) as nat);
        let r = reach(adj, start, avoid, (n - 1) as nat);
        assert forall|s: usize| #[trigger] reach(adj, start, avoid, n).contains(s) implies v.contains(s) by {
            if !r.contains(s) {
                let b = choose|b: usize| #[trigger] r.contains(b) && adj_succs(adj, b).contains(s) && avoid != Some(s);
                assert(v.contains(b));
            }
        }
    }
}

/// The index of the first block with id `id`.
fn find_entry(adj: &Vec<(usize, Vec<usize>)>, id: usize) -> (r: Option<usize>)
    ensures
        match r {
            Some(i) => i < adj@.len() && adj_succs(adj_model(adj@), id) == adj@[i as int].1@,
            None => adj_succs(adj_model(adj@), id) == Seq::<usize>::empty(),
        },
{
    let ghost m = adj_model(adj@);
    let mut i: usize = 0;
    assert(m.skip(0) =~= m);
    while i < adj.len()
        invariant
            0 <= i <= adj@.len(),
            m == adj_model(adj@),
            adj_succs(m, id) == adj_succs(m.skip(i as int), id),
        decreases adj@.len() - i,
    {
        assert(m.skip(i as int)[0] == m[i as int]);
        assert(m.skip(i as int).drop_first() =~= m.skip(i + 1));
        if adj[i].0 == id {
            return Some(i);
        }
        i = i + 1;
    }
    assert(m.skip(adj@.len() as int).len() == 0);
    None
}

pub fn contains(v: &Vec<usize>, x: usize) -> (r: bool)
    ensures
        r == v@.contains(x),
{
    let mut i: usize = 0;
    while i < v.len()
        invariant
            0 <= i <= v@.len(),
            forall|j: int| 0 <= j < i ==> v@[j] != x,
        decreases v@.len() - i,
    {
        if v[i] == x {
            return true;
        }
        i = i + 1;
    }
    false
}

/// The nodes reachable from `start` without passing through `avoid`,
/// each once.
pub fn reachable_from(adj: &Vec<(usize, Vec<usize>)>, start: usize, avoid: Option<usize>) -> (r: Vec<usize>)
    ensures
        r@.no_duplicates(),
        forall|x: usize| r@.contains(x) <==> reachable(adj_model(adj@), start, avoid, x),
{
    let ghost m = adj_model(adj@);
    let ghost universe = seq![start] + all_succs(m);
    let mut visited: Vec<usize> = Vec::new();
    let mut worklist: Vec<usize> = Vec::new();
    let avoided = match avoid {
        Some(a) => a == start,
        None => false,
    };
    if !avoided {
        visited.push(start);
        worklist.push(start);
        assert(reach(m, start, avoid, 0).contains(start));
        assert(visited@[0] == start);
        assert(universe[0] == start);
    }
    while worklist.len() > 0
        invariant
            m == adj_model(adj@),
            universe == seq![start] + all_succs(m),
            avoided == (avoid == Some(start)),
            visited@.no_duplicates(),
            worklist@.no_duplicates(),
            !avoided ==> visited@.contains(start),
            forall|x: usize| #[trigger] visited@.contains(x) ==> reachable(m, start, avoid, x),
            forall|x: usize| #[trigger] visited@.contains(x) ==> universe.contains(x),
            forall|x: usize| #[trigger] worklist@.contains(x) ==> visited@.contains(x),
            forall|x: usize| avoid == Some(x) ==> !(#[trigger] visited@.contains(x)),
            forall|b: usize, s: usize| visited@.contains(b) && !worklist@.contains(b)
                && #[trigger] adj_succs(m, b).contains(s) && avoid != Some(s) ==> visited@.contains(s),
        decreases universe.len() - visited@.len(), worklist@.len(),
    {
        proof {
            lemma_distinct_in_bound(visited@, universe);
        }
        let ghost v0 = visited@;
        let ghost w0 = worklist@;
        let b = worklist.pop().unwrap();
        assert(w0 =~= worklist@.push(b));
        assert(w0[w0.len() - 1] == b);
        assert(w0.contains(b));
        assert(visited@.contains(b));
        assert forall|x: usize| #[trigger] worklist@.contains(x) implies w0.contains(x) by {
            let i = choose|i: int| 0 <= i < worklist@.len() && worklist@[i] == x;
            assert(w0[i] == x);
        }
        let ghost nb = choose|n: nat| #[trigger] reach(m, start, avoid, n).contains(b);
        match find_entry(adj, b) {
            None => {
                assert forall|b2: usize, s: usize| visited@.contains(b2) && !worklist@.contains(b2)
                    && #[trigger] adj_succs(m, b2).contains(s) && avoid != Some(s) implies visited@.contains(s) by {
                    if b2 != b {
                        assert(!w0.contains(b2)) by {
                            if w0.contains(b2) {
                                let i = choose|i: int| 0 <= i < w0.len() && w0[i] == b2;
                                assert(worklist@[i] == b2);
                            }
                        }
                    }
                }
            },
            Some(ei) => {
                let ghost w1 = worklist@;
                let succs = &adj[ei].1;
                let mut k: usize = 0;
                while k < succs.len()
                    invariant
                        0 <= k <= succs@.len(),
                        succs@ == adj_succs(m, b),
                        m == adj_model(adj@),
                        universe == seq![start] + all_succs(m),
                        avoided == (avoid == Some(start)),
                        w0 == w1.push(b),
                        visited@.no_duplicates(),
                        worklist@.no_duplicates(),
                        reach(m, start, avoid, nb).contains(b),
                        v0.contains(b),
                        forall|x: usize| #[trigger] v0.contains(x) ==> visited@.contains(x),
                        worklist@.len() + v0.len() == w1.len() + visited@.len(),
                        visited@.len() >= v0.len(),
                        !avoided ==> visited@.contains(start),
                        forall|x: usize| #[trigger] visited@.contains(x) ==> reachable(m, start, avoid, x),
                        forall|x: usize| #[trigger] visited@.contains(x) ==> universe.contains(x),
                        forall|x: usize| #[trigger] worklist@.contains(x) ==> visited@.contains(x),
                        forall|x: usize| avoid == Some(x) ==> !(#[trigger] visited@.contains(x)),
                        forall|x: usize| #[trigger] visited@.contains(x) && !v0.contains(x) ==> worklist@.contains(x),
                        forall|x: usize| #[trigger] w1.contains(x) ==> worklist@.contains(x),
                        forall|x: usize| #[trigger] worklist@.contains(x) ==> w1.contains(x) || !v0.contains(x),
                        forall|j: int| 0 <= j < k && avoid != Some(succs@[j]) ==> #[trigger] visited@.contains(succs@[j]),
                        forall|b2: usize, s: usize| v0.contains(b2) && !w0.contains(b2)
                            && #[trigger] adj_succs(m, b2).contains(s) && avoid != Some(s) ==> visited@.contains(s),
                    decreases succs@.len() - k,
                {
                    let s = succs[k];
                    let skip = match avoid {
                        Some(a) => a == s,
                        None => false,
                    };
                    if !skip && !contains(&visited, s) {
                        proof {
                            assert(adj_succs(m, b).contains(s)) by {
                                assert(succs@[k as int] == s);
                            }
                            assert(reach(m, start, avoid, nb + 1).contains(s));
                            lemma_all_succs(m, b, s);
                            let i = choose|i: int| 0 <= i < all_succs(m).len() && all_succs(m)[i] == s;
                            assert(universe[i + 1] == s);
                        }
                        let ghost vb = visited@;
                        let ghost wb = worklist@;
                        assert(!wb.contains(s));
                        proof {
                            lemma_push_no_dup(vb, s);
                            lemma_push_no_dup(wb, s);
                        }
                        visited.push(s);
                        worklist.push(s);
                        proof {
                            assert forall|x: usize| #[trigger] visited@.contains(x) implies reachable(m, start, avoid, x) by {
                                if x != s {
                                    assert(vb.contains(x));
                                } else {
                                    assert(reach(m, start, avoid, nb + 1).contains(s));
                                }
                            }
                            assert forall|x: usize| #[trigger] visited@.contains(x) implies universe.contains(x) by {
                                if x != s {
                                    assert(vb.contains(x));
                                }
                            }
                            assert forall|x: usize| #[trigger] worklist@.contains(x) implies visited@.contains(x) by {
                                if x != s {
                                    assert(wb.contains(x));
                                }
                            }
                            assert forall|x: usize| #[trigger] w1.contains(x) implies worklist@.contains(x) by {
                                assert(wb.contains(x));
                            }
                            assert forall|x: usize| #[trigger] worklist@.contains(x) implies w1.contains(x) || !v0.contains(x) by {
                                if x != s {
                                    assert(wb.contains(x));
                                }
                            }
                            assert forall|x: usize| #[trigger] visited@.contains(x) && !v0.contains(x) implies worklist@.contains(x) by {
                                if x != s {
                                    assert(vb.contains(x));
                                    assert(wb.contains(x));
                                }
                            }
                        }
                    }
                    k = k + 1;
                }
                proof {
                    assert(!worklist@.contains(b)) by {
                        if worklist@.contains(b) {
                            assert(w1.contains(b));
                            let i = choose|i: int| 0 <= i < w1.len() && w1[i] == b;
                            assert(w0[i] == b);
                            assert(w0[w1.len() as int] == b);
                        }
                    }
                    assert forall|b2: usize, s: usize| visited@.contains(b2) && !worklist@.contains(b2)
                        && #[trigger] adj_succs(m, b2).contains(s) && avoid != Some(s) implies visited@.contains(s) by {
                        if b2 == b {
                            let j = choose|j: int| 0 <= j < succs@.len() && succs@[j] == s;
                        } else {
                            assert(v0.contains(b2));
                            assert(!w1.contains(b2));
                            assert(!w0.contains(b2)) by {
                                if w0.contains(b2) {
                                    let i = choose|i: int| 0 <= i < w0.len() && w0[i] == b2;
                                    if i < w1.len() {
                                        assert(w1[i] == b2);
                                    }
                                }
                            }
                        }
                    }
                    lemma_distinct_in_bound(visited@, universe);
                }
            },
        }
        assert(visited@.len() <= universe.len());
        assert(visited@.len() >= v0.len());
        assert((universe.len() - visited@.len() < universe.len() - v0.len())
            || (visited@.len() == v0.len() && worklist@.len() < w0.len()));
    }
    proof {
        assert forall|x: usize| reachable(m, start, avoid, x) implies visited@.contains(x) by {
            let n = choose|n: nat| #[trigger] reach(m, start, avoid, n).contains(x);
            lemma_reach_in_closed(m, start, avoid, visited@.to_set(), n);
        }
    }
    visited
}

proof fn lemma_push_no_dup(v: Seq<usize>, x: usize)
    requires
        v.no_duplicates(),
        !v.contains(x),
    ensures
        v.push(x).no_duplicates(),
{
    assert forall|i: int, j: int| 0 <= i < v.push(x).len() && 0 <= j < v.push(x).len() && i != j
        implies v.push(x)[i] != v.push(x)[j] by {
        if i < v.len() && j < v.len() {
        } else if i < v.len() {
            assert(v[i] == v.push(x)[i]);
        } else {
            assert(v[j] == v.push(x)[j]);
        }
    }
}

/// A sequence without duplicates whose members all occur in `u` is no
/// longer than `u`.
proof fn lemma_distinct_in_bound(v: Seq<usize>, u: Seq<usize>)
    requires
        v.no_duplicates(),
        forall|x: usize| #[trigger] v.contains(x) ==> u.contains(x),
    ensures
        v.len() <= u.len(),
{
    v.unique_seq_to_set();
    u.lemma_cardinality_of_set();
    vstd::seq_lib::seq_to_set_is_finite(u);
    assert(v.to_set().subset_of(u.to_set()));
    vstd::set_lib::lemma_len_subset(v.to_set(), u.to_set());
}


/// A successor listed for `id` is listed by some entry for `id`.
pub proof fn lemma_adj_succs(adj: Seq<(usize, Seq<usize>)>, id: usize, s: usize)
    requires
        adj_succs(adj, id).contains(s),
    ensures
        exists|i: int| 0 <= i < adj.len() && adj[i].0 == id && (#[trigger] adj[i].1).contains(s),
    decreases adj.len(),
{
    if adj[0].0 != id {
        lemma_adj_succs(adj.drop_first(), id, s);
        let i = choose|i: int| 0 <= i < adj.drop_first().len() && adj.drop_first()[i].0 == id && (#[trigger] adj.drop_first()[i].1).contains(s);
        assert(adj[i + 1] == adj.drop_first()[i]);
    } else {
        assert(adj[0].1.contains(s));
    }
}

/// The successors of the entry at index `i`, when no earlier entry has its id.
pub proof fn lemma_adj_succs_at(adj: Seq<(usize, Seq<usize>)>, i: int)
    requires
        0 <= i < adj.len(),
        forall|j: int| 0 <= j < i ==> adj[j].0 != adj[i].0,
    ensures
        adj_succs(adj, adj[i].0) == adj[i].1,
    decreases i,
{
    if i > 0 {
        let rest = adj.drop_first();
        assert(rest[i - 1] == adj[i]);
        assert forall|j: int| 0 <= j < i - 1 implies (#[trigger] rest[j]).0 != rest[i - 1].0 by {
            assert(rest[j] == adj[j + 1]);
        }
        lemma_adj_succs_at(rest, i - 1);
        assert(adj[0].0 != adj[i].0);
    }
}

} // verus!
