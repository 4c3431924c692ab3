//! Walks in a weighted directed graph given as a map from (from, to) to the edge weight.
use vstd::prelude::*;

verus! {

/// Edge weights keyed by (from node, to node).
pub type Weights = Map<(usize, usize), usize>;

/// A nonempty node sequence whose consecutive pairs are all edges.
pub open spec fn is_walk(w: Weights, p: Seq<usize>) -> bool {
    &&& p.len() >= 1
    &&& forall|i: int| 0 <= i < p.len() - 1 ==> #[trigger] w.contains_key((p[i], p[i + 1]))
}

/// The summed weight of the edges along a node sequence.
pub open spec fn walk_weight(w: Weights, p: Seq<usize>) -> nat
    decreases p.len(),
{
    if p.len() <= 1 {
        0
    } else {
        w[(p[0], p[1])] as nat + walk_weight(w, p.subrange(1, p.len() as int))
    }
}

/// A walk from `s` to `t`.
pub open spec fn connects(w: Weights, p: Seq<usize>, s: usize, t: usize) -> bool {
    is_walk(w, p) && p[0] == s && p.last() == t
}

pub open spec fn reachable(w: Weights, s: usize, t: usize) -> bool {
    exists|p: Seq<usize>| connects(w, p, s, t)
}

/// `p` is a walk from `s` to `t` of weight `weight`, and no walk from `s` to `t` weighs less.
pub open spec fn is_shortest(w: Weights, s: usize, t: usize, p: Seq<usize>, weight: usize) -> bool {
    &&& connects(w, p, s, t)
    &&& weight == walk_weight(w, p)
    &&& forall|q: Seq<usize>| #[trigger] connects(w, q, s, t) ==> weight <= walk_weight(w, q)
}

/// Twice the square of the node count times any edge weight stays below the largest `usize`.
/// A contracted edge weighs a shortest route, of fewer than `n` edges; a search label sums
/// fewer than `n` contracted edges; a candidate sums two labels and an edge. So no sum that
/// building or searching the hierarchy forms can overflow.
pub open spec fn weights_fit(w: Weights, num_nodes: usize) -> bool {
    forall|k: (usize, usize)| #[trigger]
        w.contains_key(k) ==> 2 * (w[k] as int) * (num_nodes as int) * (num_nodes as int)
            < usize::MAX
}

/// Two searches on the same weights that both find a shortest walk agree on its weight.
pub proof fn lemma_shortest_unique(
    w: Weights,
    s: usize,
    t: usize,
    p1: Seq<usize>,
    c1: usize,
    p2: Seq<usize>,
    c2: usize,
)
    requires
        is_shortest(w, s, t, p1, c1),
        is_shortest(w, s, t, p2, c2),
    ensures
        c1 == c2,
{
    assert(connects(w, p1, s, t));
    assert(connects(w, p2, s, t));
}

} // verus!
