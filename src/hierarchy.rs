//! The contraction-hierarchy library that answers shortest-route queries, as this crate
//! relies on it. Each item below states what the library's source does.
use crate::route::{is_shortest, reachable, weights_fit, Weights};
use fast_paths::{FastGraph, InputGraph, PathCalculator, ShortestPath};
use vstd::prelude::*;

verus! {

#[verifier::external_type_specification]
#[verifier::external_body]
pub struct ExInputGraph(InputGraph);

#[verifier::external_type_specification]
#[verifier::external_body]
pub struct ExFastGraph(FastGraph);

#[verifier::external_type_specification]
#[verifier::external_body]
pub struct ExPathCalculator(PathCalculator);

#[verifier::external_type_specification]
#[verifier::external_body]
pub struct ExShortestPath(ShortestPath);

/// The edges an input graph holds: for each (from, to) pair, the least weight added for it.
pub uninterp spec fn input_weights(g: InputGraph) -> Map<(usize, usize), usize>;

/// One more than the largest node index that an added edge mentions (zero if none).
pub uninterp spec fn input_num_nodes(g: InputGraph) -> usize;

/// Whether `freeze` has been called on the input graph.
pub uninterp spec fn input_frozen(g: InputGraph) -> bool;

/// The prepared graph `g` came from contracting an input graph whose least weight per pair
/// is `w`. Contraction may fold an input edge into a lighter shortcut, so inputs that differ
/// in such edges can give the same prepared graph; all of them agree on every least route.
pub uninterp spec fn prepared_for(g: FastGraph, w: Map<(usize, usize), usize>) -> bool;

/// The nodes of a prepared graph listed by contraction rank, lowest first.
pub uninterp spec fn fast_order(g: FastGraph) -> Seq<usize>;

/// The node count of a prepared graph.
pub uninterp spec fn fast_num_nodes(g: FastGraph) -> usize;

/// The node count a path calculator was sized for.
pub uninterp spec fn calculator_num_nodes(c: PathCalculator) -> usize;

/// The total weight of a found route.
pub uninterp spec fn shortest_weight(p: ShortestPath) -> usize;

/// The nodes of a found route, from source to target.
pub uninterp spec fn shortest_nodes(p: ShortestPath) -> Seq<usize>;

pub open spec fn least_weight(w: Weights, k: (usize, usize), weight: usize) -> usize {
    if w.contains_key(k) && w[k] < weight {
        w[k]
    } else {
        weight
    }
}

pub open spec fn max_usize(a: usize, b: usize) -> usize {
    if a < b {
        b
    } else {
        a
    }
}

/// Relies on InputGraph::new: an empty, unfrozen graph.
pub assume_specification[ InputGraph::new ]() -> (r: InputGraph)
    ensures
        input_weights(r) == Weights::empty(),
        input_num_nodes(r) == 0,
        !input_frozen(r),
;

/// Relies on InputGraph::add_edge: loops and zero weights are skipped; otherwise the edge is
/// stored (a duplicate pair keeps its lowest weight once frozen) and the node count grows to
/// cover both ends. Adding to a frozen graph panics.
pub assume_specification[ InputGraph::add_edge ](
    g: &mut InputGraph,
    from: usize,
    to: usize,
    weight: usize,
) -> (r: usize)
    requires
        !input_frozen(*old(g)),
        from < usize::MAX,
        to < usize::MAX,
    ensures
        !input_frozen(*final(g)),
        from != to && weight >= 1 ==> {
            &&& r == 1
            &&& input_weights(*final(g)) == input_weights(*old(g)).insert(
                (from, to),
                least_weight(input_weights(*old(g)), (from, to), weight),
            )
            &&& input_num_nodes(*final(g)) == max_usize(
                input_num_nodes(*old(g)),
                (max_usize(from, to) + 1) as usize,
            )
        },
        !(from != to && weight >= 1) ==> {
            &&& r == 0
            &&& input_weights(*final(g)) == input_weights(*old(g))
            &&& input_num_nodes(*final(g)) == input_num_nodes(*old(g))
        },
;

/// Relies on InputGraph::freeze: sorts the edges and drops all but the lightest of each
/// pair, which leaves the least weight per pair as it was. Freezing twice panics.
pub assume_specification[ InputGraph::freeze ](g: &mut InputGraph)
    requires
        !input_frozen(*old(g)),
    ensures
        input_frozen(*final(g)),
        input_weights(*final(g)) == input_weights(*old(g)),
        input_num_nodes(*final(g)) == input_num_nodes(*old(g)),
;

/// Relies on fast_paths::prepare: contracts a frozen graph, choosing its own node order
/// (each node gets the next rank as it leaves the queue that holds them all); the result
/// answers queries for the input's edges. Contraction sums edge weights unchecked, so the
/// weights must leave room for those sums.
pub assume_specification[ fast_paths::prepare ](input_graph: &InputGraph) -> (r: FastGraph)
    requires
        input_frozen(*input_graph),
        weights_fit(input_weights(*input_graph), input_num_nodes(*input_graph)),
    ensures
        prepared_for(r, input_weights(*input_graph)),
        fast_num_nodes(r) == input_num_nodes(*input_graph),
        is_permutation(fast_order(r)),
        fast_order(r).len() == input_num_nodes(*input_graph),
;

/// Relies on fast_paths::prepare_with_order: contracts a frozen graph in the given node
/// order. It fails exactly when the order's length differs from the node count, and panics
/// on an entry that is not a node, which a permutation of `0..len` rules out. Node
/// `order[i]` gets rank `i`. Contraction sums edge weights unchecked.
pub assume_specification[ fast_paths::prepare_with_order ](
    input_graph: &InputGraph,
    order: &Vec<usize>,
) -> (r: Result<FastGraph, String>)
    requires
        input_frozen(*input_graph),
        is_permutation(order@),
        weights_fit(input_weights(*input_graph), input_num_nodes(*input_graph)),
    ensures
        r is Ok <==> order@.len() == input_num_nodes(*input_graph),
        r matches Ok(f) ==> prepared_for(f, input_weights(*input_graph)),
        r matches Ok(f) ==> fast_num_nodes(f) == input_num_nodes(*input_graph),
        r matches Ok(f) ==> fast_order(f) == order@,
;

/// Relies on FastGraph::get_num_nodes.
pub assume_specification[ FastGraph::get_num_nodes ](g: &FastGraph) -> (r: usize)
    ensures
        r == fast_num_nodes(*g),
;

/// Relies on FastGraph::get_node_ordering: the nodes listed by contraction rank.
pub assume_specification[ FastGraph::get_node_ordering ](g: &FastGraph) -> (r: Vec<usize>)
    ensures
        r@ == fast_order(*g),
;

/// Relies on fast_paths::create_calculator: a calculator sized for the graph's nodes.
pub assume_specification[ fast_paths::create_calculator ](fast_graph: &FastGraph) -> (r:
    PathCalculator)
    ensures
        calculator_num_nodes(r) == fast_num_nodes(*fast_graph),
;

/// Relies on PathCalculator::calc_path: a bidirectional search on the hierarchy that returns
/// a least-weight route of the input it was prepared from (unpacking shortcuts down to input
/// edges), or `None` when the target cannot be reached. It panics when the calculator's size
/// differs from the graph's, or on a node out of range; its sums stay in range when some
/// input it was prepared from meets `weights_fit`.
pub assume_specification[ PathCalculator::calc_path ](
    c: &mut PathCalculator,
    graph: &FastGraph,
    start: usize,
    end: usize,
) -> (r: Option<ShortestPath>)
    requires
        calculator_num_nodes(*old(c)) == fast_num_nodes(*graph),
        start < fast_num_nodes(*graph),
        end < fast_num_nodes(*graph),
        exists|w: Weights| #[trigger]
            prepared_for(*graph, w) && weights_fit(w, fast_num_nodes(*graph)),
    ensures
        calculator_num_nodes(*final(c)) == calculator_num_nodes(*old(c)),
        forall|w: Weights| #[trigger]
            prepared_for(*graph, w) ==> (r is None <==> !reachable(w, start, end)),
        forall|w: Weights| #[trigger]
            prepared_for(*graph, w) ==> (r matches Some(p) ==> is_shortest(
                w,
                start,
                end,
                shortest_nodes(p),
                shortest_weight(p),
            )),
;

/// Relies on ShortestPath::get_weight.
pub assume_specification[ ShortestPath::get_weight ](p: &ShortestPath) -> (r: usize)
    ensures
        r == shortest_weight(*p),
;

/// Relies on ShortestPath::get_nodes.
pub assume_specification[ ShortestPath::get_nodes ](p: &ShortestPath) -> (r: &Vec<usize>)
    ensures
        r@ == shortest_nodes(*p),
;

/// Each entry is below the length, and no two entries are equal.
pub open spec fn is_permutation(order: Seq<usize>) -> bool {
    &&& forall|i: int| 0 <= i < order.len() ==> (#[trigger] order[i] as int) < order.len()
    &&& forall|i: int, j: int|
        0 <= i < order.len() && 0 <= j < order.len() && i != j ==> #[trigger] order[i]
            != #[trigger] order[j]
}

} // verus!
