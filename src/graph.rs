//! Builds the directed weighted graph of one travel mode: every lane is a node, and every
//! turn the mode may take from a lane it may use is an edge, weighted by `cost`.
use crate::cost::{clamp_usize, cost, spec_cost, MAX_EDGE_WEIGHT};
use crate::hierarchy::{input_frozen, input_num_nodes, input_weights, least_weight};
use crate::network::{LaneID, Network, PathConstraints, Turn};
use crate::node_map::NodeMap;
use crate::route::Weights;
use fast_paths::InputGraph;
use vstd::prelude::*;

verus! {

/// Node `i` stands for lane `i`.
pub open spec fn lane_ids(n: nat) -> Seq<LaneID> {
    Seq::new(n, |i: int| LaneID(i as usize))
}

pub open spec fn turn_at(map: &Network, i: int, j: int) -> Turn {
    map.turns@[i]@[j]
}

pub open spec fn dst_of(map: &Network, i: int, j: int) -> usize {
    turn_at(map, i, j).id.dst.0
}

/// The mode may use the lane and the lane the turn leads to.
pub open spec fn turn_usable(map: &Network, c: PathConstraints, i: int, j: int) -> bool {
    &&& map.lanes@[i].lane_type.usable_by(c)
    &&& map.lanes@[dst_of(map, i, j) as int].lane_type.usable_by(c)
}

pub open spec fn turn_weight(map: &Network, c: PathConstraints, i: int, j: int) -> usize {
    clamp_usize(spec_cost(map.lanes@[i], turn_at(map, i, j), c, map))
}

/// The turn gives an edge: the mode may take it, it joins two different lanes, and its
/// weight is positive (the graph keeps no loops and no zero weights).
pub open spec fn is_edge_turn(map: &Network, c: PathConstraints, i: int, j: int) -> bool {
    &&& turn_usable(map, c, i, j)
    &&& dst_of(map, i, j) != i
    &&& turn_weight(map, c, i, j) >= 1
}

/// How many turns of lane `a` come before position (`i`, `j`): all turns of lanes below `i`,
/// then the first `j` turns of lane `i`.
pub open spec fn turns_seen(map: &Network, a: int, i: int, j: int) -> int {
    if a < i {
        map.turns@[a]@.len() as int
    } else if a == i {
        j
    } else {
        0
    }
}

pub open spec fn has_edge_within(
    map: &Network,
    c: PathConstraints,
    k: (usize, usize),
    i: int,
    j: int,
) -> bool {
    exists|jj: int|
        0 <= jj < turns_seen(map, k.0 as int, i, j) && #[trigger] is_edge_turn(map, c, k.0 as int, jj)
            && dst_of(map, k.0 as int, jj) == k.1
}

/// The weight of the turn from lane `k.0` to lane `k.1`.
pub open spec fn edge_weight(map: &Network, c: PathConstraints, k: (usize, usize)) -> usize {
    let jj = choose|jj: int| 0 <= jj < map.turns@[k.0 as int]@.len() && dst_of(map, k.0 as int, jj) == k.1;
    turn_weight(map, c, k.0 as int, jj)
}

/// The edges given by the turns before position (`i`, `j`).
pub open spec fn edges_within(map: &Network, c: PathConstraints, i: int, j: int) -> Weights {
    Map::new(|k: (usize, usize)| has_edge_within(map, c, k, i, j), |k: (usize, usize)| edge_weight(map, c, k))
}

/// The edges of the mode's graph that come from turns of the network.
pub open spec fn real_graph(map: &Network, c: PathConstraints) -> Weights {
    edges_within(map, c, map.lanes@.len() as int, 0)
}

/// Some edge starts or ends at node `v`.
pub open spec fn touches(e: Weights, v: usize) -> bool {
    exists|k: (usize, usize)| #[trigger] e.contains_key(k) && (k.0 == v || k.1 == v)
}

/// With two lanes or more, no turn edge starts or ends at the last lane. Only then does the
/// builder add the placeholder. Adding it whenever the last lane merely has no edge out would
/// let a route that arrives at the last lane go on through the placeholder to lane 0, along a
/// turn the network does not have. A lane that no edge touches is reached by no route, so a
/// placeholder out of it can only begin a walk, and queries starting there are answered
/// without the hierarchy. When an edge already touches the last lane, that edge alone makes
/// it a node of the graph.
pub open spec fn needs_placeholder(map: &Network, c: PathConstraints) -> bool {
    let n = map.lanes@.len() as int;
    &&& n >= 2
    &&& !touches(real_graph(map, c), (n - 1) as usize)
}

/// The edge the builder adds so that the last lane is a node of the graph: from the last lane
/// to lane 0, weight 1. It is added only when no other edge touches the last lane, so only a
/// walk that starts there can take it.
pub open spec fn placeholder_key(map: &Network) -> (usize, usize) {
    ((map.lanes@.len() - 1) as usize, 0usize)
}

/// The graph of a mode over a network: its turn edges, and the placeholder where needed.
pub open spec fn graph_of(map: &Network, c: PathConstraints) -> Weights {
    let e = real_graph(map, c);
    if needs_placeholder(map, c) {
        e.insert(placeholder_key(map), 1)
    } else {
        e
    }
}

/// The node count of a mode's graph: the lane count, once there are two lanes to join.
pub open spec fn graph_num_nodes(map: &Network) -> usize {
    if map.lanes@.len() >= 2 {
        map.lanes@.len() as usize
    } else {
        0
    }
}

proof fn lemma_edge_weight_at(map: &Network, c: PathConstraints, i: int, j: int)
    requires
        map.wf(),
        0 <= i < map.lanes@.len(),
        0 <= j < map.turns@[i]@.len(),
    ensures
        edge_weight(map, c, (i as usize, dst_of(map, i, j))) == turn_weight(map, c, i, j),
{
    let k = (i as usize, dst_of(map, i, j));
    let jj = choose|jj: int| 0 <= jj < map.turns@[k.0 as int]@.len() && dst_of(map, k.0 as int, jj) == k.1;
    assert(0 <= jj < map.turns@[k.0 as int]@.len() && dst_of(map, k.0 as int, jj) == k.1);
    if jj != j {
        assert(map.turns@[i]@[jj].id.dst != map.turns@[i]@[j].id.dst);
    }
}

proof fn lemma_turn_step(map: &Network, c: PathConstraints, i: int, j: int)
    requires
        map.wf(),
        0 <= i < map.lanes@.len(),
        0 <= j < map.turns@[i]@.len(),
    ensures
        is_edge_turn(map, c, i, j) ==> !edges_within(map, c, i, j).contains_key(
            (i as usize, dst_of(map, i, j)),
        ),
        is_edge_turn(map, c, i, j) ==> edges_within(map, c, i, j + 1) == edges_within(
            map,
            c,
            i,
            j,
        ).insert((i as usize, dst_of(map, i, j)), turn_weight(map, c, i, j)),
        !is_edge_turn(map, c, i, j) ==> edges_within(map, c, i, j + 1) == edges_within(
            map,
            c,
            i,
            j,
        ),
{
    let key = (i as usize, dst_of(map, i, j));
    lemma_edge_weight_at(map, c, i, j);
    if has_edge_within(map, c, key, i, j) {
        let jj = choose|jj: int|
            0 <= jj < turns_seen(map, key.0 as int, i, j) && #[trigger] is_edge_turn(
                map,
                c,
                key.0 as int,
                jj,
            ) && dst_of(map, key.0 as int, jj) == key.1;
        assert(map.turns@[i]@[jj].id.dst != map.turns@[i]@[j].id.dst);
    }
    let old_e = edges_within(map, c, i, j);
    let new_e = edges_within(map, c, i, j + 1);
    assert forall|k: (usize, usize)|
        #![auto]
        has_edge_within(map, c, k, i, j + 1) <==> (has_edge_within(map, c, k, i, j) || (
        is_edge_turn(map, c, i, j) && k == key)) by {
        if has_edge_within(map, c, k, i, j + 1) {
            let jj = choose|jj: int|
                0 <= jj < turns_seen(map, k.0 as int, i, j + 1) && #[trigger] is_edge_turn(
                    map,
                    c,
                    k.0 as int,
                    jj,
                ) && dst_of(map, k.0 as int, jj) == k.1;
            if !(k.0 as int == i && jj == j) {
                assert(0 <= jj < turns_seen(map, k.0 as int, i, j));
            }
        }
        if has_edge_within(map, c, k, i, j) {
            let jj = choose|jj: int|
                0 <= jj < turns_seen(map, k.0 as int, i, j) && #[trigger] is_edge_turn(
                    map,
                    c,
                    k.0 as int,
                    jj,
                ) && dst_of(map, k.0 as int, jj) == k.1;
            assert(0 <= jj < turns_seen(map, k.0 as int, i, j + 1));
        }
        if is_edge_turn(map, c, i, j) && k == key {
            assert(0 <= j < turns_seen(map, k.0 as int, i, j + 1));
        }
    }
    if is_edge_turn(map, c, i, j) {
        assert(new_e =~= old_e.insert(key, turn_weight(map, c, i, j)));
    } else {
        assert(new_e =~= old_e);
    }
}

proof fn lemma_lane_step(map: &Network, c: PathConstraints, i: int)
    requires
        map.wf(),
        0 <= i < map.lanes@.len(),
    ensures
        edges_within(map, c, i, map.turns@[i]@.len() as int) == edges_within(map, c, i + 1, 0),
{
    assert forall|a: int| turns_seen(map, a, i, map.turns@[i]@.len() as int) == turns_seen(map, a, i + 1, 0) by {}
    assert(edges_within(map, c, i, map.turns@[i]@.len() as int) =~= edges_within(map, c, i + 1, 0));
}

proof fn lemma_unusable_lane(map: &Network, c: PathConstraints, i: int)
    requires
        map.wf(),
        0 <= i < map.lanes@.len(),
        !map.lanes@[i].lane_type.usable_by(c),
    ensures
        edges_within(map, c, i, 0) == edges_within(map, c, i + 1, 0),
{
    assert forall|k: (usize, usize)|
        #![auto]
        has_edge_within(map, c, k, i + 1, 0) ==> has_edge_within(map, c, k, i, 0) by {
        if has_edge_within(map, c, k, i + 1, 0) {
            let jj = choose|jj: int|
                0 <= jj < turns_seen(map, k.0 as int, i + 1, 0) && #[trigger] is_edge_turn(
                    map,
                    c,
                    k.0 as int,
                    jj,
                ) && dst_of(map, k.0 as int, jj) == k.1;
            assert(0 <= jj < turns_seen(map, k.0 as int, i, 0));
        }
    }
    assert forall|k: (usize, usize)|
        #![auto]
        has_edge_within(map, c, k, i, 0) ==> has_edge_within(map, c, k, i + 1, 0) by {
        if has_edge_within(map, c, k, i, 0) {
            let jj = choose|jj: int|
                0 <= jj < turns_seen(map, k.0 as int, i, 0) && #[trigger] is_edge_turn(
                    map,
                    c,
                    k.0 as int,
                    jj,
                ) && dst_of(map, k.0 as int, jj) == k.1;
            assert(0 <= jj < turns_seen(map, k.0 as int, i + 1, 0));
        }
    }
    assert(edges_within(map, c, i, 0) =~= edges_within(map, c, i + 1, 0));
}

proof fn lemma_lane_node(nodes: &NodeMap, n: nat, x: usize)
    requires
        nodes@ == lane_ids(n),
        x < n,
    ensures
        nodes.contains(LaneID(x)),
{
    assert(nodes@[x as int] == LaneID(x));
}

proof fn lemma_touches_insert(e: Weights, key: (usize, usize), val: usize, v: usize)
    ensures
        touches(e.insert(key, val), v) == (touches(e, v) || key.0 == v || key.1 == v),
{
    let e2 = e.insert(key, val);
    if touches(e2, v) {
        let k = choose|k: (usize, usize)| #[trigger] e2.contains_key(k) && (k.0 == v || k.1 == v);
        if k != key {
            assert(e.contains_key(k));
        }
    }
    if touches(e, v) {
        let k = choose|k: (usize, usize)| #[trigger] e.contains_key(k) && (k.0 == v || k.1 == v);
        assert(e2.contains_key(k));
    }
    if key.0 == v || key.1 == v {
        assert(e2.contains_key(key));
    }
}

/// All lanes as nodes, and each edge of the mode's graph (see `graph_of`). The builder adds an
/// edge out of the last lane when no edge touches it: a graph's node count is one more than
/// the largest node an edge mentions, and the graph must hold every lane, for node orders to
/// carry over between graphs of the same network.
pub fn make_input_graph(map: &Network, nodes: &NodeMap, constraints: PathConstraints) -> (r:
    InputGraph)
    requires
        map.wf(),
        nodes.wf(),
        nodes@ == lane_ids(map.lanes@.len()),
        constraints != PathConstraints::Pedestrian,
    ensures
        input_frozen(r),
        input_weights(r) == graph_of(map, constraints),
        input_num_nodes(r) == graph_num_nodes(map),
        forall|k: (usize, usize)| #[trigger]
            input_weights(r).contains_key(k) ==> input_weights(r)[k] <= MAX_EDGE_WEIGHT,
{
    let (g, _, _) = build_input_graph(map, nodes, constraints);
    g
}

/// `make_input_graph`, also giving the largest edge weight (0 without edges) and whether the
/// placeholder edge was added.
pub(crate) fn build_input_graph(map: &Network, nodes: &NodeMap, constraints: PathConstraints) -> (r: (
    InputGraph,
    usize,
    bool,
))
    requires
        map.wf(),
        nodes.wf(),
        nodes@ == lane_ids(map.lanes@.len()),
        constraints != PathConstraints::Pedestrian,
    ensures
        input_frozen(r.0),
        input_weights(r.0) == graph_of(map, constraints),
        input_num_nodes(r.0) == graph_num_nodes(map),
        forall|k: (usize, usize)| #[trigger]
            input_weights(r.0).contains_key(k) ==> input_weights(r.0)[k] <= r.1,
        r.1 == 0 || exists|k: (usize, usize)| #[trigger]
            input_weights(r.0).contains_key(k) && input_weights(r.0)[k] == r.1,
        r.1 <= MAX_EDGE_WEIGHT,
        r.2 == needs_placeholder(map, constraints),
{
    let mut input_graph = InputGraph::new();
    let lanes = map.all_lanes();
    let num_lanes = lanes.len();
    let ghost n = num_lanes as int;
    let ghost last = (n - 1) as usize;
    let mut touched = false;
    let mut max_w: usize = 0;
    let mut i: usize = 0;
    proof {
        assert(input_weights(input_graph) =~= edges_within(map, constraints, 0, 0));
    }
    while i < num_lanes
        invariant
            map.wf(),
            nodes.wf(),
            nodes@ == lane_ids(map.lanes@.len()),
            constraints != PathConstraints::Pedestrian,
            lanes@ == map.lanes@,
            num_lanes == n,
            n == map.lanes@.len(),
            last == (n - 1) as usize,
            i <= num_lanes,
            !input_frozen(input_graph),
            input_weights(input_graph) == edges_within(map, constraints, i as int, 0),
            forall|k: (usize, usize)| #[trigger]
                input_weights(input_graph).contains_key(k) ==> input_weights(input_graph)[k]
                    <= max_w,
            max_w == 0 || exists|k: (usize, usize)| #[trigger]
                input_weights(input_graph).contains_key(k) && input_weights(input_graph)[k] == max_w,
            max_w <= MAX_EDGE_WEIGHT,
            input_num_nodes(input_graph) <= n,
            n < 2 ==> input_num_nodes(input_graph) == 0,
            n >= 1 ==> touched == touches(input_weights(input_graph), last),
            touched ==> input_num_nodes(input_graph) == n,
        decreases num_lanes - i,
    {
        let l = &lanes[i];
        proof {
            lemma_lane_node(nodes, map.lanes@.len(), i);
        }
        let from = nodes.get(l.id);
        if constraints.can_use(l) {
            let turns = map.turns_from(l.id);
            let mut j: usize = 0;
            while j < turns.len()
                invariant
                    map.wf(),
                    nodes.wf(),
                    nodes@ == lane_ids(map.lanes@.len()),
                    constraints != PathConstraints::Pedestrian,
                    lanes@ == map.lanes@,
                    num_lanes == n,
                    n == map.lanes@.len(),
                    last == (n - 1) as usize,
                    i < n,
                    *l == map.lanes@[i as int],
                    l.lane_type.usable_by(constraints),
                    from == i,
                    turns@ == map.turns@[i as int]@,
                    j <= turns@.len(),
                    !input_frozen(input_graph),
                    input_weights(input_graph) == edges_within(map, constraints, i as int, j as int),
                    forall|k: (usize, usize)| #[trigger]
                        input_weights(input_graph).contains_key(k) ==> input_weights(
                            input_graph,
                        )[k] <= max_w,
                    max_w == 0 || exists|k: (usize, usize)| #[trigger]
                        input_weights(input_graph).contains_key(k) && input_weights(input_graph)[k]
                            == max_w,
                    max_w <= MAX_EDGE_WEIGHT,
                    input_num_nodes(input_graph) <= n,
                    n < 2 ==> input_num_nodes(input_graph) == 0,
                    touched == touches(input_weights(input_graph), last),
                    touched ==> input_num_nodes(input_graph) == n,
                decreases turns@.len() - j,
            {
                let t = &turns[j];
                proof {
                    lemma_turn_step(map, constraints, i as int, j as int);
                    lemma_edge_weight_at(map, constraints, i as int, j as int);
                    assert(map.turns@[i as int]@[j as int] == *t);
                }
                let dst = map.get_l(t.id.dst);
                if constraints.can_use(dst) {
                    let w = cost(l, t, constraints, map);
                    proof {
                        lemma_lane_node(nodes, map.lanes@.len(), t.id.dst.0);
                    }
                    let to = nodes.get(t.id.dst);
                    let ghost before = input_weights(input_graph);
                    let added = input_graph.add_edge(from, to, w);
                    proof {
                        if is_edge_turn(map, constraints, i as int, j as int) {
                            assert(least_weight(before, (from, to), w) == w);
                            lemma_touches_insert(before, (from, to), w, last);
                            if max_w != 0 && w <= max_w {
                                let k = choose|k: (usize, usize)| #[trigger]
                                    before.contains_key(k) && before[k] == max_w;
                                assert(input_weights(input_graph).contains_key(k));
                            }
                            assert(input_weights(input_graph).contains_key((from, to)));
                        }
                    }
                    if added == 1 {
                        if from == num_lanes - 1 || to == num_lanes - 1 {
                            touched = true;
                        }
                        if w > max_w {
                            max_w = w;
                        }
                    }
                }
                j += 1;
            }
            proof {
                lemma_lane_step(map, constraints, i as int);
            }
        } else {
            proof {
                lemma_unusable_lane(map, constraints, i as int);
            }
        }
        i += 1;
    }
    let mut placeholder = false;
    if num_lanes >= 2 && !touched {
        proof {
            lemma_lane_node(nodes, map.lanes@.len(), (num_lanes - 1) as usize);
            lemma_lane_node(nodes, map.lanes@.len(), 0);
            assert(needs_placeholder(map, constraints));
            assert(!input_weights(input_graph).contains_key(placeholder_key(map)));
        }
        let from = nodes.get(LaneID(num_lanes - 1));
        let to = nodes.get(LaneID(0));
        let ghost before = input_weights(input_graph);
        input_graph.add_edge(from, to, 1);
        proof {
            if max_w != 0 {
                let k = choose|k: (usize, usize)| #[trigger]
                    before.contains_key(k) && before[k] == max_w;
                assert(k != (from, to));
                assert(input_weights(input_graph).contains_key(k));
                assert(input_weights(input_graph)[k] == max_w);
            }
            assert(input_weights(input_graph).contains_key((from, to)));
            assert(least_weight(before, (from, to), 1) == 1);
            assert(input_weights(input_graph)[(from, to)] == 1);
        }
        if max_w == 0 {
            max_w = 1;
        }
        placeholder = true;
    }
    let ghost pre = input_weights(input_graph);
    input_graph.freeze();
    let r = (input_graph, max_w, placeholder);
    proof {
        if max_w != 0 {
            let k = choose|k: (usize, usize)| #[trigger] pre.contains_key(k) && pre[k] == max_w;
            assert(input_weights(r.0).contains_key(k) && input_weights(r.0)[k] == r.1);
        }
    }
    r
}

/// Every turn edge of a mode's graph (all edges but the placeholder) is a turn of the
/// network whose lane and destination lane the mode may use, weighted by its cost.
pub proof fn lemma_edges_are_usable_turns(map: &Network, c: PathConstraints, k: (usize, usize))
    requires
        map.wf(),
        real_graph(map, c).contains_key(k),
    ensures
        exists|j: int|
            0 <= j < map.turns@[k.0 as int]@.len() && #[trigger] dst_of(map, k.0 as int, j) == k.1
                && map.lanes@[k.0 as int].lane_type.usable_by(c)
                && map.lanes@[k.1 as int].lane_type.usable_by(c)
                && real_graph(map, c)[k] == turn_weight(map, c, k.0 as int, j),
{
    let n = map.lanes@.len() as int;
    assert(has_edge_within(map, c, k, n, 0));
    let jj = choose|jj: int|
        0 <= jj < turns_seen(map, k.0 as int, n, 0) && #[trigger] is_edge_turn(map, c, k.0 as int, jj)
            && dst_of(map, k.0 as int, jj) == k.1;
    lemma_edge_weight_at(map, c, k.0 as int, jj);
    assert(dst_of(map, k.0 as int, jj) == k.1);
}

} // verus!
