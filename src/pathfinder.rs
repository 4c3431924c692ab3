//! Vehicle pathfinding: builds a mode's graph and its contraction hierarchy, answers route
//! requests as Lane/Turn steps, and rebuilds after network edits reusing the node order.
use crate::cost::MAX_EDGE_WEIGHT;
use crate::graph::{
    build_input_graph, graph_num_nodes, graph_of, lane_ids, needs_placeholder, placeholder_key,
    real_graph, touches,
};
use crate::hierarchy::{
    calculator_num_nodes, fast_num_nodes, fast_order, input_frozen, input_num_nodes,
    input_weights, is_permutation, prepared_for, shortest_nodes, shortest_weight,
};
use crate::network::{LaneID, Network, PathConstraints, TurnID};
use crate::node_map::NodeMap;
use crate::route::{connects, is_shortest, is_walk, reachable, walk_weight, weights_fit, Weights};
use fast_paths::{FastGraph, InputGraph, PathCalculator};
use vstd::prelude::*;

verus! {

/// A place along a lane, `dist_along` centimeters from its start.
#[derive(Clone, Copy, Debug, PartialEq, Eq, Structural)]
pub struct Position {
    pub lane: LaneID,
    pub dist_along: u32,
}

impl Position {
    pub fn new(lane: LaneID, dist_along: u32) -> (r: Position)
        ensures
            r == (Position { lane, dist_along }),
    {
        Position { lane, dist_along }
    }

    pub fn lane(&self) -> (r: LaneID)
        ensures
            r == self.lane,
    {
        self.lane
    }

    pub fn dist_along(&self) -> (r: u32)
        ensures
            r == self.dist_along,
    {
        self.dist_along
    }
}

/// A routing query.
#[derive(Clone, Copy, Debug, PartialEq, Eq, Structural)]
pub struct PathRequest {
    pub start: Position,
    pub end: Position,
    pub constraints: PathConstraints,
}

#[derive(Clone, Copy, Debug, PartialEq, Eq, Structural)]
pub enum PathStep {
    Lane(LaneID),
    Turn(TurnID),
}

/// A found route: alternating Lane and Turn steps, where the route stops on its last lane,
/// and its cost in the mode's unit (seconds for cars and buses, meters for bikes).
#[derive(Debug)]
pub struct Path {
    pub steps: Vec<PathStep>,
    pub end_dist: u32,
    pub cost: usize,
}

impl Path {
    pub fn get_steps(&self) -> (r: &Vec<PathStep>)
        ensures
            r@ == self.steps@,
    {
        &self.steps
    }

    pub fn get_cost(&self) -> (r: usize)
        ensures
            r == self.cost,
    {
        self.cost
    }
}

/// The steps of the route through the given lanes: each lane, and between two lanes the turn
/// joining them at the first lane's end.
pub open spec fn steps_for(map: &Network, nodes: Seq<usize>) -> Seq<PathStep> {
    Seq::new(
        (2 * nodes.len() - 1) as nat,
        |i: int|
            if i % 2 == 0 {
                PathStep::Lane(LaneID(nodes[i / 2]))
            } else {
                PathStep::Turn(
                    TurnID {
                        parent: map.lanes@[nodes[i / 2] as int].dst_i,
                        src: LaneID(nodes[i / 2]),
                        dst: LaneID(nodes[i / 2 + 1]),
                    },
                )
            },
    )
}

/// What a query from lane `s` to lane `t` owes on graph `w`: absence exactly when `t` cannot
/// be reached; otherwise the steps of a least-weight walk and its weight.
pub open spec fn answers(w: Weights, map: &Network, s: usize, t: usize, r: Option<Path>) -> bool {
    &&& r is None <==> !reachable(w, s, t)
    &&& r matches Some(p) ==> exists|nodes: Seq<usize>|
        is_shortest(w, s, t, nodes, p.cost) && #[trigger] steps_for(map, nodes) == p.steps@
}

/// Steps alternate Lane and Turn, begin on the lane `s` and end on the lane `t`, and each
/// turn leaves the lane before it and enters the lane after it.
pub open spec fn steps_valid(steps: Seq<PathStep>, s: LaneID, t: LaneID) -> bool {
    &&& steps.len() % 2 == 1
    &&& steps[0] == PathStep::Lane(s)
    &&& steps.last() == PathStep::Lane(t)
    &&& forall|i: int| 0 <= i < steps.len() && i % 2 == 0 ==> #[trigger] steps[i] is Lane
    &&& forall|i: int|
        0 <= i < steps.len() && i % 2 == 1 ==> match #[trigger] steps[i] {
            PathStep::Turn(tid) => steps[i - 1] == PathStep::Lane(tid.src) && steps[i + 1]
                == PathStep::Lane(tid.dst),
            PathStep::Lane(_) => false,
        }
}

/// Reusable query workspaces, all sized for one node count. A worker takes one per query
/// and gives it back, so queries do not allocate anew.
pub struct CalculatorPool {
    free: Vec<PathCalculator>,
    num_nodes: usize,
}

impl CalculatorPool {
    pub closed spec fn wf(&self) -> bool {
        forall|i: int|
            0 <= i < self.free@.len() ==> calculator_num_nodes(#[trigger] self.free@[i])
                == self.num_nodes
    }

    pub closed spec fn idle_count(&self) -> nat {
        self.free@.len()
    }

    pub closed spec fn size(&self) -> usize {
        self.num_nodes
    }

    pub fn new() -> (r: CalculatorPool)
        ensures
            r.wf(),
            r.idle_count() == 0,
    {
        CalculatorPool { free: Vec::new(), num_nodes: 0 }
    }

    /// How many workspaces wait for reuse.
    pub fn idle(&self) -> (r: usize)
        ensures
            r == self.idle_count(),
    {
        self.free.len()
    }

    /// A workspace for the graph: a waiting one when their size matches, else a new one.
    fn checkout(&mut self, graph: &FastGraph) -> (r: PathCalculator)
        requires
            old(self).wf(),
        ensures
            final(self).wf(),
            final(self).size() == fast_num_nodes(*graph),
            calculator_num_nodes(r) == fast_num_nodes(*graph),
    {
        let n = graph.get_num_nodes();
        if n != self.num_nodes {
            self.free = Vec::new();
            self.num_nodes = n;
        }
        match self.free.pop() {
            Some(c) => c,
            None => fast_paths::create_calculator(graph),
        }
    }

    fn give_back(&mut self, c: PathCalculator)
        requires
            old(self).wf(),
            calculator_num_nodes(c) == old(self).size(),
        ensures
            final(self).wf(),
            final(self).size() == old(self).size(),
    {
        self.free.push(c);
    }
}

/// Whether the entries are exactly the numbers below the length, each once.
fn check_permutation(order: &Vec<usize>) -> (r: bool)
    ensures
        r == is_permutation(order@),
{
    let n = order.len();
    let mut seen: Vec<bool> = Vec::new();
    let mut k: usize = 0;
    while k < n
        invariant
            k <= n,
            seen@.len() == k,
            forall|x: int| 0 <= x < k ==> !#[trigger] seen@[x],
        decreases n - k,
    {
        seen.push(false);
        k += 1;
    }
    let mut i: usize = 0;
    while i < n
        invariant
            n == order@.len(),
            i <= n,
            seen@.len() == n,
            forall|a: int| 0 <= a < i ==> (#[trigger] order@[a] as int) < n,
            forall|a: int, b: int|
                0 <= a < i && 0 <= b < i && a != b ==> #[trigger] order@[a] != #[trigger] order@[b],
            forall|x: int|
                0 <= x < n ==> (#[trigger] seen@[x] <==> exists|a: int| 0 <= a < i && order@[a] == x),
        decreases n - i,
    {
        let v = order[i];
        if v >= n {
            return false;
        }
        if seen[v] {
            proof {
                let a = choose|a: int| 0 <= a < i && order@[a] == v;
                assert(order@[a] == order@[i as int]);
            }
            return false;
        }
        seen.set(v, true);
        proof {
            assert forall|x: int|
                0 <= x < n implies (#[trigger] seen@[x] <==> exists|a: int|
                0 <= a < i + 1 && order@[a] == x) by {
                if x == v {
                    assert(order@[i as int] == x);
                } else if seen@[x] {
                    let a = choose|a: int| 0 <= a < i && order@[a] == x;
                    assert(0 <= a < i + 1 && order@[a] == x);
                }
            }
            assert forall|a: int, b: int|
                0 <= a < i + 1 && 0 <= b < i + 1 && a != b implies #[trigger] order@[a]
                != #[trigger] order@[b] by {
                if a == i && b < i {
                    assert(seen@[order@[b] as int] || order@[b] == v);
                } else if b == i && a < i {
                    assert(seen@[order@[a] as int] || order@[a] == v);
                }
            }
        }
        i += 1;
    }
    true
}


/// Contracts the graph. A given order that is a permutation of the graph's nodes is used as
/// it is; otherwise the hierarchy chooses its own.
fn contract(input_graph: &InputGraph, order: Option<Vec<usize>>) -> (r: FastGraph)
    requires
        input_frozen(*input_graph),
        weights_fit(input_weights(*input_graph), input_num_nodes(*input_graph)),
    ensures
        prepared_for(r, input_weights(*input_graph)),
        fast_num_nodes(r) == input_num_nodes(*input_graph),
        is_permutation(fast_order(r)),
        fast_order(r).len() == input_num_nodes(*input_graph),
        order matches Some(o) ==> (is_permutation(o@) && o@.len() == input_num_nodes(
            *input_graph,
        ) ==> fast_order(r) == o@),
{
    match order {
        Some(o) => {
            if check_permutation(&o) {
                match fast_paths::prepare_with_order(input_graph, &o) {
                    Ok(g) => g,
                    Err(_) => fast_paths::prepare(input_graph),
                }
            } else {
                fast_paths::prepare(input_graph)
            }
        },
        None => fast_paths::prepare(input_graph),
    }
}

/// Whether `2 * max_weight * n * n` stays below the largest `usize`.
fn sums_fit(max_weight: usize, n: usize) -> (r: bool)
    requires
        max_weight <= MAX_EDGE_WEIGHT,
        n <= crate::network::MAX_LANES,
    ensures
        r == (2 * (max_weight as int) * (n as int) * (n as int) < usize::MAX),
{
    let m = max_weight as u128;
    let k = n as u128;
    proof {
        assert(k * k <= 0x400_0000_0000_0000) by (nonlinear_arith)
            requires
                0 <= k <= 0x2000_0000,
        ;
        assert(2 * m * (k * k) <= 0x2000_0000_0000_0000_0000_0000) by (nonlinear_arith)
            requires
                0 <= m <= 0x4_0000_0000,
                0 <= k * k <= 0x400_0000_0000_0000,
        ;
        assert(2 * m * k * k == 2 * m * (k * k)) by (nonlinear_arith);
    }
    2 * m * (k * k) < usize::MAX as u128
}

proof fn lemma_fit_from_max(w: Weights, max_weight: usize, n: usize)
    requires
        forall|k: (usize, usize)| #[trigger] w.contains_key(k) ==> w[k] <= max_weight,
        max_weight == 0 || exists|k: (usize, usize)| #[trigger] w.contains_key(k) && w[k]
            == max_weight,
    ensures
        weights_fit(w, n) == (2 * (max_weight as int) * (n as int) * (n as int) < usize::MAX),
{
    if 2 * (max_weight as int) * (n as int) * (n as int) < usize::MAX {
        assert forall|k: (usize, usize)| #[trigger] w.contains_key(k) implies 2 * (w[k] as int) * (
        n as int) * (n as int) < usize::MAX by {
            let x = w[k] as int;
            let m = max_weight as int;
            let m2 = n as int;
            assert(2 * x * m2 * m2 <= 2 * m * m2 * m2) by (nonlinear_arith)
                requires
                    0 <= x <= m,
                    m2 >= 0,
            ;
        }
    } else if max_weight != 0 {
        let k = choose|k: (usize, usize)| #[trigger] w.contains_key(k) && w[k] == max_weight;
        assert(w.contains_key(k));
        assert(!(2 * (w[k] as int) * (n as int) * (n as int) < usize::MAX));
    } else {
        assert(2 * (max_weight as int) * (n as int) * (n as int) == 0) by (nonlinear_arith)
            requires
                max_weight == 0,
        ;
    }
}

/// Lane i at node i, for each lane of the network.
fn lane_nodes(map: &Network) -> (r: NodeMap)
    requires
        map.wf(),
    ensures
        r.wf(),
        r@ == lane_ids(map.lanes@.len()),
{
    let mut nodes = NodeMap::new();
    let lanes = map.all_lanes();
    let mut i: usize = 0;
    while i < lanes.len()
        invariant
            map.wf(),
            lanes@ == map.lanes@,
            i <= lanes@.len(),
            nodes.wf(),
            nodes@ == lane_ids(i as nat),
        decreases lanes@.len() - i,
    {
        let id = lanes[i].id;
        proof {
            assert(!nodes.contains(id)) by {
                if nodes.contains(id) {
                    let n = choose|n: int| 0 <= n < nodes@.len() && nodes@[n] == id;
                    assert(nodes@[n] == LaneID(n as usize));
                }
            }
        }
        nodes.get_or_insert(id);
        proof {
            assert(nodes@ =~= lane_ids((i + 1) as nat));
        }
        i += 1;
    }
    nodes
}

pub struct VehiclePathfinder {
    graph: FastGraph,
    nodes: NodeMap,
    constraints: PathConstraints,
    placeholder: bool,
    /// The edge weights the hierarchy was prepared from.
    weights: Ghost<Weights>,
}

/// Every edge joins two of the first `n` nodes.
pub open spec fn keys_below(w: Weights, n: nat) -> bool {
    forall|k: (usize, usize)| #[trigger] w.contains_key(k) ==> (k.0 as int) < n && (k.1 as int) < n
}

/// The mode's graph over the network leaves room for every sum its hierarchy forms.
pub open spec fn build_fits(map: &Network, c: PathConstraints) -> bool {
    weights_fit(graph_of(map, c), graph_num_nodes(map))
}

impl VehiclePathfinder {
    /// The edge weights the hierarchy was prepared from, placeholder included.
    pub closed spec fn weights(&self) -> Weights {
        self.weights@
    }

    /// The edges that come from turns of the network: `weights` without the placeholder.
    pub closed spec fn real_weights(&self) -> Weights {
        if self.placeholder {
            self.weights@.remove(((self.nodes@.len() - 1) as usize, 0usize))
        } else {
            self.weights@
        }
    }

    /// The node order of the hierarchy.
    pub closed spec fn order(&self) -> Seq<usize> {
        fast_order(self.graph)
    }

    /// The node count of the hierarchy.
    pub closed spec fn num_nodes(&self) -> usize {
        fast_num_nodes(self.graph)
    }

    /// The lane at each node.
    pub closed spec fn lanes_at_nodes(&self) -> Seq<LaneID> {
        self.nodes@
    }

    /// How many lanes the network it was built on has.
    pub closed spec fn num_lanes(&self) -> nat {
        self.nodes@.len()
    }

    pub closed spec fn mode(&self) -> PathConstraints {
        self.constraints
    }

    pub closed spec fn wf(&self) -> bool {
        let n = self.nodes@.len();
        let w = self.weights@;
        &&& self.nodes.wf()
        &&& prepared_for(self.graph, w)
        &&& self.nodes@ == lane_ids(n)
        &&& n <= crate::network::MAX_LANES
        &&& self.constraints != PathConstraints::Pedestrian
        &&& fast_num_nodes(self.graph) == (if n >= 2 {
            n as usize
        } else {
            0
        })
        &&& keys_below(w, n)
        &&& weights_fit(w, fast_num_nodes(self.graph))
        &&& is_permutation(fast_order(self.graph))
        &&& fast_order(self.graph).len() == fast_num_nodes(self.graph)
        &&& self.placeholder ==> {
            &&& n >= 2
            &&& w.contains_key(((n - 1) as usize, 0usize))
            &&& !touches(w.remove(((n - 1) as usize, 0usize)), (n - 1) as usize)
        }
    }

    /// What a well-formed pathfinder shows of itself: a vehicle mode, lane `i` at node `i`,
    /// one node per lane once there are two lanes, and the turn edges inside its graph.
    pub proof fn lemma_wf_facts(&self)
        requires
            self.wf(),
        ensures
            self.mode() != PathConstraints::Pedestrian,
            self.lanes_at_nodes() == lane_ids(self.num_lanes()),
            self.num_lanes() >= 2 ==> self.num_nodes() == self.num_lanes(),
            self.num_lanes() < 2 ==> self.num_nodes() == 0,
            forall|k: (usize, usize)| #[trigger]
                self.real_weights().contains_key(k) ==> self.weights().contains_key(k)
                    && self.weights()[k] == self.real_weights()[k],
    {
    }

    fn from_parts(
        map: &Network,
        constraints: PathConstraints,
        nodes: NodeMap,
        input_graph: &InputGraph,
        placeholder: bool,
        order: Option<Vec<usize>>,
    ) -> (r: VehiclePathfinder)
        requires
            map.wf(),
            constraints != PathConstraints::Pedestrian,
            nodes.wf(),
            nodes@ == lane_ids(map.lanes@.len()),
            input_frozen(*input_graph),
            input_weights(*input_graph) == graph_of(map, constraints),
            input_num_nodes(*input_graph) == graph_num_nodes(map),
            placeholder == needs_placeholder(map, constraints),
            build_fits(map, constraints),
        ensures
            r.wf(),
            r.weights() == graph_of(map, constraints),
            r.real_weights() == real_graph(map, constraints),
            r.num_nodes() == graph_num_nodes(map),
            r.num_lanes() == map.lanes@.len(),
            r.mode() == constraints,
            order matches Some(o) ==> (is_permutation(o@) && o@.len() == graph_num_nodes(map)
                ==> r.order() == o@),
    {
        proof {
            lemma_graph_keys(map, constraints);
        }
        let graph = contract(input_graph, order);
        let r = VehiclePathfinder {
            graph,
            nodes,
            constraints,
            placeholder,
            weights: Ghost(graph_of(map, constraints)),
        };
        proof {
            let turn_edges = real_graph(map, constraints);
            if placeholder {
                let pk = placeholder_key(map);
                assert(!turn_edges.contains_key(pk)) by {
                    if turn_edges.contains_key(pk) {
                        assert(touches(turn_edges, pk.0));
                    }
                }
                assert(graph_of(map, constraints).remove(pk) =~= turn_edges);
            }
        }
        r
    }

    /// Builds the mode's graph over all lanes and its hierarchy. With a seed built over the
    /// same number of lanes, the seed's node order is reused as it is.
    pub fn new(map: &Network, constraints: PathConstraints, seed: Option<&VehiclePathfinder>) -> (r:
        VehiclePathfinder)
        requires
            map.wf(),
            constraints != PathConstraints::Pedestrian,
            build_fits(map, constraints),
            seed matches Some(s) ==> s.wf(),
        ensures
            r.wf(),
            r.weights() == graph_of(map, constraints),
            r.real_weights() == real_graph(map, constraints),
            r.num_nodes() == graph_num_nodes(map),
            r.num_lanes() == map.lanes@.len(),
            r.mode() == constraints,
            seed matches Some(s) ==> (s.num_lanes() == map.lanes@.len() ==> r.order()
                == s.order()),
    {
        let nodes = lane_nodes(map);
        let (input_graph, _, placeholder) = build_input_graph(map, &nodes, constraints);
        let order = match seed {
            Some(s) => Some(s.graph.get_node_ordering()),
            None => None,
        };
        VehiclePathfinder::from_parts(map, constraints, nodes, &input_graph, placeholder, order)
    }

    /// `new`, or `None` when the graph's weights leave no room for the sums of building and
    /// searching its hierarchy.
    pub fn try_new(
        map: &Network,
        constraints: PathConstraints,
        seed: Option<&VehiclePathfinder>,
    ) -> (r: Option<VehiclePathfinder>)
        requires
            map.wf(),
            constraints != PathConstraints::Pedestrian,
            seed matches Some(s) ==> s.wf(),
        ensures
            r is None <==> !build_fits(map, constraints),
            r matches Some(p) ==> {
                &&& p.wf()
                &&& p.weights() == graph_of(map, constraints)
                &&& p.real_weights() == real_graph(map, constraints)
                &&& p.num_nodes() == graph_num_nodes(map)
                &&& p.num_lanes() == map.lanes@.len()
                &&& p.mode() == constraints
                &&& seed matches Some(s) ==> (s.num_lanes() == map.lanes@.len() ==> p.order()
                    == s.order())
            },
    {
        let nodes = lane_nodes(map);
        let (input_graph, max_weight, placeholder) = build_input_graph(map, &nodes, constraints);
        let n = if map.lanes.len() >= 2 {
            map.lanes.len()
        } else {
            0
        };
        proof {
            lemma_fit_from_max(input_weights(input_graph), max_weight, n);
        }
        if !sums_fit(max_weight, n) {
            return None;
        }
        let order = match seed {
            Some(s) => Some(s.graph.get_node_ordering()),
            None => None,
        };
        Some(VehiclePathfinder::from_parts(map, constraints, nodes, &input_graph, placeholder, order))
    }

    /// The node order of the hierarchy, lowest rank first.
    pub fn node_order(&self) -> (r: Vec<usize>)
        ensures
            r@ == self.order(),
    {
        self.graph.get_node_ordering()
    }

    /// The node count of the hierarchy.
    pub fn node_count(&self) -> (r: usize)
        ensures
            r == self.num_nodes(),
    {
        self.graph.get_num_nodes()
    }

    pub fn constraints(&self) -> (r: PathConstraints)
        ensures
            r == self.mode(),
    {
        self.constraints
    }

    /// The least-cost route for the request over the turns of the network, or `None` when
    /// no sequence of turns the mode may take leads from the start lane to the end lane. The
    /// start lane must be one the mode may use. `pool` lends the query its workspace.
    pub fn pathfind(&self, req: &PathRequest, map: &Network, pool: &mut CalculatorPool) -> (r:
        Option<Path>)
        requires
            self.wf(),
            old(pool).wf(),
            map.wf(),
            map.lanes@.len() == self.num_lanes(),
            (req.start.lane.0 as int) < map.lanes@.len(),
            (req.end.lane.0 as int) < map.lanes@.len(),
            map.lane(req.start.lane).lane_type.usable_by(self.mode()),
        ensures
            final(pool).wf(),
            answers(self.real_weights(), map, req.start.lane.0, req.end.lane.0, r),
            r matches Some(p) ==> p.end_dist == req.end.dist_along,
    {
        let ghost w = self.weights();
        let ghost turn_edges = self.real_weights();
        let ghost v = (self.num_lanes() - 1) as usize;
        let start_lane = req.start.lane();
        let end_lane = req.end.lane();
        proof {
            assert(self.nodes@[start_lane.0 as int] == start_lane);
            assert(self.nodes@[end_lane.0 as int] == end_lane);
        }
        let start = self.nodes.get(start_lane);
        let end = self.nodes.get(end_lane);
        if start == end {
            let mut steps: Vec<PathStep> = Vec::new();
            steps.push(PathStep::Lane(end_lane));
            proof {
                let p = seq![start];
                assert(connects(turn_edges, p, start, end));
                assert(is_shortest(turn_edges, start, end, p, 0));
                assert(steps_for(map, p) =~= steps@);
            }
            return Some(Path { steps, end_dist: req.end.dist_along(), cost: 0 });
        }
        if self.placeholder && start == map.lanes.len() - 1 {
            proof {
                assert(!reachable(turn_edges, start, end)) by {
                    if reachable(turn_edges, start, end) {
                        let p = choose|p: Seq<usize>| connects(turn_edges, p, start, end);
                        assert(p.len() >= 2);
                        let z: int = 0;
                        assert(turn_edges.contains_key((p[z], p[z + 1])));
                        assert(touches(turn_edges, v));
                    }
                }
            }
            return None;
        }
        let mut calc = pool.checkout(&self.graph);
        let raw = calc.calc_path(&self.graph, start, end);
        pool.give_back(calc);
        proof {
            lemma_real_within(self);
        }
        match raw {
            None => {
                proof {
                    if reachable(turn_edges, start, end) {
                        let p = choose|p: Seq<usize>| connects(turn_edges, p, start, end);
                        lemma_walk_in_larger(turn_edges, w, p);
                        assert(connects(w, p, start, end));
                    }
                }
                None
            },
            Some(sp) => {
                let nodes = sp.get_nodes();
                let weight = sp.get_weight();
                proof {
                    if self.placeholder {
                        lemma_shortest_avoids(w, turn_edges, v, start, end, nodes@, weight);
                    }
                    lemma_walk_nodes_below(turn_edges, self.num_lanes(), nodes@, start, end);
                }
                let lanes = self.nodes.translate(nodes);
                let ghost want = steps_for(map, nodes@);
                let mut steps: Vec<PathStep> = Vec::new();
                let mut m: usize = 0;
                while m < lanes.len() - 1
                    invariant
                        map.wf(),
                        lanes@.len() == nodes@.len(),
                        nodes@.len() >= 1,
                        forall|i: int|
                            0 <= i < nodes@.len() ==> #[trigger] lanes@[i] == LaneID(nodes@[i]),
                        forall|i: int|
                            0 <= i < nodes@.len() ==> (#[trigger] nodes@[i] as int)
                                < map.lanes@.len(),
                        want == steps_for(map, nodes@),
                        m + 1 <= lanes@.len(),
                        steps@ == want.subrange(0, 2 * m as int),
                    decreases lanes@.len() - m,
                {
                    let src = lanes[m];
                    let dst = lanes[m + 1];
                    let parent = map.get_l(src).dst_i;
                    steps.push(PathStep::Lane(src));
                    steps.push(PathStep::Turn(TurnID { parent, src, dst }));
                    proof {
                        assert(steps@ =~= want.subrange(0, 2 * (m + 1) as int));
                    }
                    m += 1;
                }
                steps.push(PathStep::Lane(end_lane));
                proof {
                    assert(steps@ =~= want);
                }
                Some(Path { steps, end_dist: req.end.dist_along(), cost: weight })
            },
        }
    }

    /// Rebuilds the graph from the edited network and contracts it in the current node
    /// order, then puts the new hierarchy in place of the old one. The lanes do not change.
    pub fn apply_edits(&mut self, map: &Network)
        requires
            old(self).wf(),
            map.wf(),
            map.lanes@.len() == old(self).num_lanes(),
            build_fits(map, old(self).mode()),
        ensures
            final(self).wf(),
            final(self).weights() == graph_of(map, old(self).mode()),
            final(self).real_weights() == real_graph(map, old(self).mode()),
            final(self).order() == old(self).order(),
            final(self).num_nodes() == old(self).num_nodes(),
            final(self).num_lanes() == old(self).num_lanes(),
            final(self).mode() == old(self).mode(),
    {
        let (input_graph, _, placeholder) = build_input_graph(map, &self.nodes, self.constraints);
        self.rebuild(map, &input_graph, placeholder);
    }

    /// `apply_edits`, or no change and `false` when the edited graph's weights leave no room
    /// for the sums of building and searching its hierarchy.
    pub fn try_apply_edits(&mut self, map: &Network) -> (r: bool)
        requires
            old(self).wf(),
            map.wf(),
            map.lanes@.len() == old(self).num_lanes(),
        ensures
            r == build_fits(map, old(self).mode()),
            final(self).wf(),
            r ==> final(self).weights() == graph_of(map, old(self).mode()),
            r ==> final(self).real_weights() == real_graph(map, old(self).mode()),
            !r ==> final(self).weights() == old(self).weights(),
            !r ==> final(self).real_weights() == old(self).real_weights(),
            final(self).order() == old(self).order(),
            final(self).num_nodes() == old(self).num_nodes(),
            final(self).num_lanes() == old(self).num_lanes(),
            final(self).mode() == old(self).mode(),
    {
        let (input_graph, max_weight, placeholder) = build_input_graph(
            map,
            &self.nodes,
            self.constraints,
        );
        let n = if map.lanes.len() >= 2 {
            map.lanes.len()
        } else {
            0
        };
        proof {
            lemma_fit_from_max(input_weights(input_graph), max_weight, n);
        }
        if !sums_fit(max_weight, n) {
            return false;
        }
        self.rebuild(map, &input_graph, placeholder);
        true
    }

    fn rebuild(&mut self, map: &Network, input_graph: &InputGraph, placeholder: bool)
        requires
            old(self).wf(),
            map.wf(),
            map.lanes@.len() == old(self).num_lanes(),
            input_frozen(*input_graph),
            input_weights(*input_graph) == graph_of(map, old(self).mode()),
            input_num_nodes(*input_graph) == graph_num_nodes(map),
            placeholder == needs_placeholder(map, old(self).mode()),
            build_fits(map, old(self).mode()),
        ensures
            final(self).wf(),
            final(self).weights() == graph_of(map, old(self).mode()),
            final(self).real_weights() == real_graph(map, old(self).mode()),
            final(self).order() == old(self).order(),
            final(self).num_nodes() == old(self).num_nodes(),
            final(self).num_lanes() == old(self).num_lanes(),
            final(self).mode() == old(self).mode(),
    {
        let order = self.graph.get_node_ordering();
        proof {
            lemma_graph_keys(map, self.constraints);
        }
        self.graph = contract(input_graph, Some(order));
        self.placeholder = placeholder;
        self.weights = Ghost(graph_of(map, self.constraints));
        proof {
            let turn_edges = real_graph(map, self.constraints);
            if placeholder {
                let pk = placeholder_key(map);
                assert(!turn_edges.contains_key(pk)) by {
                    if turn_edges.contains_key(pk) {
                        assert(touches(turn_edges, pk.0));
                    }
                }
                assert(graph_of(map, self.constraints).remove(pk) =~= turn_edges);
            }
        }
    }
}

proof fn lemma_graph_keys(map: &Network, c: PathConstraints)
    requires
        map.wf(),
    ensures
        keys_below(graph_of(map, c), map.lanes@.len()),
{
    let n = map.lanes@.len() as int;
    assert forall|k: (usize, usize)| #[trigger] graph_of(map, c).contains_key(k) implies (k.0 as int)
        < n && (k.1 as int) < n by {
        if crate::graph::has_edge_within(map, c, k, n, 0) {
            let jj = choose|jj: int|
                0 <= jj < crate::graph::turns_seen(map, k.0 as int, n, 0)
                    && #[trigger] crate::graph::is_edge_turn(map, c, k.0 as int, jj)
                    && crate::graph::dst_of(map, k.0 as int, jj) == k.1;
            assert(map.turns@[k.0 as int]@[jj].id.dst.0 < n);
        }
    }
}

proof fn lemma_walk_nodes_below(w: Weights, n: nat, p: Seq<usize>, s: usize, t: usize)
    requires
        keys_below(w, n),
        connects(w, p, s, t),
        (s as int) < n,
    ensures
        forall|i: int| 0 <= i < p.len() ==> (#[trigger] p[i] as int) < n,
{
    assert forall|i: int| 0 <= i < p.len() implies (#[trigger] p[i] as int) < n by {
        if i > 0 {
            let j = i - 1;
            assert(w.contains_key((p[j], p[j + 1])));
        }
    }
}

/// The turn edges are edges of the hierarchy's graph, with the same weights; without a
/// placeholder they are all of them.
proof fn lemma_real_within(pf: &VehiclePathfinder)
    requires
        pf.wf(),
    ensures
        keys_below(pf.real_weights(), pf.num_lanes()),
        forall|k: (usize, usize)| #[trigger]
            pf.real_weights().contains_key(k) ==> pf.weights().contains_key(k)
                && pf.weights()[k] == pf.real_weights()[k],
        pf.placeholder ==> forall|k: (usize, usize)| #[trigger]
            pf.weights().contains_key(k) ==> k.1 != (pf.num_lanes() - 1) as usize,
        pf.placeholder ==> forall|k: (usize, usize)| #[trigger]
            pf.weights().contains_key(k) && !pf.real_weights().contains_key(k) ==> k.0 == (
            pf.num_lanes() - 1) as usize,
        !pf.placeholder ==> pf.real_weights() == pf.weights(),
{
    if pf.placeholder {
        let n = pf.num_lanes();
        let v = (n - 1) as usize;
        let w = pf.weights();
        let pk = (v, 0usize);
        assert forall|k: (usize, usize)| #[trigger] w.contains_key(k) implies k.1 != v by {
            if k != pk && k.1 == v {
                assert(w.remove(pk).contains_key(k));
                assert(touches(w.remove(pk), v));
            }
        }
    }
}

proof fn lemma_walk_weight_eq(w1: Weights, w2: Weights, p: Seq<usize>)
    requires
        forall|i: int|
            0 <= i < p.len() - 1 ==> #[trigger] w1[(p[i], p[i + 1])] == w2[(p[i], p[i + 1])],
    ensures
        walk_weight(w1, p) == walk_weight(w2, p),
    decreases p.len(),
{
    if p.len() > 1 {
        let q = p.subrange(1, p.len() as int);
        assert forall|i: int| 0 <= i < q.len() - 1 implies #[trigger] w1[(q[i], q[i + 1])] == w2[(
        q[i], q[i + 1])] by {
            assert(q[i] == p[i + 1] && q[i + 1] == p[i + 2]);
            let j = i + 1;
            assert(w1[(p[j], p[j + 1])] == w2[(p[j], p[j + 1])]);
        }
        lemma_walk_weight_eq(w1, w2, q);
        let z: int = 0;
        assert(w1[(p[z], p[z + 1])] == w2[(p[z], p[z + 1])]);
    }
}

/// A walk over edges that all lie in a larger graph with the same weights is a walk there,
/// of the same weight.
proof fn lemma_walk_in_larger(small: Weights, big: Weights, p: Seq<usize>)
    requires
        is_walk(small, p),
        forall|k: (usize, usize)| #[trigger]
            small.contains_key(k) ==> big.contains_key(k) && big[k] == small[k],
    ensures
        is_walk(big, p),
        walk_weight(big, p) == walk_weight(small, p),
{
    assert forall|i: int| 0 <= i < p.len() - 1 implies #[trigger] big.contains_key((p[i], p[i + 1])) by {
        assert(small.contains_key((p[i], p[i + 1])));
    }
    assert forall|i: int| 0 <= i < p.len() - 1 implies #[trigger] big[(p[i], p[i + 1])] == small[(
    p[i], p[i + 1])] by {
        assert(small.contains_key((p[i], p[i + 1])));
    }
    lemma_walk_weight_eq(big, small, p);
}

/// When no edge enters `v` and the only edges outside `small` leave `v`, a walk from a node
/// other than `v` never reaches `v`, so it uses edges of `small` alone; a shortest walk in
/// `big` is then a shortest walk in `small`.
proof fn lemma_shortest_avoids(
    big: Weights,
    small: Weights,
    v: usize,
    s: usize,
    t: usize,
    p: Seq<usize>,
    c: usize,
)
    requires
        forall|k: (usize, usize)| #[trigger]
            small.contains_key(k) ==> big.contains_key(k) && big[k] == small[k],
        forall|k: (usize, usize)| #[trigger] big.contains_key(k) ==> k.1 != v,
        forall|k: (usize, usize)| #[trigger]
            big.contains_key(k) && !small.contains_key(k) ==> k.0 == v,
        s != v,
        is_shortest(big, s, t, p, c),
    ensures
        is_shortest(small, s, t, p, c),
{
    assert forall|i: int| 0 <= i < p.len() implies #[trigger] p[i] != v by {
        if i > 0 {
            let j = i - 1;
            assert(big.contains_key((p[j], p[j + 1])));
        }
    }
    assert forall|i: int| 0 <= i < p.len() - 1 implies #[trigger] small.contains_key((p[i], p[i + 1])) by {
        assert(big.contains_key((p[i], p[i + 1])));
        assert(p[i] != v);
    }
    assert forall|i: int| 0 <= i < p.len() - 1 implies #[trigger] big[(p[i], p[i + 1])] == small[(
    p[i], p[i + 1])] by {
        assert(small.contains_key((p[i], p[i + 1])));
    }
    lemma_walk_weight_eq(big, small, p);
    assert forall|q: Seq<usize>| #[trigger] connects(small, q, s, t) implies c <= walk_weight(
        small,
        q,
    ) by {
        lemma_walk_in_larger(small, big, q);
        assert(connects(big, q, s, t));
    }
}

/// A returned route's steps alternate Lane and Turn, start on the request's start lane, end on
/// its end lane, and each turn joins the lanes on either side of it.
pub proof fn lemma_path_valid(w: Weights, map: &Network, s: usize, t: usize, r: Option<Path>)
    requires
        answers(w, map, s, t, r),
        r is Some,
    ensures
        steps_valid(r->Some_0.steps@, LaneID(s), LaneID(t)),
{
    let p = r->Some_0;
    let nodes = choose|nodes: Seq<usize>|
        is_shortest(w, s, t, nodes, p.cost) && #[trigger] steps_for(map, nodes) == p.steps@;
    let steps = p.steps@;
    assert(steps == steps_for(map, nodes));
    assert(nodes.len() >= 1);
    assert(steps[0] == PathStep::Lane(LaneID(nodes[0])));
    assert(steps[steps.len() - 1] == PathStep::Lane(LaneID(nodes[nodes.len() - 1])));
    assert forall|i: int| 0 <= i < steps.len() && i % 2 == 0 implies #[trigger] steps[i] is Lane by {}
    assert forall|i: int|
        0 <= i < steps.len() && i % 2 == 1 implies match #[trigger] steps[i] {
        PathStep::Turn(tid) => steps[i - 1] == PathStep::Lane(tid.src) && steps[i + 1]
            == PathStep::Lane(tid.dst),
        PathStep::Lane(_) => false,
    } by {
        assert((i - 1) / 2 == i / 2);
        assert((i + 1) / 2 == i / 2 + 1);
        assert((i - 1) % 2 == 0);
        assert((i + 1) % 2 == 0);
    }
}

/// Queries on equal graphs agree on whether a route exists and on its cost. Building twice
/// from the same network and mode gives equal graphs (see `VehiclePathfinder::new`), with a
/// fresh node order or a reused one alike.
pub proof fn lemma_same_graph_same_cost(
    a: &VehiclePathfinder,
    b: &VehiclePathfinder,
    map: &Network,
    c: PathConstraints,
    s: usize,
    t: usize,
    ra: Option<Path>,
    rb: Option<Path>,
)
    requires
        a.real_weights() == real_graph(map, c),
        b.real_weights() == real_graph(map, c),
        answers(a.real_weights(), map, s, t, ra),
        answers(b.real_weights(), map, s, t, rb),
    ensures
        a.real_weights() == b.real_weights(),
        ra is None <==> rb is None,
        ra is Some ==> ra->Some_0.cost == rb->Some_0.cost,
{
    if ra is Some {
        let pa = ra->Some_0;
        let pb = rb->Some_0;
        let na = choose|nodes: Seq<usize>|
            is_shortest(a.real_weights(), s, t, nodes, pa.cost) && #[trigger] steps_for(map, nodes)
                == pa.steps@;
        let nb = choose|nodes: Seq<usize>|
            is_shortest(b.real_weights(), s, t, nodes, pb.cost) && #[trigger] steps_for(map, nodes)
                == pb.steps@;
        crate::route::lemma_shortest_unique(a.real_weights(), s, t, na, pa.cost, nb, pb.cost);
    }
}

/// An edit that changes no turn edge or weight of the mode's graph changes no query's outcome:
/// the same requests find routes, at the same costs.
pub proof fn lemma_unchanged_edit(
    before: &Network,
    after: &Network,
    c: PathConstraints,
    s: usize,
    t: usize,
    r1: Option<Path>,
    r2: Option<Path>,
)
    requires
        real_graph(before, c) == real_graph(after, c),
        answers(real_graph(before, c), before, s, t, r1),
        answers(real_graph(after, c), after, s, t, r2),
    ensures
        r1 is None <==> r2 is None,
        r1 is Some ==> r1->Some_0.cost == r2->Some_0.cost,
{
    if r1 is Some {
        let p1 = r1->Some_0;
        let p2 = r2->Some_0;
        let w = real_graph(before, c);
        let n1 = choose|nodes: Seq<usize>|
            is_shortest(w, s, t, nodes, p1.cost) && #[trigger] steps_for(before, nodes) == p1.steps@;
        let n2 = choose|nodes: Seq<usize>|
            is_shortest(w, s, t, nodes, p2.cost) && #[trigger] steps_for(after, nodes) == p2.steps@;
        crate::route::lemma_shortest_unique(w, s, t, n1, p1.cost, n2, p2.cost);
    }
}

/// Pathfinders built over one network have one node per lane, whatever their modes, once the
/// network has two lanes to join.
pub proof fn lemma_node_count(a: &VehiclePathfinder, b: &VehiclePathfinder, map: &Network)
    requires
        map.wf(),
        map.lanes@.len() >= 2,
        a.num_nodes() == graph_num_nodes(map),
        b.num_nodes() == graph_num_nodes(map),
    ensures
        a.num_nodes() == map.lanes@.len(),
        b.num_nodes() == map.lanes@.len(),
{
}

/// Every Turn step of a returned route is a turn of the network that the mode may take, and
/// no step comes from the placeholder edge.
pub proof fn lemma_path_turns_exist(
    map: &Network,
    c: PathConstraints,
    s: usize,
    t: usize,
    r: Option<Path>,
)
    requires
        map.wf(),
        answers(real_graph(map, c), map, s, t, r),
        r is Some,
    ensures
        forall|i: int|
            0 <= i < r->Some_0.steps@.len() && i % 2 == 1 ==> match #[trigger] r->Some_0.steps@[i] {
                PathStep::Turn(tid) => map.has_turn(tid),
                PathStep::Lane(_) => false,
            },
{
    let p = r->Some_0;
    let w = real_graph(map, c);
    let nodes = choose|nodes: Seq<usize>|
        is_shortest(w, s, t, nodes, p.cost) && #[trigger] steps_for(map, nodes) == p.steps@;
    assert(p.steps@ == steps_for(map, nodes));
    assert forall|i: int| 0 <= i < p.steps@.len() && i % 2 == 1 implies match #[trigger] p.steps@[i] {
        PathStep::Turn(tid) => map.has_turn(tid),
        PathStep::Lane(_) => false,
    } by {
        let m = i / 2;
        assert(0 <= m < nodes.len() - 1);
        let k = (nodes[m], nodes[m + 1]);
        assert(w.contains_key(k));
        crate::graph::lemma_edges_are_usable_turns(map, c, k);
        let j = choose|j: int|
            0 <= j < map.turns@[k.0 as int]@.len() && #[trigger] crate::graph::dst_of(
                map,
                k.0 as int,
                j,
            ) == k.1 && map.lanes@[k.0 as int].lane_type.usable_by(c)
                && map.lanes@[k.1 as int].lane_type.usable_by(c) && w[k] == crate::graph::turn_weight(
                map,
                c,
                k.0 as int,
                j,
            );
        let tid = TurnID {
            parent: map.lanes@[k.0 as int].dst_i,
            src: LaneID(k.0),
            dst: LaneID(k.1),
        };
        assert(p.steps@[i] == PathStep::Turn(tid));
        assert(map.turns@[k.0 as int]@[j].id.src.0 == k.0);
        assert(map.turns@[k.0 as int]@[j].id == tid);
        assert(map.turns@[tid.src.0 as int]@[j].id == tid);
        assert(map.has_turn(tid));
    }
}

} // verus!
