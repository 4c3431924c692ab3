//! A diagnostic pass over a finished bike route: it points out lanes where a parallel bike
//! lane would have cost less. It never changes a route and is not part of a query.
use crate::cost::{clamp_usize, cost, spec_cost};
use crate::network::{closest_lane, turn_from, LaneID, LaneType, Network, PathConstraints};
use crate::pathfinder::{Path, PathStep};
use vstd::prelude::*;

verus! {

/// A route lane whose nearest bike lane on the same road would have cost less to ride.
#[derive(Clone, Copy, Debug, PartialEq, Eq, Structural)]
pub struct BikeLaneFlag {
    pub used: LaneID,
    pub used_cost: usize,
    pub parallel: LaneID,
    pub parallel_cost: usize,
}

/// The flag for the turn at step `i` and the lane after it, if there is one: the lane is not
/// a bike lane but a bike may ride it, the turn exists, the lane's road has a bike lane, and
/// the nearest such lane's bike cost after the turn is strictly below the route lane's.
pub open spec fn audit_at(map: &Network, steps: Seq<PathStep>, i: int) -> Option<BikeLaneFlag> {
    if 0 <= i && i + 1 < steps.len() {
        match (steps[i], steps[i + 1]) {
            (PathStep::Turn(t), PathStep::Lane(l)) => {
                if (l.0 as int) < map.lanes@.len() && (t.src.0 as int) < map.lanes@.len()
                    && map.lane(l).lane_type != LaneType::Biking && map.lane(l).lane_type.usable_by(
                    PathConstraints::Bike,
                ) {
                    match (turn_from(map, t, 0), closest_lane(map, l, LaneType::Biking)) {
                        (Some(turn), Some(p)) => {
                            let c1 = clamp_usize(
                                spec_cost(map.lane(l), turn, PathConstraints::Bike, map),
                            );
                            let c2 = clamp_usize(
                                spec_cost(map.lane(p), turn, PathConstraints::Bike, map),
                            );
                            if c2 < c1 {
                                Some(
                                    BikeLaneFlag {
                                        used: l,
                                        used_cost: c1,
                                        parallel: p,
                                        parallel_cost: c2,
                                    },
                                )
                            } else {
                                None
                            }
                        },
                        _ => None,
                    }
                } else {
                    None
                }
            },
            _ => None,
        }
    } else {
        None
    }
}

/// The flags for the steps before position `k`, in step order.
pub open spec fn audit_upto(map: &Network, steps: Seq<PathStep>, k: int) -> Seq<BikeLaneFlag>
    decreases k,
{
    if k <= 0 {
        Seq::empty()
    } else {
        let prev = audit_upto(map, steps, k - 1);
        match audit_at(map, steps, k - 1) {
            Some(f) => prev.push(f),
            None => prev,
        }
    }
}

/// Every flag of the route (see `audit_at`), in step order.
pub fn check_bike_route(path: &Path, map: &Network) -> (r: Vec<BikeLaneFlag>)
    requires
        map.wf(),
    ensures
        r@ == audit_upto(map, path.steps@, path.steps@.len() as int),
{
    let steps = path.get_steps();
    let n = map.all_lanes().len();
    let mut flags: Vec<BikeLaneFlag> = Vec::new();
    let mut i: usize = 0;
    while i < steps.len()
        invariant
            map.wf(),
            n == map.lanes@.len(),
            steps@ == path.steps@,
            i <= steps@.len(),
            flags@ == audit_upto(map, steps@, i as int),
        decreases steps@.len() - i,
    {
        if i + 1 < steps.len() {
            if let (PathStep::Turn(t), PathStep::Lane(l)) = (steps[i], steps[i + 1]) {
                if l.0 < n && t.src.0 < n {
                    let lane = map.get_l(l);
                    if !lane.is_biking() && PathConstraints::Bike.can_use(lane) {
                        if let (Some(turn), Some(p)) = (
                            map.get_t(t),
                            map.find_closest_lane(l, LaneType::Biking),
                        ) {
                            proof {
                                assert(map.turns@[t.src.0 as int]@.contains(turn)) by {
                                    lemma_turn_from_in(map, t, 0);
                                }
                                let j = choose|j: int|
                                    0 <= j < map.turns@[t.src.0 as int]@.len()
                                        && map.turns@[t.src.0 as int]@[j] == turn;
                                assert(map.turns@[t.src.0 as int]@[j] == turn);
                                crate::network::lemma_closest_is_nearest(map, l, LaneType::Biking);
                            }
                            let c1 = cost(lane, &turn, PathConstraints::Bike, map);
                            let c2 = cost(map.get_l(p), &turn, PathConstraints::Bike, map);
                            if c2 < c1 {
                                flags.push(
                                    BikeLaneFlag { used: l, used_cost: c1, parallel: p, parallel_cost: c2 },
                                );
                            }
                        }
                    }
                }
            }
        }
        i += 1;
    }
    flags
}

proof fn lemma_turn_from_in(map: &Network, tid: crate::network::TurnID, from: int)
    requires
        map.wf(),
        (tid.src.0 as int) < map.lanes@.len(),
    ensures
        turn_from(map, tid, from) matches Some(t) ==> map.turns@[tid.src.0 as int]@.contains(t),
    decreases map.turns@[tid.src.0 as int]@.len() - from,
{
    let ts = map.turns@[tid.src.0 as int]@;
    if 0 <= from < ts.len() {
        if ts[from].id.dst != tid.dst {
            lemma_turn_from_in(map, tid, from + 1);
        }
    }
}

} // verus!
