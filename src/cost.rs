//! Edge weights for each travel mode, in whole units: seconds for cars and buses, meters
//! for bikes. All arithmetic is exact on integers; only the final rounding drops precision.
use crate::network::{Lane, LaneType, Network, PathConstraints, Turn};
use vstd::arithmetic::div_mod::{lemma_div_by_multiple, lemma_div_is_ordered};
use vstd::prelude::*;

verus! {

/// No edge weight exceeds this bound.
pub const MAX_EDGE_WEIGHT: u64 = 17_179_869_184;

/// `n / d` rounded to the nearest integer, halves rounded up.
pub open spec fn round_div(n: int, d: int) -> int {
    (2 * n + d) / (2 * d)
}

/// The lane-type penalty of a mode, in tenths: bikes prefer bike lanes, then bus lanes, then
/// general lanes; buses prefer bus lanes.
pub open spec fn penalty_tenths(c: PathConstraints, lt: LaneType) -> int {
    match c {
        PathConstraints::Bike => if lt == LaneType::Biking {
            10
        } else if lt == LaneType::Bus {
            11
        } else {
            15
        },
        PathConstraints::Bus => if lt == LaneType::Bus {
            10
        } else {
            11
        },
        _ => 10,
    }
}

/// The weight of traveling along `lane` and then through `turn`.
/// Car: lane length over its road's speed limit plus turn length over the speed limit of the
/// destination lane's road, rounded. Bike: penalty times the summed length in meters, rounded.
/// Bus: penalty times the car time, rounded. Lengths are in cm and speeds in cm/s.
pub open spec fn spec_cost(lane: Lane, turn: Turn, c: PathConstraints, map: &Network) -> int {
    let a = lane.length as int;
    let b = turn.length as int;
    let s1 = map.roads@[lane.parent.0 as int].speed_limit as int;
    let s2 = map.speed_of(turn.id.dst) as int;
    let p = penalty_tenths(c, lane.lane_type);
    match c {
        PathConstraints::Car => round_div(a * s2 + b * s1, s1 * s2),
        PathConstraints::Bike => round_div(p * (a + b), 1000),
        PathConstraints::Bus => round_div(p * (a * s2 + b * s1), 10 * s1 * s2),
        PathConstraints::Pedestrian => 0,
    }
}

/// An integer result as a `usize`; values past the largest `usize` saturate.
pub open spec fn clamp_usize(x: int) -> usize {
    if x > usize::MAX {
        usize::MAX
    } else {
        x as usize
    }
}

fn to_usize(x: u128) -> (r: usize)
    ensures
        r == clamp_usize(x as int),
{
    if x > usize::MAX as u128 {
        usize::MAX
    } else {
        x as usize
    }
}

proof fn lemma_div_at_most(x: int, m: int, d: int)
    requires
        d > 0,
        m >= 0,
        0 <= x <= m * d,
    ensures
        x / d <= m,
{
    lemma_div_is_ordered(x, m * d, d);
    lemma_div_by_multiple(m, d);
}

proof fn lemma_time_sum(a: int, b: int, s1: int, s2: int)
    requires
        0 <= a < 0x1_0000_0000,
        0 <= b < 0x1_0000_0000,
        1 <= s1 < 0x1_0000_0000,
        1 <= s2 < 0x1_0000_0000,
    ensures
        0 <= a * s2 + b * s1 <= (a + b) * (s1 * s2),
        a * s2 + b * s1 < 0x2_0000_0000_0000_0000,
        1 <= s1 * s2 < 0x1_0000_0000_0000_0000,
{
    assert(a * s2 <= a * (s1 * s2)) by (nonlinear_arith)
        requires
            0 <= a,
            1 <= s1,
            1 <= s2,
    ;
    assert(b * s1 <= b * (s1 * s2)) by (nonlinear_arith)
        requires
            0 <= b,
            1 <= s1,
            1 <= s2,
    ;
    assert(0 <= a * s2 < 0x1_0000_0000_0000_0000) by (nonlinear_arith)
        requires
            0 <= a < 0x1_0000_0000,
            1 <= s2 < 0x1_0000_0000,
    ;
    assert(0 <= b * s1 < 0x1_0000_0000_0000_0000) by (nonlinear_arith)
        requires
            0 <= b < 0x1_0000_0000,
            1 <= s1 < 0x1_0000_0000,
    ;
    assert(1 <= s1 * s2 < 0x1_0000_0000_0000_0000) by (nonlinear_arith)
        requires
            1 <= s1 < 0x1_0000_0000,
            1 <= s2 < 0x1_0000_0000,
    ;
    assert((a + b) * (s1 * s2) == a * (s1 * s2) + b * (s1 * s2)) by (nonlinear_arith);
}

/// The weight of the edge from `lane` through `turn` for the given mode; see `spec_cost`.
/// Pedestrians are routed elsewhere. A bike or bus weight is asked only of a lane that mode
/// may use; a car weight may be asked of any lane.
pub fn cost(lane: &Lane, turn: &Turn, constraints: PathConstraints, map: &Network) -> (r: usize)
    requires
        map.wf(),
        (lane.parent.0 as int) < map.roads@.len(),
        (turn.id.dst.0 as int) < map.lanes@.len(),
        constraints != PathConstraints::Pedestrian,
        constraints != PathConstraints::Car ==> lane.lane_type.usable_by(constraints),
    ensures
        r == clamp_usize(spec_cost(*lane, *turn, constraints, map)),
        r <= MAX_EDGE_WEIGHT,
{
    let a = lane.length as u128;
    let b = turn.length as u128;
    let s1 = map.get_r(lane.parent).speed_limit as u128;
    let s2 = map.get_parent(turn.id.dst).speed_limit as u128;
    let m: u128 = MAX_EDGE_WEIGHT as u128;
    proof {
        lemma_time_sum(a as int, b as int, s1 as int, s2 as int);
    }
    match constraints {
        PathConstraints::Car => {
            let n = a * s2 + b * s1;
            let d = s1 * s2;
            proof {
                assert(2 * n + d <= m * (2 * d)) by (nonlinear_arith)
                    requires
                        n <= (a + b) * d,
                        a + b < 0x2_0000_0000,
                        m == 0x4_0000_0000,
                        d >= 1,
                ;
                lemma_div_at_most((2 * n + d) as int, m as int, (2 * d) as int);
            }
            to_usize((2 * n + d) / (2 * d))
        },
        PathConstraints::Bike => {
            let p: u128 = if lane.is_biking() {
                10
            } else if lane.is_bus() {
                11
            } else {
                15
            };
            let n = p * (a + b);
            proof {
                lemma_div_at_most((2 * n + 1000) as int, m as int, 2000);
            }
            to_usize((2 * n + 1000) / 2000)
        },
        PathConstraints::Bus => {
            let p: u128 = if lane.is_bus() {
                10
            } else {
                11
            };
            let n = a * s2 + b * s1;
            let d = s1 * s2;
            proof {
                assert(p * n <= 11 * n) by (nonlinear_arith)
                    requires
                        p <= 11,
                        n >= 0,
                ;
                assert(2 * (p * n) + 10 * d <= m * (20 * d)) by (nonlinear_arith)
                    requires
                        p * n <= 11 * n,
                        n <= (a + b) * d,
                        a + b < 0x2_0000_0000,
                        m == 0x4_0000_0000,
                        d >= 1,
                ;
                lemma_div_at_most((2 * (p * n) + 10 * d) as int, m as int, (20 * d) as int);
                assert(10 * s1 * s2 == 10 * d) by (nonlinear_arith)
                    requires
                        d == s1 * s2,
                ;
            }
            to_usize((2 * (p * n) + 10 * d) / (2 * (10 * d)))
        },
        PathConstraints::Pedestrian => 0,
    }
}

} // verus!
