use map_model::{
    check_bike_route, cost, BikeLaneFlag, CalculatorPool, NodeMap, IntersectionID, Lane, LaneID, LaneType, Network, PathConstraints,
    PathRequest, PathStep, Position, Road, RoadID, Turn, TurnID, VehiclePathfinder,
};

fn lane(id: usize, road: usize, lane_type: LaneType, length: u32) -> Lane {
    Lane {
        id: LaneID(id),
        parent: RoadID(road),
        dst_i: IntersectionID(id),
        lane_type,
        length,
        index: 0,
    }
}

fn turn(src: usize, dst: usize, length: u32) -> Turn {
    Turn {
        id: TurnID {
            parent: IntersectionID(src),
            src: LaneID(src),
            dst: LaneID(dst),
        },
        length,
    }
}

/// Lanes, the speed limit of each road, and the turns as (src, dst, length).
fn network(lanes: Vec<Lane>, speeds: Vec<u32>, turns: &[(usize, usize, u32)]) -> Network {
    let roads = speeds
        .iter()
        .enumerate()
        .map(|(i, s)| Road {
            id: RoadID(i),
            speed_limit: *s,
        })
        .collect();
    let mut per_lane: Vec<Vec<Turn>> = lanes.iter().map(|_| Vec::new()).collect();
    for (src, dst, len) in turns {
        per_lane[*src].push(turn(*src, *dst, *len));
    }
    Network {
        lanes,
        roads,
        turns: per_lane,
    }
}

fn request(from: usize, to: usize, end_dist: u32, c: PathConstraints) -> PathRequest {
    PathRequest {
        start: Position::new(LaneID(from), 0),
        end: Position::new(LaneID(to), end_dist),
        constraints: c,
    }
}

/// Three driving lanes A -> B -> C of 100 m, turns of 5 m, 13 m/s everywhere.
fn three_lanes() -> Network {
    network(
        vec![
            lane(0, 0, LaneType::Driving, 10_000),
            lane(1, 0, LaneType::Driving, 10_000),
            lane(2, 0, LaneType::Driving, 10_000),
        ],
        vec![1300],
        &[(0, 1, 500), (1, 2, 500)],
    )
}

/// From lane 0, a 50 m driving lane (1) and a parallel 60 m bike lane (2) both reach lane 3.
fn bike_choice() -> Network {
    network(
        vec![
            lane(0, 0, LaneType::Biking, 1_000),
            lane(1, 1, LaneType::Driving, 5_000),
            lane(2, 1, LaneType::Biking, 6_000),
            lane(3, 2, LaneType::Biking, 1_000),
        ],
        vec![1000, 1000, 1000],
        &[(0, 1, 0), (0, 2, 0), (1, 3, 0), (2, 3, 0)],
    )
}

#[test]
fn car_cost_per_hop_rounds_time() {
    let map = three_lanes();
    let w = cost(&map.lanes[0], &map.turns[0][0], PathConstraints::Car, &map);
    assert_eq!(w, 8);
}

#[test]
fn car_route_over_three_lanes_costs_sixteen() {
    let map = three_lanes();
    let pf = VehiclePathfinder::new(&map, PathConstraints::Car, None);
    let mut pool = CalculatorPool::new();
    let path = pf
        .pathfind(&request(0, 2, 300, PathConstraints::Car), &map, &mut pool)
        .unwrap();
    assert_eq!(path.get_cost(), 16);
    assert_eq!(path.end_dist, 300);
    assert_eq!(
        path.get_steps(),
        &vec![
            PathStep::Lane(LaneID(0)),
            PathStep::Turn(TurnID {
                parent: IntersectionID(0),
                src: LaneID(0),
                dst: LaneID(1)
            }),
            PathStep::Lane(LaneID(1)),
            PathStep::Turn(TurnID {
                parent: IntersectionID(1),
                src: LaneID(1),
                dst: LaneID(2)
            }),
            PathStep::Lane(LaneID(2)),
        ]
    );
}

#[test]
fn bike_prefers_dedicated_lane() {
    let map = bike_choice();
    let general = cost(&map.lanes[1], &map.turns[1][0], PathConstraints::Bike, &map);
    let dedicated = cost(&map.lanes[2], &map.turns[2][0], PathConstraints::Bike, &map);
    assert_eq!(general, 75);
    assert_eq!(dedicated, 60);
    let pf = VehiclePathfinder::new(&map, PathConstraints::Bike, None);
    let mut pool = CalculatorPool::new();
    let path = pf
        .pathfind(&request(0, 3, 0, PathConstraints::Bike), &map, &mut pool)
        .unwrap();
    assert_eq!(path.get_steps()[2], PathStep::Lane(LaneID(2)));
    assert_eq!(path.get_cost(), 10 + 60);
}

#[test]
fn disconnected_lanes_give_no_path() {
    let map = network(
        vec![
            lane(0, 0, LaneType::Driving, 10_000),
            lane(1, 0, LaneType::Driving, 10_000),
        ],
        vec![1300],
        &[],
    );
    let pf = VehiclePathfinder::new(&map, PathConstraints::Car, None);
    let mut pool = CalculatorPool::new();
    assert!(pf
        .pathfind(&request(0, 1, 0, PathConstraints::Car), &map, &mut pool)
        .is_none());
}

#[test]
fn bike_penalty_on_bus_lane() {
    let map = network(
        vec![
            lane(0, 0, LaneType::Bus, 10_000),
            lane(1, 0, LaneType::Bus, 10_000),
        ],
        vec![1300],
        &[(0, 1, 0)],
    );
    assert_eq!(cost(&map.lanes[0], &map.turns[0][0], PathConstraints::Bike, &map), 110);
    assert_eq!(cost(&map.lanes[0], &map.turns[0][0], PathConstraints::Bus, &map), 8);
}

#[test]
fn bus_penalty_on_general_lane() {
    let map = three_lanes();
    // 1.1 * 105 / 13 = 8.88...
    assert_eq!(cost(&map.lanes[0], &map.turns[0][0], PathConstraints::Bus, &map), 9);
}

#[test]
fn car_cost_uses_each_road_speed() {
    // 100 m at 10 m/s, then a 20 m turn at 4 m/s on the next road: 10 s + 5 s.
    let map = network(
        vec![
            lane(0, 0, LaneType::Driving, 10_000),
            lane(1, 1, LaneType::Driving, 10_000),
        ],
        vec![1000, 400],
        &[(0, 1, 2_000)],
    );
    assert_eq!(cost(&map.lanes[0], &map.turns[0][0], PathConstraints::Car, &map), 15);
}

#[test]
fn cost_rounds_half_up() {
    // 25 m at 10 m/s is 2.5 s.
    let map = network(
        vec![
            lane(0, 0, LaneType::Driving, 2_500),
            lane(1, 0, LaneType::Driving, 2_500),
        ],
        vec![1000],
        &[(0, 1, 0)],
    );
    assert_eq!(cost(&map.lanes[0], &map.turns[0][0], PathConstraints::Car, &map), 3);
}

#[test]
fn sidewalk_lane_gets_no_edges() {
    let map = network(
        vec![
            lane(0, 0, LaneType::Driving, 10_000),
            lane(1, 0, LaneType::Sidewalk, 10_000),
            lane(2, 0, LaneType::Driving, 10_000),
        ],
        vec![1300],
        &[(0, 1, 500), (1, 2, 500), (0, 2, 500)],
    );
    let pf = VehiclePathfinder::new(&map, PathConstraints::Car, None);
    let mut pool = CalculatorPool::new();
    assert!(pf
        .pathfind(&request(0, 1, 0, PathConstraints::Car), &map, &mut pool)
        .is_none());
    let path = pf
        .pathfind(&request(0, 2, 0, PathConstraints::Car), &map, &mut pool)
        .unwrap();
    assert_eq!(path.get_steps().len(), 3);
}

#[test]
fn node_count_equals_lane_count_for_every_mode() {
    let map = bike_choice();
    for c in [PathConstraints::Car, PathConstraints::Bike, PathConstraints::Bus] {
        let pf = VehiclePathfinder::new(&map, c, None);
        assert_eq!(pf.node_count(), 4);
    }
}

#[test]
fn building_twice_gives_equal_costs() {
    let map = three_lanes();
    let a = VehiclePathfinder::new(&map, PathConstraints::Car, None);
    let b = VehiclePathfinder::new(&map, PathConstraints::Car, None);
    let mut pool = CalculatorPool::new();
    let req = request(0, 2, 0, PathConstraints::Car);
    let pa = a.pathfind(&req, &map, &mut pool).unwrap();
    let pb = b.pathfind(&req, &map, &mut pool).unwrap();
    assert_eq!(pa.get_cost(), pb.get_cost());
    assert_eq!(pa.get_steps(), pb.get_steps());
}

#[test]
fn reused_order_gives_equal_costs() {
    let map = bike_choice();
    let car = VehiclePathfinder::new(&map, PathConstraints::Car, None);
    let fresh = VehiclePathfinder::new(&map, PathConstraints::Bike, None);
    let seeded = VehiclePathfinder::new(&map, PathConstraints::Bike, Some(&car));
    let mut pool = CalculatorPool::new();
    let req = request(0, 3, 0, PathConstraints::Bike);
    let a = fresh.pathfind(&req, &map, &mut pool).unwrap();
    let b = seeded.pathfind(&req, &map, &mut pool).unwrap();
    assert_eq!(a.get_cost(), b.get_cost());
    assert_eq!(b.get_cost(), 70);
}

#[test]
fn no_op_edit_keeps_results() {
    let map = three_lanes();
    let mut pf = VehiclePathfinder::new(&map, PathConstraints::Car, None);
    let mut pool = CalculatorPool::new();
    let req = request(0, 2, 0, PathConstraints::Car);
    let before = pf.pathfind(&req, &map, &mut pool).unwrap();
    pf.apply_edits(&map);
    let after = pf.pathfind(&req, &map, &mut pool).unwrap();
    assert_eq!(before.get_cost(), after.get_cost());
    assert_eq!(before.get_steps(), after.get_steps());
}

#[test]
fn edit_changes_costs_and_connectivity() {
    let map = three_lanes();
    let mut pf = VehiclePathfinder::new(&map, PathConstraints::Car, None);
    let mut pool = CalculatorPool::new();
    let req = request(0, 2, 0, PathConstraints::Car);
    // Slower road: 105 m at 7 m/s is 15 s per hop.
    let mut slower = three_lanes();
    slower.roads[0].speed_limit = 700;
    pf.apply_edits(&slower);
    assert_eq!(pf.pathfind(&req, &slower, &mut pool).unwrap().get_cost(), 30);
    // Closing the middle lane to cars cuts the route.
    let mut closed = three_lanes();
    closed.lanes[1].lane_type = LaneType::Biking;
    pf.apply_edits(&closed);
    assert_eq!(pf.node_count(), 3);
    assert!(pf.pathfind(&req, &closed, &mut pool).is_none());
}

#[test]
fn same_start_and_end_is_one_lane() {
    let map = three_lanes();
    let pf = VehiclePathfinder::new(&map, PathConstraints::Car, None);
    let mut pool = CalculatorPool::new();
    let path = pf
        .pathfind(&request(1, 1, 50, PathConstraints::Car), &map, &mut pool)
        .unwrap();
    assert_eq!(path.get_steps(), &vec![PathStep::Lane(LaneID(1))]);
    assert_eq!(path.get_cost(), 0);
}

#[test]
fn pool_keeps_workspace_for_reuse() {
    let map = three_lanes();
    let pf = VehiclePathfinder::new(&map, PathConstraints::Car, None);
    let mut pool = CalculatorPool::new();
    assert_eq!(pool.idle(), 0);
    let req = request(0, 2, 0, PathConstraints::Car);
    pf.pathfind(&req, &map, &mut pool).unwrap();
    assert_eq!(pool.idle(), 1);
    pf.pathfind(&req, &map, &mut pool).unwrap();
    assert_eq!(pool.idle(), 1);
}

#[test]
fn path_steps_alternate_and_join() {
    let map = bike_choice();
    let pf = VehiclePathfinder::new(&map, PathConstraints::Bike, None);
    let mut pool = CalculatorPool::new();
    let path = pf
        .pathfind(&request(0, 3, 0, PathConstraints::Bike), &map, &mut pool)
        .unwrap();
    let steps = path.get_steps();
    assert_eq!(steps.len() % 2, 1);
    assert_eq!(steps[0], PathStep::Lane(LaneID(0)));
    assert_eq!(steps[steps.len() - 1], PathStep::Lane(LaneID(3)));
    for i in (1..steps.len()).step_by(2) {
        match steps[i] {
            PathStep::Turn(t) => {
                assert_eq!(steps[i - 1], PathStep::Lane(t.src));
                assert_eq!(steps[i + 1], PathStep::Lane(t.dst));
            }
            PathStep::Lane(_) => panic!("expected a turn at {}", i),
        }
    }
}

#[test]
fn audit_flags_cheaper_parallel_bike_lane() {
    // The route rides driving lanes 1 and 2 (50 m each); lane 3, a 20 m bike lane, shares
    // lane 2's road. Lane 1's road has no bike lane.
    let map = network(
        vec![
            lane(0, 0, LaneType::Biking, 1_000),
            lane(1, 1, LaneType::Driving, 5_000),
            lane(2, 2, LaneType::Driving, 5_000),
            lane(3, 2, LaneType::Biking, 2_000),
        ],
        vec![1000, 1000, 1000],
        &[(0, 1, 0), (1, 2, 0)],
    );
    let pf = VehiclePathfinder::new(&map, PathConstraints::Bike, None);
    let mut pool = CalculatorPool::new();
    let path = pf
        .pathfind(&request(0, 2, 0, PathConstraints::Bike), &map, &mut pool)
        .unwrap();
    let flags = check_bike_route(&path, &map);
    assert_eq!(
        flags,
        vec![BikeLaneFlag {
            used: LaneID(2),
            used_cost: 75,
            parallel: LaneID(3),
            parallel_cost: 20
        }]
    );
}

#[test]
fn audit_ignores_routes_on_bike_lanes() {
    let map = bike_choice();
    let pf = VehiclePathfinder::new(&map, PathConstraints::Bike, None);
    let mut pool = CalculatorPool::new();
    let path = pf
        .pathfind(&request(0, 3, 0, PathConstraints::Bike), &map, &mut pool)
        .unwrap();
    assert!(check_bike_route(&path, &map).is_empty());
}

#[test]
fn find_closest_lane_on_same_road() {
    let map = bike_choice();
    assert_eq!(map.find_closest_lane(LaneID(1), LaneType::Biking), Some(LaneID(2)));
    assert_eq!(map.find_closest_lane(LaneID(0), LaneType::Driving), None);
}

#[test]
fn find_closest_lane_prefers_nearest_position() {
    let mut map = network(
        vec![
            lane(0, 0, LaneType::Biking, 1_000),
            lane(1, 0, LaneType::Driving, 1_000),
            lane(2, 0, LaneType::Biking, 1_000),
        ],
        vec![1000],
        &[],
    );
    map.lanes[0].index = 0;
    map.lanes[1].index = 3;
    map.lanes[2].index = 4;
    assert_eq!(map.find_closest_lane(LaneID(1), LaneType::Biking), Some(LaneID(2)));
    map.lanes[2].index = 6;
    assert_eq!(map.find_closest_lane(LaneID(1), LaneType::Biking), Some(LaneID(0)));
}

#[test]
fn audit_compares_with_nearest_bike_lane() {
    // Lane 2 (driving, 50 m, position 1) has two bike lanes on its road: lane 3 (20 m,
    // position 5) and lane 4 (40 m, position 2). The nearest is lane 4.
    let mut map = network(
        vec![
            lane(0, 0, LaneType::Biking, 1_000),
            lane(1, 1, LaneType::Driving, 5_000),
            lane(2, 2, LaneType::Driving, 5_000),
            lane(3, 2, LaneType::Biking, 2_000),
            lane(4, 2, LaneType::Biking, 4_000),
        ],
        vec![1000, 1000, 1000],
        &[(0, 1, 0), (1, 2, 0)],
    );
    map.lanes[2].index = 1;
    map.lanes[3].index = 5;
    map.lanes[4].index = 2;
    let pf = VehiclePathfinder::new(&map, PathConstraints::Bike, None);
    let mut pool = CalculatorPool::new();
    let path = pf
        .pathfind(&request(0, 2, 0, PathConstraints::Bike), &map, &mut pool)
        .unwrap();
    assert_eq!(
        check_bike_route(&path, &map),
        vec![BikeLaneFlag {
            used: LaneID(2),
            used_cost: 75,
            parallel: LaneID(4),
            parallel_cost: 40
        }]
    );
}

#[test]
fn get_t_finds_turn_by_id() {
    let map = three_lanes();
    let found = map
        .get_t(TurnID {
            parent: IntersectionID(0),
            src: LaneID(0),
            dst: LaneID(1),
        })
        .unwrap();
    assert_eq!(found.length, 500);
    assert!(map
        .get_t(TurnID {
            parent: IntersectionID(0),
            src: LaneID(0),
            dst: LaneID(2),
        })
        .is_none());
}

#[test]
fn node_map_assigns_dense_indices() {
    let mut nodes = NodeMap::new();
    assert_eq!(nodes.get_or_insert(LaneID(7)), 0);
    assert_eq!(nodes.get_or_insert(LaneID(3)), 1);
    assert_eq!(nodes.get_or_insert(LaneID(7)), 0);
    assert_eq!(nodes.get(LaneID(3)), 1);
    assert_eq!(nodes.translate(&vec![1, 0]), vec![LaneID(3), LaneID(7)]);
}

#[test]
fn validity_check_accepts_and_rejects() {
    assert!(three_lanes().is_valid());
    assert!(bike_choice().is_valid());
    let mut zero_speed = three_lanes();
    zero_speed.roads[0].speed_limit = 0;
    assert!(!zero_speed.is_valid());
    let mut twice = three_lanes();
    twice.turns[0].push(turn(0, 1, 700));
    assert!(!twice.is_valid());
    let mut dangling = three_lanes();
    dangling.turns[1].push(turn(1, 9, 700));
    assert!(!dangling.is_valid());
    let mut misnumbered = three_lanes();
    misnumbered.lanes[2].id = LaneID(5);
    assert!(!misnumbered.is_valid());
}

#[test]
fn placeholder_edge_is_never_a_route() {
    // Only the turn 1 -> 2 exists. It touches the last lane, so no placeholder is added, and
    // lane 0 stays unreachable.
    let map = network(
        vec![
            lane(0, 0, LaneType::Driving, 10_000),
            lane(1, 0, LaneType::Driving, 10_000),
            lane(2, 0, LaneType::Driving, 10_000),
        ],
        vec![1300],
        &[(1, 2, 500)],
    );
    let pf = VehiclePathfinder::new(&map, PathConstraints::Car, None);
    let mut pool = CalculatorPool::new();
    assert!(pf
        .pathfind(&request(1, 0, 0, PathConstraints::Car), &map, &mut pool)
        .is_none());
    assert!(pf
        .pathfind(&request(2, 0, 0, PathConstraints::Car), &map, &mut pool)
        .is_none());
    assert_eq!(pf.node_count(), 3);
}

#[test]
fn isolated_last_lane_gets_no_route_out() {
    // No edge touches lane 2, so the builder adds the placeholder 2 -> 0; a request from lane 2
    // still finds nothing, and lane 0 -> 1 is unaffected.
    let map = network(
        vec![
            lane(0, 0, LaneType::Driving, 10_000),
            lane(1, 0, LaneType::Driving, 10_000),
            lane(2, 0, LaneType::Driving, 10_000),
        ],
        vec![1300],
        &[(0, 1, 500)],
    );
    let pf = VehiclePathfinder::new(&map, PathConstraints::Car, None);
    let mut pool = CalculatorPool::new();
    assert_eq!(pf.node_count(), 3);
    assert!(pf
        .pathfind(&request(2, 0, 0, PathConstraints::Car), &map, &mut pool)
        .is_none());
    assert!(pf
        .pathfind(&request(2, 1, 0, PathConstraints::Car), &map, &mut pool)
        .is_none());
    assert_eq!(
        pf.pathfind(&request(0, 1, 0, PathConstraints::Car), &map, &mut pool)
            .unwrap()
            .get_cost(),
        8
    );
}

#[test]
fn seed_order_is_reused() {
    let map = bike_choice();
    let car = VehiclePathfinder::new(&map, PathConstraints::Car, None);
    let bike = VehiclePathfinder::new(&map, PathConstraints::Bike, Some(&car));
    assert_eq!(bike.node_order(), car.node_order());
    let mut edited = bike_choice();
    edited.lanes[1].length = 9_000;
    let mut bike2 = VehiclePathfinder::new(&map, PathConstraints::Bike, None);
    let before = bike2.node_order();
    bike2.apply_edits(&edited);
    assert_eq!(bike2.node_order(), before);
}

#[test]
fn try_new_and_try_apply_edits_succeed_on_small_weights() {
    let map = three_lanes();
    let mut pf = VehiclePathfinder::try_new(&map, PathConstraints::Car, None).unwrap();
    assert!(pf.try_apply_edits(&map));
    let mut pool = CalculatorPool::new();
    assert_eq!(
        pf.pathfind(&request(0, 2, 0, PathConstraints::Car), &map, &mut pool)
            .unwrap()
            .get_cost(),
        16
    );
}

#[test]
fn car_cost_on_any_lane_type() {
    let map = network(
        vec![
            lane(0, 0, LaneType::Bus, 10_000),
            lane(1, 0, LaneType::Biking, 10_000),
        ],
        vec![1300],
        &[(0, 1, 500)],
    );
    assert_eq!(cost(&map.lanes[0], &map.turns[0][0], PathConstraints::Car, &map), 8);
    assert_eq!(cost(&map.lanes[0], &map.turns[0][0], PathConstraints::Bus, &map), 8);
    assert_eq!(cost(&map.lanes[1], &map.turns[0][0], PathConstraints::Car, &map), 8);
}
