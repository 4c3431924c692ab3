//! The lane network that pathfinding reads: lanes, the roads they belong to, and the turns
//! that leave each lane.
use vstd::prelude::*;

verus! {

/// Networks of more lanes than this are not supported: with edge weights below
/// `cost::MAX_EDGE_WEIGHT`, the weight of any route then fits a machine word.
pub const MAX_LANES: usize = 536_870_912;

#[derive(Clone, Copy, Debug, PartialEq, Eq, Structural, PartialOrd, Ord, Hash)]
pub struct LaneID(pub usize);

#[derive(Clone, Copy, Debug, PartialEq, Eq, Structural, PartialOrd, Ord, Hash)]
pub struct RoadID(pub usize);

#[derive(Clone, Copy, Debug, PartialEq, Eq, Structural, PartialOrd, Ord, Hash)]
pub struct IntersectionID(pub usize);

#[derive(Clone, Copy, Debug, PartialEq, Eq, Structural, Hash)]
pub enum LaneType {
    Driving,
    Biking,
    Bus,
    Sidewalk,
}

/// A directional road segment. Lengths are in centimeters; `index` is the lane's position
/// across its road, counted from one side.
#[derive(Clone, Copy, Debug, PartialEq, Eq, Structural)]
pub struct Lane {
    pub id: LaneID,
    pub parent: RoadID,
    pub dst_i: IntersectionID,
    pub lane_type: LaneType,
    pub length: u32,
    pub index: usize,
}

/// A road; its speed limit is in centimeters per second.
#[derive(Clone, Copy, Debug, PartialEq, Eq, Structural)]
pub struct Road {
    pub id: RoadID,
    pub speed_limit: u32,
}

#[derive(Clone, Copy, Debug, PartialEq, Eq, Structural, PartialOrd, Ord, Hash)]
pub struct TurnID {
    pub parent: IntersectionID,
    pub src: LaneID,
    pub dst: LaneID,
}

/// A movement through an intersection from one lane to another; length in centimeters.
#[derive(Clone, Copy, Debug, PartialEq, Eq, Structural)]
pub struct Turn {
    pub id: TurnID,
    pub length: u32,
}

/// What kind of agent a route is for.
#[derive(Clone, Copy, Debug, PartialEq, Eq, Structural, Hash)]
pub enum PathConstraints {
    Pedestrian,
    Car,
    Bike,
    Bus,
}

impl LaneType {
    pub open spec fn usable_by(self, c: PathConstraints) -> bool {
        match c {
            PathConstraints::Pedestrian => self == LaneType::Sidewalk,
            PathConstraints::Car => self == LaneType::Driving,
            PathConstraints::Bike => self == LaneType::Driving || self == LaneType::Biking
                || self == LaneType::Bus,
            PathConstraints::Bus => self == LaneType::Driving || self == LaneType::Bus,
        }
    }
}

impl PathConstraints {
    /// May an agent of this kind travel along the lane?
    pub fn can_use(self, lane: &Lane) -> (r: bool)
        ensures
            r == lane.lane_type.usable_by(self),
    {
        match self {
            PathConstraints::Pedestrian => lane.lane_type == LaneType::Sidewalk,
            PathConstraints::Car => lane.lane_type == LaneType::Driving,
            PathConstraints::Bike => lane.lane_type == LaneType::Driving || lane.lane_type
                == LaneType::Biking || lane.lane_type == LaneType::Bus,
            PathConstraints::Bus => lane.lane_type == LaneType::Driving || lane.lane_type
                == LaneType::Bus,
        }
    }
}

impl Lane {
    pub fn is_sidewalk(&self) -> (r: bool)
        ensures
            r == (self.lane_type == LaneType::Sidewalk),
    {
        self.lane_type == LaneType::Sidewalk
    }

    pub fn is_biking(&self) -> (r: bool)
        ensures
            r == (self.lane_type == LaneType::Biking),
    {
        self.lane_type == LaneType::Biking
    }

    pub fn is_bus(&self) -> (r: bool)
        ensures
            r == (self.lane_type == LaneType::Bus),
    {
        self.lane_type == LaneType::Bus
    }

    pub fn is_driving(&self) -> (r: bool)
        ensures
            r == (self.lane_type == LaneType::Driving),
    {
        self.lane_type == LaneType::Driving
    }
}

/// A snapshot of the network. `turns[i]` holds the turns that leave lane `i`.
pub struct Network {
    pub lanes: Vec<Lane>,
    pub roads: Vec<Road>,
    pub turns: Vec<Vec<Turn>>,
}

impl Network {
    /// Lane and road IDs are their positions, every reference points at an existing item,
    /// speed limits are positive, and a lane has at most one turn to each other lane.
    pub open spec fn wf(&self) -> bool {
        &&& self.lanes@.len() <= MAX_LANES
        &&& self.turns@.len() == self.lanes@.len()
        &&& forall|i: int| 0 <= i < self.lanes@.len() ==> self.lanes@[i].id.0 == i
        &&& forall|i: int|
            0 <= i < self.lanes@.len() ==> (self.lanes@[i].parent.0 as int) < self.roads@.len()
        &&& forall|r: int| 0 <= r < self.roads@.len() ==> self.roads@[r].id.0 == r
        &&& forall|r: int| 0 <= r < self.roads@.len() ==> self.roads@[r].speed_limit > 0
        &&& forall|i: int, j: int|
            0 <= i < self.turns@.len() && 0 <= j < self.turns@[i]@.len() ==> {
                let t = #[trigger] self.turns@[i]@[j];
                &&& t.id.src.0 == i
                &&& (t.id.dst.0 as int) < self.lanes@.len()
                &&& t.id.parent == self.lanes@[i].dst_i
            }
        &&& forall|i: int, j: int, k: int|
            0 <= i < self.turns@.len() && 0 <= j < self.turns@[i]@.len() && 0 <= k
                < self.turns@[i]@.len() && j != k ==> #[trigger] self.turns@[i]@[j].id.dst
                != #[trigger] self.turns@[i]@[k].id.dst
    }

    /// Whether the snapshot meets `wf`, which every query and build relies on.
    pub fn is_valid(&self) -> (r: bool)
        ensures
            r == self.wf(),
    {
        let n = self.lanes.len();
        if n > MAX_LANES || self.turns.len() != n {
            return false;
        }
        let mut i: usize = 0;
        while i < n
            invariant
                n == self.lanes@.len(),
                i <= n,
                forall|a: int| 0 <= a < i ==> #[trigger] self.lanes@[a].id.0 == a,
                forall|a: int|
                    0 <= a < i ==> (#[trigger] self.lanes@[a].parent.0 as int) < self.roads@.len(),
            decreases n - i,
        {
            if self.lanes[i].id.0 != i || self.lanes[i].parent.0 >= self.roads.len() {
                return false;
            }
            i += 1;
        }
        let mut r: usize = 0;
        while r < self.roads.len()
            invariant
                r <= self.roads@.len(),
                forall|a: int| 0 <= a < r ==> #[trigger] self.roads@[a].id.0 == a,
                forall|a: int| 0 <= a < r ==> #[trigger] self.roads@[a].speed_limit > 0,
            decreases self.roads@.len() - r,
        {
            if self.roads[r].id.0 != r || self.roads[r].speed_limit == 0 {
                return false;
            }
            r += 1;
        }
        let mut i: usize = 0;
        while i < n
            invariant
                n == self.lanes@.len(),
                n == self.turns@.len(),
                i <= n,
                forall|a: int, j: int|
                    0 <= a < i && 0 <= j < self.turns@[a]@.len() ==> {
                        let t = #[trigger] self.turns@[a]@[j];
                        &&& t.id.src.0 == a
                        &&& (t.id.dst.0 as int) < n
                        &&& t.id.parent == self.lanes@[a].dst_i
                    },
                forall|a: int, j: int, k: int|
                    0 <= a < i && 0 <= j < self.turns@[a]@.len() && 0 <= k < self.turns@[a]@.len()
                        && j != k ==> #[trigger] self.turns@[a]@[j].id.dst
                        != #[trigger] self.turns@[a]@[k].id.dst,
            decreases n - i,
        {
            let ts = &self.turns[i];
            let mut j: usize = 0;
            while j < ts.len()
                invariant
                    n == self.lanes@.len(),
                    n == self.turns@.len(),
                    i < n,
                    ts@ == self.turns@[i as int]@,
                    j <= ts@.len(),
                    forall|b: int|
                        0 <= b < j ==> {
                            let t = #[trigger] ts@[b];
                            &&& t.id.src.0 == i
                            &&& (t.id.dst.0 as int) < n
                            &&& t.id.parent == self.lanes@[i as int].dst_i
                        },
                    forall|b: int, k: int|
                        0 <= b < j && 0 <= k < j && b != k ==> #[trigger] ts@[b].id.dst
                            != #[trigger] ts@[k].id.dst,
                decreases ts@.len() - j,
            {
                let t = ts[j];
                proof {
                    assert(self.turns@[i as int]@[j as int] == t);
                }
                if t.id.src.0 != i || t.id.dst.0 >= n || t.id.parent != self.lanes[i].dst_i {
                    return false;
                }
                let mut k: usize = 0;
                while k < j
                    invariant
                        n == self.turns@.len(),
                        i < n,
                        ts@ == self.turns@[i as int]@,
                        j < ts@.len(),
                        k <= j,
                        t == ts@[j as int],
                        forall|b: int| 0 <= b < k ==> #[trigger] ts@[b].id.dst != t.id.dst,
                    decreases j - k,
                {
                    if ts[k].id.dst == t.id.dst {
                        proof {
                            assert(self.turns@[i as int]@[k as int].id.dst == self.turns@[i as int]@[j as int].id.dst);
                        }
                        return false;
                    }
                    k += 1;
                }
                j += 1;
            }
            i += 1;
        }
        true
    }

    /// The network has a turn with this ID.
    pub open spec fn has_turn(&self, tid: TurnID) -> bool {
        &&& (tid.src.0 as int) < self.turns@.len()
        &&& exists|j: int|
            0 <= j < self.turns@[tid.src.0 as int]@.len() && #[trigger] self.turns@[tid.src.0
                as int]@[j].id == tid
    }

    pub open spec fn lane(&self, l: LaneID) -> Lane {
        self.lanes@[l.0 as int]
    }

    /// The speed limit of the road that owns the lane.
    pub open spec fn speed_of(&self, l: LaneID) -> u32 {
        self.roads@[self.lane(l).parent.0 as int].speed_limit
    }

    pub fn all_lanes(&self) -> (r: &Vec<Lane>)
        ensures
            r@ == self.lanes@,
    {
        &self.lanes
    }

    pub fn get_l(&self, l: LaneID) -> (r: &Lane)
        requires
            (l.0 as int) < self.lanes@.len(),
        ensures
            *r == self.lane(l),
    {
        &self.lanes[l.0]
    }

    pub fn get_r(&self, r: RoadID) -> (res: &Road)
        requires
            (r.0 as int) < self.roads@.len(),
        ensures
            *res == self.roads@[r.0 as int],
    {
        &self.roads[r.0]
    }

    /// The road that owns the lane.
    pub fn get_parent(&self, l: LaneID) -> (r: &Road)
        requires
            self.wf(),
            (l.0 as int) < self.lanes@.len(),
        ensures
            *r == self.roads@[self.lane(l).parent.0 as int],
    {
        let p = self.lanes[l.0].parent;
        &self.roads[p.0]
    }

    /// The turns that leave the lane.
    pub fn turns_from(&self, l: LaneID) -> (r: &Vec<Turn>)
        requires
            (l.0 as int) < self.turns@.len(),
        ensures
            r@ == self.turns@[l.0 as int]@,
    {
        &self.turns[l.0]
    }
}

/// Lane `p` is another lane of `l`'s road, of type `lt`.
pub open spec fn is_beside(map: &Network, l: LaneID, lt: LaneType, p: int) -> bool {
    &&& 0 <= p < map.lanes@.len()
    &&& map.lanes@[p].parent == map.lane(l).parent
    &&& map.lanes@[p].lane_type == lt
    &&& p != l.0
}

/// How many positions across the road lane `p` is from lane `l`.
pub open spec fn gap(map: &Network, l: LaneID, p: int) -> int {
    let a = map.lanes@[p].index as int;
    let b = map.lane(l).index as int;
    if a >= b {
        a - b
    } else {
        b - a
    }
}

/// Scanning the lanes from position `from` with the nearest one so far in `best`: the lane
/// beside `l` of type `lt` at the least gap, the lowest ID among equals.
pub open spec fn closest_from(
    map: &Network,
    l: LaneID,
    lt: LaneType,
    from: int,
    best: Option<LaneID>,
) -> Option<LaneID>
    decreases map.lanes@.len() - from,
{
    if from < 0 || from >= map.lanes@.len() {
        best
    } else if is_beside(map, l, lt, from) && (best is None || gap(map, l, from) < gap(
        map,
        l,
        best->Some_0.0 as int,
    )) {
        closest_from(map, l, lt, from + 1, Some(LaneID(from as usize)))
    } else {
        closest_from(map, l, lt, from + 1, best)
    }
}

/// The lane of type `lt` on `l`'s road nearest to `l`.
pub open spec fn closest_lane(map: &Network, l: LaneID, lt: LaneType) -> Option<LaneID> {
    closest_from(map, l, lt, 0, None)
}

/// `closest_lane` finds a lane beside `l` of type `lt` at the least gap, or none when there
/// is no such lane.
pub proof fn lemma_closest_is_nearest(map: &Network, l: LaneID, lt: LaneType)
    requires
        map.wf(),
    ensures
        closest_lane(map, l, lt) matches Some(p) ==> is_beside(map, l, lt, p.0 as int) && forall|
            q: int,
        | #[trigger] is_beside(map, l, lt, q) ==> gap(map, l, p.0 as int) <= gap(map, l, q),
        closest_lane(map, l, lt) is None ==> forall|q: int| !#[trigger] is_beside(map, l, lt, q),
{
    lemma_closest_from(map, l, lt, 0, None);
}

proof fn lemma_closest_from(map: &Network, l: LaneID, lt: LaneType, from: int, best: Option<LaneID>)
    requires
        map.wf(),
        0 <= from <= map.lanes@.len(),
        best matches Some(b) ==> is_beside(map, l, lt, b.0 as int) && forall|q: int|
            0 <= q < from && #[trigger] is_beside(map, l, lt, q) ==> gap(map, l, b.0 as int) <= gap(
                map,
                l,
                q,
            ),
        best is None ==> forall|q: int| 0 <= q < from ==> !#[trigger] is_beside(map, l, lt, q),
    ensures
        closest_from(map, l, lt, from, best) matches Some(p) ==> is_beside(map, l, lt, p.0 as int)
            && forall|q: int| #[trigger]
            is_beside(map, l, lt, q) ==> gap(map, l, p.0 as int) <= gap(map, l, q),
        closest_from(map, l, lt, from, best) is None ==> forall|q: int|
            !#[trigger] is_beside(map, l, lt, q),
    decreases map.lanes@.len() - from,
{
    if from < map.lanes@.len() {
        if is_beside(map, l, lt, from) && (best is None || gap(map, l, from) < gap(
            map,
            l,
            best->Some_0.0 as int,
        )) {
            let nb = Some(LaneID(from as usize));
            assert(nb->Some_0.0 as int == from);
            assert forall|q: int|
                0 <= q < from + 1 && #[trigger] is_beside(map, l, lt, q) implies gap(map, l, from)
                <= gap(map, l, q) by {
                if q < from && best is Some {
                    assert(gap(map, l, best->Some_0.0 as int) <= gap(map, l, q));
                }
            }
            lemma_closest_from(map, l, lt, from + 1, nb);
        } else {
            lemma_closest_from(map, l, lt, from + 1, best);
        }
    }
}

/// The first turn at or after position `from` among those leaving `tid.src`, that enters
/// `tid.dst`.
pub open spec fn turn_from(map: &Network, tid: TurnID, from: int) -> Option<Turn>
    decreases map.turns@[tid.src.0 as int]@.len() - from,
{
    let ts = map.turns@[tid.src.0 as int]@;
    if from < 0 || from >= ts.len() {
        None
    } else if ts[from].id.dst == tid.dst {
        Some(ts[from])
    } else {
        turn_from(map, tid, from + 1)
    }
}

impl Network {
    /// The lane of type `lt` on `l`'s road nearest to `l` across the road (the lowest ID
    /// among equally near ones), if there is one.
    pub fn find_closest_lane(&self, l: LaneID, lt: LaneType) -> (r: Option<LaneID>)
        requires
            (l.0 as int) < self.lanes@.len(),
        ensures
            r == closest_lane(self, l, lt),
    {
        let me = self.lanes[l.0];
        let mut best: Option<LaneID> = None;
        let mut best_gap: usize = 0;
        let mut i: usize = 0;
        while i < self.lanes.len()
            invariant
                (l.0 as int) < self.lanes@.len(),
                me == self.lane(l),
                i <= self.lanes@.len(),
                closest_lane(self, l, lt) == closest_from(self, l, lt, i as int, best),
                best matches Some(b) ==> (b.0 as int) < self.lanes@.len() && best_gap == gap(
                    self,
                    l,
                    b.0 as int,
                ),
            decreases self.lanes@.len() - i,
        {
            let x = self.lanes[i];
            if x.parent == me.parent && x.lane_type == lt && i != l.0 {
                let g = if x.index >= me.index {
                    x.index - me.index
                } else {
                    me.index - x.index
                };
                if best.is_none() || g < best_gap {
                    best = Some(LaneID(i));
                    best_gap = g;
                }
            }
            i += 1;
        }
        best
    }

    /// The turn with the given ID, if the network has it.
    pub fn get_t(&self, tid: TurnID) -> (r: Option<Turn>)
        requires
            self.wf(),
            (tid.src.0 as int) < self.lanes@.len(),
        ensures
            r == turn_from(self, tid, 0),
    {
        let ts = &self.turns[tid.src.0];
        let mut j: usize = 0;
        while j < ts.len()
            invariant
                self.wf(),
                (tid.src.0 as int) < self.lanes@.len(),
                ts@ == self.turns@[tid.src.0 as int]@,
                j <= ts@.len(),
                turn_from(self, tid, 0) == turn_from(self, tid, j as int),
            decreases ts@.len() - j,
        {
            if ts[j].id.dst == tid.dst {
                return Some(ts[j]);
            }
            j += 1;
        }
        None
    }
}

} // verus!
