//! Vehicle pathfinding over a lane network: integer edge costs per travel mode, a graph
//! with one node per lane, contraction-hierarchy queries, and rebuilds after edits.

pub mod audit;
pub mod cost;
pub mod graph;
pub mod hierarchy;
pub mod neighborhood;
pub mod network;
pub mod node_map;
pub mod pathfinder;
pub mod route;

pub use audit::{check_bike_route, BikeLaneFlag};
pub use cost::cost;
pub use graph::make_input_graph;
pub use neighborhood::{FilterableObj, Tab};
pub use network::{
    IntersectionID, Lane, LaneID, LaneType, Network, PathConstraints, Road, RoadID, Turn, TurnID,
};
pub use node_map::NodeMap;
pub use pathfinder::{CalculatorPool, Path, PathRequest, PathStep, Position, VehiclePathfinder};
