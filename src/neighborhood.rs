//! Identifiers used when editing modal filters inside a neighborhood.
use crate::network::{IntersectionID, RoadID};
use vstd::prelude::*;

verus! {

/// The panels that the neighborhood editor switches between.
#[derive(Clone, Copy, Debug, PartialEq, Eq, Structural)]
pub enum Tab {
    Connectivity,
    RatRuns,
}

/// Something inside a neighborhood that a modal filter can be placed on.
#[derive(Clone, Copy, Debug, PartialEq, Eq, Structural, PartialOrd, Ord, Hash)]
pub enum FilterableObj {
    InteriorRoad(RoadID),
    InteriorIntersection(IntersectionID),
}

} // verus!
