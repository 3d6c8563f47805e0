//! A fleet of autonomous robots explores and harvests a generated grid
//! world, coordinated by a hub that merges their discoveries.
use vstd::prelude::*;

pub mod types;
pub mod grid;
pub mod map;
pub mod memory;
pub mod robot;
pub mod station;
pub mod pathfinding;
pub mod network;
pub mod simulation;
pub mod display;
mod rng;

verus! {

} // verus!
