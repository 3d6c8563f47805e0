//! Core value types of the exploration simulation: tile kinds, robot roles
//! and behavioural modes, and the side length of the square world grid.
use vstd::prelude::*;

verus! {

/// Side length of the square world grid.
pub const MAP_SIZE: usize = 20;

/// Kind of terrain or resource held by one grid cell.
#[derive(Clone, Copy, Debug, PartialEq, Eq, Structural)]
pub enum TileType {
    Empty,
    Obstacle,
    Energy,
    Mineral,
    Scientific,
}

/// Role of a robot, fixed when it is built.
#[derive(Clone, Copy, Debug, PartialEq, Eq, Structural)]
pub enum RobotType {
    Explorer,
    EnergyCollector,
    MineralCollector,
    ScientificCollector,
}

/// State of a robot's behaviour state machine.
#[derive(Clone, Copy, Debug, PartialEq, Eq, Structural)]
pub enum RobotMode {
    Exploring,
    Collecting,
    ReturnToStation,
    Idle,
}

/// A harvestable tile: energy, mineral or scientific.
pub open spec fn is_resource(t: TileType) -> bool {
    t == TileType::Energy || t == TileType::Mineral || t == TileType::Scientific
}

} // verus!
