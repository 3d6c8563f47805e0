//! The read-only snapshot of the world that the simulation hands, once per
//! tick, to renderers and transports. It holds copies only, never a
//! reference into the simulation.
use vstd::prelude::*;
use crate::types::{MAP_SIZE, TileType, RobotType, RobotMode};
use crate::grid::{Pos, in_bounds};
use crate::map::WorldMap;
use crate::memory::{grid_wf, cell, explored_count};
use crate::robot::Robot;
use crate::station::{Station, percent_of};

verus! {

/// The tile grid (`tiles[y][x]`) and the hub's coordinates.
pub struct MapData {
    pub tiles: Vec<Vec<TileType>>,
    pub station_x: usize,
    pub station_y: usize,
}

/// Summary of one robot; energies are in tenths of a unit and the
/// exploration share of its own memory in whole percent.
pub struct RobotData {
    pub id: usize,
    pub x: usize,
    pub y: usize,
    pub energy: u32,
    pub max_energy: u32,
    pub minerals: u32,
    pub scientific_data: u32,
    pub robot_type: RobotType,
    pub mode: RobotMode,
    pub exploration_percentage: u32,
}

/// The hub's metrics; the exploration share is in whole percent.
pub struct StationData {
    pub energy_reserves: u32,
    pub collected_minerals: u32,
    pub collected_scientific_data: u32,
    pub exploration_percentage: u32,
    pub conflict_count: usize,
    pub robot_count: usize,
    pub status_message: String,
    pub mission_complete: bool,
}

/// Which cells the hub knows as explored (`explored_tiles[y][x]`).
pub struct ExplorationData {
    pub explored_tiles: Vec<Vec<bool>>,
}

/// Everything a consumer is told about one tick.
pub struct SimulationState {
    pub map_data: MapData,
    pub robots_data: Vec<RobotData>,
    pub station_data: StationData,
    pub exploration_data: ExplorationData,
    pub iteration: u32,
}


/// `d` is a field-for-field copy of `map`.
pub open spec fn copies_map(d: MapData, map: &WorldMap) -> bool {
    &&& d.tiles@.len() == MAP_SIZE
    &&& forall|y: int| 0 <= y < MAP_SIZE ==> (#[trigger] d.tiles@[y])@.len() == MAP_SIZE
    &&& forall|p: Pos| in_bounds(p) ==> d.tiles@[p.1 as int]@[p.0 as int] == #[trigger] map.tile_at(p)
    &&& d.station_x == map.station_x
    &&& d.station_y == map.station_y
}

/// `d` summarises `robot`.
pub open spec fn summarizes_robot(d: RobotData, robot: Robot) -> bool {
    &&& d.id == robot.id
    &&& d.x == robot.x
    &&& d.y == robot.y
    &&& d.energy == robot.energy
    &&& d.max_energy == robot.max_energy
    &&& d.minerals == robot.minerals
    &&& d.scientific_data == robot.scientific_data
    &&& d.robot_type == robot.robot_type
    &&& d.mode == robot.mode
    &&& d.exploration_percentage as int == percent_of(explored_count(robot.memory@) as int)
}

/// `d` summarises `station` on `map`.
pub open spec fn summarizes_station(d: StationData, station: &Station, map: &WorldMap) -> bool {
    &&& d.energy_reserves == station.energy_reserves
    &&& d.collected_minerals == station.collected_minerals
    &&& d.collected_scientific_data == station.collected_scientific_data
    &&& d.exploration_percentage as int == station.percent()
    &&& d.conflict_count == station.conflict_count
    &&& d.robot_count == station.next_robot_id - 1
    &&& d.status_message@ == station.status_line()
    &&& d.mission_complete == station.mission_complete(map)
}

/// `d` holds the explored flags of the hub's canonical memory.
pub open spec fn copies_explored(d: ExplorationData, station: &Station) -> bool {
    &&& d.explored_tiles@.len() == MAP_SIZE
    &&& forall|y: int| 0 <= y < MAP_SIZE ==> (#[trigger] d.explored_tiles@[y])@.len() == MAP_SIZE
    &&& forall|p: Pos|
        in_bounds(p) ==> d.explored_tiles@[p.1 as int]@[p.0 as int] == (#[trigger] cell(
            station.global_memory@,
            p,
        )).explored
}

/// Copies the map.
pub fn create_map_data(map: &WorldMap) -> (r: MapData)
    requires
        map.wf(),
    ensures
        copies_map(r, map),
{
    let mut tiles: Vec<Vec<TileType>> = Vec::new();
    let mut y: usize = 0;
    while y < MAP_SIZE
        invariant
            map.wf(),
            y <= MAP_SIZE,
            tiles@.len() == y,
            forall|j: int| 0 <= j < y ==> (#[trigger] tiles@[j])@.len() == MAP_SIZE,
            forall|j: int, i: int|
                0 <= j < y && 0 <= i < MAP_SIZE ==> #[trigger] tiles@[j]@[i] == map.tiles@[j]@[i],
        decreases MAP_SIZE - y,
    {
        let mut row: Vec<TileType> = Vec::new();
        let mut x: usize = 0;
        while x < MAP_SIZE
            invariant
                map.wf(),
                y < MAP_SIZE,
                x <= MAP_SIZE,
                row@.len() == x,
                forall|i: int| 0 <= i < x ==> #[trigger] row@[i] == map.tiles@[y as int]@[i],
            decreases MAP_SIZE - x,
        {
            row.push(map.tiles[y][x]);
            x = x + 1;
        }
        tiles.push(row);
        y = y + 1;
    }
    MapData { tiles, station_x: map.station_x, station_y: map.station_y }
}

/// Summarises a robot.
pub fn create_robot_data(robot: &Robot) -> (r: RobotData)
    requires
        grid_wf(robot.memory@),
    ensures
        summarizes_robot(r, *robot),
{
    RobotData {
        id: robot.id,
        x: robot.x,
        y: robot.y,
        energy: robot.energy,
        max_energy: robot.max_energy,
        minerals: robot.minerals,
        scientific_data: robot.scientific_data,
        robot_type: robot.robot_type,
        mode: robot.mode,
        exploration_percentage: robot.get_exploration_percentage(),
    }
}

/// Summarises the hub; the robot count is the number of ids handed out.
pub fn create_station_data(station: &Station, map: &WorldMap) -> (r: StationData)
    requires
        station.wf(),
        map.wf(),
    ensures
        summarizes_station(r, station, map),
{
    StationData {
        energy_reserves: station.energy_reserves,
        collected_minerals: station.collected_minerals,
        collected_scientific_data: station.collected_scientific_data,
        exploration_percentage: station.get_exploration_percentage(),
        conflict_count: station.conflict_count,
        robot_count: station.next_robot_id - 1,
        status_message: station.get_status(),
        mission_complete: station.is_mission_complete(map),
    }
}

/// The explored flags of the hub's canonical memory, without timestamps or
/// discoverers.
pub fn create_exploration_data(station: &Station) -> (r: ExplorationData)
    requires
        station.wf(),
    ensures
        copies_explored(r, station),
{
    let mut explored_tiles: Vec<Vec<bool>> = Vec::new();
    let mut y: usize = 0;
    while y < MAP_SIZE
        invariant
            station.wf(),
            y <= MAP_SIZE,
            explored_tiles@.len() == y,
            forall|j: int| 0 <= j < y ==> (#[trigger] explored_tiles@[j])@.len() == MAP_SIZE,
            forall|j: int, i: int|
                0 <= j < y && 0 <= i < MAP_SIZE ==> #[trigger] explored_tiles@[j]@[i]
                    == station.global_memory@[j]@[i].explored,
        decreases MAP_SIZE - y,
    {
        let mut row: Vec<bool> = Vec::new();
        let mut x: usize = 0;
        while x < MAP_SIZE
            invariant
                station.wf(),
                y < MAP_SIZE,
                x <= MAP_SIZE,
                row@.len() == x,
                forall|i: int|
                    0 <= i < x ==> #[trigger] row@[i] == station.global_memory@[y as int]@[i].explored,
            decreases MAP_SIZE - x,
        {
            row.push(station.global_memory[y][x].explored);
            x = x + 1;
        }
        explored_tiles.push(row);
        y = y + 1;
    }
    ExplorationData { explored_tiles }
}

/// Assembles the snapshot of one tick.
pub fn create_simulation_state(
    map: &WorldMap,
    station: &Station,
    robots: &Vec<Robot>,
    iteration: u32,
) -> (r: SimulationState)
    requires
        map.wf(),
        station.wf(),
        forall|i: int| 0 <= i < robots@.len() ==> grid_wf((#[trigger] robots@[i]).memory@),
    ensures
        r.iteration == iteration,
        copies_map(r.map_data, map),
        r.robots_data@.len() == robots@.len(),
        forall|i: int|
            0 <= i < robots@.len() ==> summarizes_robot(#[trigger] r.robots_data@[i], robots@[i]),
        summarizes_station(r.station_data, station, map),
        copies_explored(r.exploration_data, station),
{
    let map_data = create_map_data(map);
    let mut robots_data: Vec<RobotData> = Vec::new();
    let mut i: usize = 0;
    while i < robots.len()
        invariant
            i <= robots@.len(),
            forall|j: int| 0 <= j < robots@.len() ==> grid_wf((#[trigger] robots@[j]).memory@),
            robots_data@.len() == i,
            forall|j: int| 0 <= j < i ==> summarizes_robot(#[trigger] robots_data@[j], robots@[j]),
        decreases robots@.len() - i,
    {
        robots_data.push(create_robot_data(&robots[i]));
        i = i + 1;
    }
    let station_data = create_station_data(station, map);
    let exploration_data = create_exploration_data(station);
    SimulationState { map_data, robots_data, station_data, exploration_data, iteration }
}

} // verus!
