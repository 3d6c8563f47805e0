//! One tick of the simulation: the hub's clock advances, every robot acts
//! in a fixed order against the shared map and hub (and is rescued when out
//! of energy), the hub may build a robot, and a snapshot is taken. Sleeping
//! between ticks and delivering snapshots are left to the caller.
use vstd::prelude::*;
use crate::types::{MAP_SIZE, TileType, RobotType, RobotMode};
use crate::grid::in_bounds;
use crate::map::{WorldMap, lemma_changes_keep_passable};
use crate::memory::{copy_memory, lemma_grid_conflicts_bound};
use crate::robot::{Robot, MINERAL_CAP, SCIENCE_CAP, lemma_wf_map_change};
use crate::station::{Station, ROBOT_ENERGY_COST, ROBOT_MINERAL_COST};
use crate::network::{SimulationState, create_simulation_state, summarizes_robot, summarizes_station,
    copies_map, copies_explored};

verus! {

/// Ticks between two attempts of the hub to build a robot.
pub const SPAWN_INTERVAL: u32 = 50;

/// Below this many explorers, and below 80% exploration, a new robot is
/// built as an explorer whatever role the hub picked.
pub const EXPLORER_TARGET: usize = 3;

/// Upper bound on the fleet that a tick accepts.
pub const MAX_ROBOTS: usize = 100000;

/// The whole simulated world.
pub struct Simulation {
    pub map: WorldMap,
    pub station: Station,
    pub robots: Vec<Robot>,
    pub iteration: u32,
    pub last_robot_creation: u32,
}

impl Simulation {
    /// The map, the hub and every robot are well formed: in particular
    /// every robot stands on a passable cell of the map and its energy lies
    /// within its capacity.
    pub open spec fn wf(&self) -> bool {
        &&& self.map.wf()
        &&& self.station.wf()
        &&& forall|i: int| 0 <= i < self.robots@.len() ==> (#[trigger] self.robots@[i]).wf(&self.map)
        &&& self.last_robot_creation <= self.iteration
    }

    /// A tick can run without any counter overflowing.
    pub open spec fn ready(&self) -> bool {
        let n = self.robots@.len();
        &&& n <= MAX_ROBOTS
        &&& self.iteration < u32::MAX
        &&& self.station.current_time < u32::MAX
        &&& self.station.next_robot_id < usize::MAX
        &&& self.station.energy_reserves + n * MINERAL_CAP <= u32::MAX
        &&& self.station.collected_minerals + n * MINERAL_CAP <= u32::MAX
        &&& self.station.collected_scientific_data + n * SCIENCE_CAP <= u32::MAX
        &&& self.station.conflict_count + n * (MAP_SIZE * MAP_SIZE) <= usize::MAX
    }

    /// A world on `map` with a fresh hub and the initial fleet at the hub:
    /// one robot of each role, with ids 1 to 4 and a copy of the hub's
    /// memory each.
    pub fn new(map: WorldMap) -> (r: Simulation)
        requires
            map.wf(),
        ensures
            r.wf(),
            r.map == map,
            r.iteration == 0,
            r.robots@.len() == 4,
            r.robots@[0].robot_type == RobotType::Explorer,
            r.robots@[1].robot_type == RobotType::EnergyCollector,
            r.robots@[2].robot_type == RobotType::MineralCollector,
            r.robots@[3].robot_type == RobotType::ScientificCollector,
            forall|i: int|
                0 <= i < 4 ==> (#[trigger] r.robots@[i]).id == i + 1 && r.robots@[i].pos()
                    == map.station() && r.robots@[i].mode == RobotMode::Exploring,
            r.station.next_robot_id == 5,
    {
        let mut station = Station::new();
        let sx = map.station_x;
        let sy = map.station_y;
        let mut robots: Vec<Robot> = Vec::new();
        robots.push(
            Robot::new_with_memory(
                sx,
                sy,
                RobotType::Explorer,
                1,
                sx,
                sy,
                copy_memory(&station.global_memory),
            ),
        );
        robots.push(
            Robot::new_with_memory(
                sx,
                sy,
                RobotType::EnergyCollector,
                2,
                sx,
                sy,
                copy_memory(&station.global_memory),
            ),
        );
        robots.push(
            Robot::new_with_memory(
                sx,
                sy,
                RobotType::MineralCollector,
                3,
                sx,
                sy,
                copy_memory(&station.global_memory),
            ),
        );
        robots.push(
            Robot::new_with_memory(
                sx,
                sy,
                RobotType::ScientificCollector,
                4,
                sx,
                sy,
                copy_memory(&station.global_memory),
            ),
        );
        station.next_robot_id = 5;
        proof {
            crate::map::lemma_connected_refl(&map, map.station());
        }
        Simulation { map, station, robots, iteration: 0, last_robot_creation: 0 }
    }

    /// Whether a tick can run without any counter overflowing.
    pub fn can_step(&self) -> (r: bool)
        ensures
            r == self.ready(),
    {
        let n = self.robots.len();
        if n > MAX_ROBOTS {
            return false;
        }
        let n64 = n as u64;
        proof {
            assert(n64 * 5 <= 500000) by (nonlinear_arith)
                requires
                    n64 <= 100000,
            ;
            assert(n64 * 3 <= 300000) by (nonlinear_arith)
                requires
                    n64 <= 100000,
            ;
            assert(n * 400 <= 40000000) by (nonlinear_arith)
                requires
                    n <= 100000,
            ;
        }
        self.iteration < u32::MAX && self.station.current_time < u32::MAX
            && self.station.next_robot_id < usize::MAX && (self.station.energy_reserves as u64)
            + n64 * (MINERAL_CAP as u64) <= (u32::MAX as u64) && (
        self.station.collected_minerals as u64) + n64 * (MINERAL_CAP as u64) <= (u32::MAX as u64)
            && (self.station.collected_scientific_data as u64) + n64 * (SCIENCE_CAP as u64) <= (
        u32::MAX as u64) && self.station.conflict_count <= usize::MAX - n * (MAP_SIZE * MAP_SIZE)
    }

    /// Whether every robot is at its home, idle or about to be.
    pub fn all_robots_home(&self) -> (r: bool)
        ensures
            r == forall|i: int|
                0 <= i < self.robots@.len() ==> (#[trigger] self.robots@[i]).pos()
                    == self.robots@[i].home() && (self.robots@[i].mode == RobotMode::Idle
                    || self.robots@[i].mode == RobotMode::ReturnToStation),
    {
        let mut i: usize = 0;
        while i < self.robots.len()
            invariant
                i <= self.robots@.len(),
                forall|j: int|
                    0 <= j < i ==> (#[trigger] self.robots@[j]).pos() == self.robots@[j].home() && (
                    self.robots@[j].mode == RobotMode::Idle || self.robots@[j].mode
                        == RobotMode::ReturnToStation),
            decreases self.robots@.len() - i,
        {
            let r = &self.robots[i];
            if r.x != r.home_station_x || r.y != r.home_station_y || (r.mode != RobotMode::Idle
                && r.mode != RobotMode::ReturnToStation) {
                return false;
            }
            i = i + 1;
        }
        true
    }

    /// Number of explorers in the fleet.
    fn explorer_count(&self) -> (n: usize)
        ensures
            n <= self.robots@.len(),
    {
        let mut n: usize = 0;
        let mut i: usize = 0;
        while i < self.robots.len()
            invariant
                i <= self.robots@.len(),
                n <= i,
            decreases self.robots@.len() - i,
        {
            if self.robots[i].robot_type == RobotType::Explorer {
                n = n + 1;
            }
            i = i + 1;
        }
        n
    }

    /// Runs one tick and returns its snapshot: the clock advances, each
    /// robot acts in turn and is rescued when out of energy; every
    /// `SPAWN_INTERVAL` ticks, unless the mission is complete, the hub tries
    /// to build a robot (an explorer while exploration is below 80% and
    /// fewer than `EXPLORER_TARGET` explorers are out).
    pub fn step(&mut self) -> (state: SimulationState)
        requires
            old(self).wf(),
            old(self).ready(),
        ensures
            final(self).wf(),
            final(self).iteration == old(self).iteration + 1,
            forall|i: int|
                0 <= i < final(self).robots@.len() ==> (#[trigger] final(self).robots@[i]).energy > 0,
            final(self).station.current_time == old(self).station.current_time + 1,
            final(self).robots@.len() == old(self).robots@.len() || final(self).robots@.len()
                == old(self).robots@.len() + 1,
            final(self).robots@.len() == old(self).robots@.len() + 1 ==> {
                &&& old(self).iteration - old(self).last_robot_creation >= SPAWN_INTERVAL
                &&& final(self).last_robot_creation == old(self).iteration
            },
            final(self).robots@.len() == old(self).robots@.len()
                ==> final(self).last_robot_creation == old(self).last_robot_creation,
            old(self).iteration - old(self).last_robot_creation >= SPAWN_INTERVAL
                && !final(self).station.mission_complete(&final(self).map)
                && final(self).station.energy_reserves >= ROBOT_ENERGY_COST
                && final(self).station.collected_minerals >= ROBOT_MINERAL_COST
                ==> final(self).robots@.len() == old(self).robots@.len() + 1,
            forall|i: int|
                0 <= i < old(self).robots@.len() ==> (#[trigger] final(self).robots@[i]).same_identity(
                    &old(self).robots@[i],
                ),
            state.iteration == old(self).iteration,
            state.robots_data@.len() == final(self).robots@.len(),
            forall|i: int|
                0 <= i < final(self).robots@.len() ==> summarizes_robot(
                    #[trigger] state.robots_data@[i],
                    final(self).robots@[i],
                ),
            summarizes_station(state.station_data, &final(self).station, &final(self).map),
            copies_map(state.map_data, &final(self).map),
            copies_explored(state.exploration_data, &final(self).station),
    {
        self.station.tick();
        let n = self.robots.len();
        let mut i: usize = 0;
        while i < n
            invariant
                n == self.robots@.len(),
                n <= MAX_ROBOTS,
                i <= n,
                self.map.wf(),
                self.station.wf(),
                forall|j: int| 0 <= j < n ==> (#[trigger] self.robots@[j]).wf(&self.map),
                forall|j: int| 0 <= j < i ==> (#[trigger] self.robots@[j]).energy > 0,
                forall|j: int|
                    0 <= j < n ==> (#[trigger] self.robots@[j]).same_identity(&old(self).robots@[j]),
                self.station.current_time == old(self).station.current_time + 1,
                self.station.next_robot_id == old(self).station.next_robot_id,
                self.station.next_robot_id < usize::MAX,
                self.station.energy_reserves + (n - i) * MINERAL_CAP <= u32::MAX,
                self.station.collected_minerals + (n - i) * MINERAL_CAP <= u32::MAX,
                self.station.collected_scientific_data + (n - i) * SCIENCE_CAP <= u32::MAX,
                self.station.conflict_count + (n - i) * (MAP_SIZE * MAP_SIZE) <= usize::MAX,
                self.iteration == old(self).iteration,
                self.last_robot_creation == old(self).last_robot_creation,
                self.last_robot_creation <= self.iteration,
                self.iteration < u32::MAX,
            decreases n - i,
        {
            let ghost m0 = self.map;
            let ghost s0 = self.station;
            let ghost others = self.robots@;
            let mut robot = self.robots.remove(i);
            proof {
                assert(robot == others[i as int]);
                let k = n - i;
                assert(k * 5 >= 5 && k * 3 >= 3 && k * 400 >= 400) by (nonlinear_arith)
                    requires
                        k >= 1,
                ;
                assert((k - 1) * 5 == k * 5 - 5 && (k - 1) * 3 == k * 3 - 3 && (k - 1) * 400 == k
                    * 400 - 400) by (nonlinear_arith);
                assert(s0.has_room());
            }
            robot.update(&mut self.map, &mut self.station);
            robot.rescue_if_depleted(&self.map);
            self.robots.insert(i, robot);
            proof {
                lemma_grid_conflicts_bound(s0.global_memory@, others[i as int].memory@, MAP_SIZE as int);
                lemma_changes_keep_passable(&m0, &self.map);
                assert forall|j: int| 0 <= j < n implies (#[trigger] self.robots@[j]).wf(&self.map) by {
                    if j != i {
                        assert(self.robots@[j] == others[j]);
                        lemma_wf_map_change(&others[j], &m0, &self.map);
                    }
                }
            }
            i = i + 1;
        }
        let complete = self.station.is_mission_complete(&self.map);
        if !complete && self.iteration - self.last_robot_creation >= SPAWN_INTERVAL {
            let percent = self.station.get_exploration_percentage();
            let explorers = self.explorer_count();
            let need_more_explorers = percent < 80 && explorers < EXPLORER_TARGET;
            match self.station.try_create_robot(&self.map) {
                Some(new_robot) => {
                    let robot = if need_more_explorers && new_robot.robot_type
                        != RobotType::Explorer {
                        let rebuilt = Robot::new_with_memory(
                            new_robot.x,
                            new_robot.y,
                            RobotType::Explorer,
                            new_robot.id,
                            new_robot.home_station_x,
                            new_robot.home_station_y,
                            new_robot.memory,
                        );
                        rebuilt
                    } else {
                        new_robot
                    };
                    self.robots.push(robot);
                    self.last_robot_creation = self.iteration;
                },
                None => {},
            }
        }
        let state = create_simulation_state(&self.map, &self.station, &self.robots, self.iteration);
        self.iteration = self.iteration + 1;
        state
    }
}

/// At every tick, every robot stands on the grid, on a cell that is not an
/// obstacle, and its energy lies between zero and its capacity.
pub proof fn lemma_robots_on_open_ground(sim: &Simulation)
    requires
        sim.wf(),
    ensures
        forall|i: int|
            0 <= i < sim.robots@.len() ==> {
                let r = #[trigger] sim.robots@[i];
                &&& in_bounds(r.pos())
                &&& sim.map.tile_at(r.pos()) != TileType::Obstacle
                &&& r.energy <= r.max_energy
            },
{
    assert forall|i: int| 0 <= i < sim.robots@.len() implies {
        let r = #[trigger] sim.robots@[i];
        &&& in_bounds(r.pos())
        &&& sim.map.tile_at(r.pos()) != TileType::Obstacle
        &&& r.energy <= r.max_energy
    } by {
        assert(sim.robots@[i].wf(&sim.map));
    }
}

} // verus!
