//! The hub: resource stockpiles, the canonical exploration memory, the
//! knowledge merge with visiting robots, the mission clock and the policy
//! that decides which robot to build next.
use vstd::prelude::*;
use crate::types::{MAP_SIZE, TileType, RobotType, RobotMode};
use crate::grid::{Pos, in_bounds};
use crate::map::{WorldMap, lemma_connected_refl};
use crate::memory::{TerrainData, grid_wf, cell, same_cells, unexplored_are_zero, all_explored_spec,
    explored_count, merge_cell, conflicts, grid_conflicts, row_conflicts,
    unexplored_record, blank_memory, copy_memory, count_explored, all_explored,
    lemma_merge_monotonic, lemma_grid_conflicts_bound, lemma_row_conflicts_bound};
use crate::robot::{Robot, MINERAL_CAP, SCIENCE_CAP};

verus! {

/// Energy that building a robot costs the hub.
pub const ROBOT_ENERGY_COST: u32 = 50;

/// Minerals that building a robot costs the hub.
pub const ROBOT_MINERAL_COST: u32 = 15;

/// Share of explored cells, in whole percent rounded down.
pub open spec fn percent_of(count: int) -> int {
    count * 100 / (MAP_SIZE * MAP_SIZE) as int
}

/// The role of the next robot to build, from the whole percentage of the
/// map explored, the resource tiles left on the map and the hub's stocks.
pub open spec fn needed_robot_type(
    percent: int,
    energy_tiles: int,
    mineral_tiles: int,
    scientific_tiles: int,
    energy_reserves: int,
    minerals: int,
) -> RobotType {
    if percent < 50 {
        RobotType::Explorer
    } else if percent < 80 {
        if energy_tiles > 0 && (energy_tiles <= 3 || energy_reserves < 100) {
            RobotType::EnergyCollector
        } else if mineral_tiles > 0 && (mineral_tiles <= 5 || minerals < 30) {
            RobotType::MineralCollector
        } else {
            RobotType::Explorer
        }
    } else if scientific_tiles > 0 && energy_reserves >= 100 {
        RobotType::ScientificCollector
    } else if energy_tiles > 0 {
        RobotType::EnergyCollector
    } else if mineral_tiles > 0 {
        RobotType::MineralCollector
    } else {
        RobotType::Explorer
    }
}

/// The status line of the hub, as rendered from its parts.
pub uninterp spec fn status_text(
    phase: Seq<char>,
    percent_whole: u32,
    percent_tenth: u32,
    energy: u32,
    energy_cost: u32,
    minerals: u32,
    mineral_cost: u32,
    conflicts: usize,
) -> Seq<char>;

/// Relies on std's `format!`: the status line is rendered from its parts
/// alone.
#[verifier::external_body]
fn render_status(
    phase: &str,
    percent_whole: u32,
    percent_tenth: u32,
    energy: u32,
    energy_cost: u32,
    minerals: u32,
    mineral_cost: u32,
    conflicts: usize,
) -> (r: String)
    ensures
        r@ == status_text(
            phase@,
            percent_whole,
            percent_tenth,
            energy,
            energy_cost,
            minerals,
            mineral_cost,
            conflicts,
        ),
{
    format!(
        "{} | Exploration: {}.{}% | Robot build: {}/{} energy, {}/{} minerals | Conflicts: {}",
        phase,
        percent_whole,
        percent_tenth,
        energy,
        energy_cost,
        minerals,
        mineral_cost,
        conflicts
    )
}

/// Label of the mission phase for a whole percentage of exploration.
pub open spec fn phase_label(percent: int) -> Seq<char> {
    if percent < 30 {
        "Initial exploration"@
    } else if percent < 60 {
        "Energy and mineral collection"@
    } else if percent < 100 {
        "Scientific collection"@
    } else {
        "Mission wrap-up"@
    }
}

/// Explored share in tenths of a percent, rounded down.
pub open spec fn permille_of(count: int) -> int {
    count * 1000 / (MAP_SIZE * MAP_SIZE) as int
}

/// The central hub.
pub struct Station {
    pub energy_reserves: u32,
    pub collected_minerals: u32,
    pub collected_scientific_data: u32,
    pub global_memory: Vec<Vec<TerrainData>>,
    pub conflict_count: usize,
    pub next_robot_id: usize,
    pub current_time: u32,
}

impl Station {
    /// The canonical memory is a full grid whose unexplored cells carry
    /// timestamp zero.
    pub open spec fn wf(&self) -> bool {
        &&& grid_wf(self.global_memory@)
        &&& unexplored_are_zero(self.global_memory@)
        &&& self.next_robot_id >= 1
    }

    /// The mission is complete: the canonical memory has every cell
    /// explored and no resource is left on the map.
    pub open spec fn mission_complete(&self, map: &WorldMap) -> bool {
        all_explored_spec(self.global_memory@) && map.no_resources_left()
    }

    /// Whole percentage of the map that the hub knows as explored.
    pub open spec fn percent(&self) -> int {
        percent_of(explored_count(self.global_memory@) as int)
    }

    /// Every field but the canonical memory and the conflict counter is as
    /// in `old`.
    pub open spec fn same_stocks(&self, old: &Station) -> bool {
        &&& self.energy_reserves == old.energy_reserves
        &&& self.collected_minerals == old.collected_minerals
        &&& self.collected_scientific_data == old.collected_scientific_data
        &&& self.next_robot_id == old.next_robot_id
        &&& self.current_time == old.current_time
    }

    /// The stocks and the conflict counter can take one more robot's visit
    /// without overflowing.
    pub open spec fn has_room(&self) -> bool {
        &&& self.energy_reserves + MINERAL_CAP <= u32::MAX
        &&& self.collected_minerals + MINERAL_CAP <= u32::MAX
        &&& self.collected_scientific_data + SCIENCE_CAP <= u32::MAX
        &&& self.conflict_count + MAP_SIZE * MAP_SIZE <= usize::MAX
    }

    /// A hub with 100 energy, no stock, an unexplored map, next robot id 1
    /// and the clock at zero.
    pub fn new() -> (r: Station)
        ensures
            r.wf(),
            r.energy_reserves == 100,
            r.collected_minerals == 0,
            r.collected_scientific_data == 0,
            r.conflict_count == 0,
            r.next_robot_id == 1,
            r.current_time == 0,
            forall|p: Pos| in_bounds(p) ==> #[trigger] cell(r.global_memory@, p) == unexplored_record(),
    {
        Station {
            energy_reserves: 100,
            collected_minerals: 0,
            collected_scientific_data: 0,
            global_memory: blank_memory(),
            conflict_count: 0,
            next_robot_id: 1,
            current_time: 0,
        }
    }

    /// Advances the mission clock by one tick.
    pub fn tick(&mut self)
        requires
            old(self).current_time < u32::MAX,
        ensures
            final(self).current_time == old(self).current_time + 1,
            final(self).energy_reserves == old(self).energy_reserves,
            final(self).collected_minerals == old(self).collected_minerals,
            final(self).collected_scientific_data == old(self).collected_scientific_data,
            final(self).global_memory@ == old(self).global_memory@,
            final(self).conflict_count == old(self).conflict_count,
            final(self).next_robot_id == old(self).next_robot_id,
    {
        self.current_time = self.current_time + 1;
    }

    /// Adds a robot's cargo to the stocks; every mineral also credits one
    /// unit of energy.
    pub fn deposit_resources(&mut self, minerals: u32, scientific_data: u32)
        requires
            old(self).collected_minerals + minerals <= u32::MAX,
            old(self).collected_scientific_data + scientific_data <= u32::MAX,
            old(self).energy_reserves + minerals <= u32::MAX,
        ensures
            final(self).collected_minerals == old(self).collected_minerals + minerals,
            final(self).collected_scientific_data == old(self).collected_scientific_data
                + scientific_data,
            final(self).energy_reserves == old(self).energy_reserves + minerals,
            final(self).global_memory@ == old(self).global_memory@,
            final(self).conflict_count == old(self).conflict_count,
            final(self).next_robot_id == old(self).next_robot_id,
            final(self).current_time == old(self).current_time,
    {
        self.collected_minerals = self.collected_minerals + minerals;
        self.collected_scientific_data = self.collected_scientific_data + scientific_data;
        self.energy_reserves = self.energy_reserves + minerals;
    }

    /// Number of cells of the canonical memory that are explored.
    pub fn explored_count(&self) -> (n: usize)
        requires
            self.wf(),
        ensures
            n as int == explored_count(self.global_memory@),
            n <= MAP_SIZE * MAP_SIZE,
    {
        count_explored(&self.global_memory)
    }

    /// Percentage of the map explored, in whole percent rounded down (so
    /// that it compares with any whole threshold as the exact share does).
    pub fn get_exploration_percentage(&self) -> (r: u32)
        requires
            self.wf(),
        ensures
            r as int == self.percent(),
            r <= 100,
    {
        let n = count_explored(&self.global_memory);
        proof {
            assert(n * 100 / 400 <= 100) by (nonlinear_arith)
                requires
                    n <= 400,
            ;
        }
        (n * 100 / (MAP_SIZE * MAP_SIZE)) as u32
    }

    /// Chooses the role of the next robot from exploration progress, the
    /// resource tiles left and the stocks.
    fn determine_needed_robot_type(&self, map: &WorldMap) -> (r: RobotType)
        requires
            self.wf(),
            map.wf(),
        ensures
            r == needed_robot_type(
                self.percent(),
                map.tile_count(TileType::Energy) as int,
                map.tile_count(TileType::Mineral) as int,
                map.tile_count(TileType::Scientific) as int,
                self.energy_reserves as int,
                self.collected_minerals as int,
            ),
    {
        let percent = self.get_exploration_percentage();
        if percent < 50 {
            return RobotType::Explorer;
        }
        let energy_count = map.count_tiles(TileType::Energy);
        let mineral_count = map.count_tiles(TileType::Mineral);
        let scientific_count = map.count_tiles(TileType::Scientific);
        if percent < 80 {
            if energy_count > 0 && (energy_count <= 3 || self.energy_reserves < 100) {
                return RobotType::EnergyCollector;
            }
            if mineral_count > 0 && (mineral_count <= 5 || self.collected_minerals < 30) {
                return RobotType::MineralCollector;
            }
            return RobotType::Explorer;
        }
        if scientific_count > 0 && self.energy_reserves >= 100 {
            return RobotType::ScientificCollector;
        }
        if energy_count > 0 {
            return RobotType::EnergyCollector;
        }
        if mineral_count > 0 {
            return RobotType::MineralCollector;
        }
        RobotType::Explorer
    }

    /// Builds a robot when the hub holds at least `ROBOT_ENERGY_COST` energy
    /// and `ROBOT_MINERAL_COST` minerals: both are paid, the robot gets the
    /// next id, the role that the hub needs most, and a copy of the
    /// canonical memory, and stands at the hub. Otherwise nothing changes
    /// and `None` is returned.
    pub fn try_create_robot(&mut self, map: &WorldMap) -> (r: Option<Robot>)
        requires
            old(self).wf(),
            map.wf(),
            old(self).next_robot_id < usize::MAX,
        ensures
            final(self).wf(),
            final(self).global_memory@ == old(self).global_memory@,
            final(self).conflict_count == old(self).conflict_count,
            final(self).current_time == old(self).current_time,
            final(self).collected_scientific_data == old(self).collected_scientific_data,
            (old(self).energy_reserves >= ROBOT_ENERGY_COST && old(self).collected_minerals
                >= ROBOT_MINERAL_COST) <==> r.is_some(),
            r.is_none() ==> {
                &&& final(self).energy_reserves == old(self).energy_reserves
                &&& final(self).collected_minerals == old(self).collected_minerals
                &&& final(self).next_robot_id == old(self).next_robot_id
            },
            r.is_some() ==> {
                let robot = r.unwrap();
                &&& final(self).energy_reserves == old(self).energy_reserves - ROBOT_ENERGY_COST
                &&& final(self).collected_minerals == old(self).collected_minerals
                    - ROBOT_MINERAL_COST
                &&& final(self).next_robot_id == old(self).next_robot_id + 1
                &&& robot.id == old(self).next_robot_id
                &&& robot.robot_type == needed_robot_type(
                    old(self).percent(),
                    map.tile_count(TileType::Energy) as int,
                    map.tile_count(TileType::Mineral) as int,
                    map.tile_count(TileType::Scientific) as int,
                    old(self).energy_reserves as int,
                    old(self).collected_minerals as int,
                )
                &&& robot.pos() == map.station()
                &&& robot.energy == robot.max_energy
                &&& robot.mode == RobotMode::Exploring
                &&& robot.minerals == 0 && robot.scientific_data == 0
                &&& robot.last_sync_time == 0
                &&& same_cells(robot.memory@, old(self).global_memory@)
                &&& robot.wf(map)
            },
    {
        if self.energy_reserves >= ROBOT_ENERGY_COST && self.collected_minerals
            >= ROBOT_MINERAL_COST {
            let robot_type = self.determine_needed_robot_type(map);
            self.energy_reserves = self.energy_reserves - ROBOT_ENERGY_COST;
            self.collected_minerals = self.collected_minerals - ROBOT_MINERAL_COST;
            let memory = copy_memory(&self.global_memory);
            let robot = Robot::new_with_memory(
                map.station_x,
                map.station_y,
                robot_type,
                self.next_robot_id,
                map.station_x,
                map.station_y,
                memory,
            );
            self.next_robot_id = self.next_robot_id + 1;
            proof {
                lemma_connected_refl(map, map.station());
            }
            return Some(robot);
        }
        None
    }

    /// Synchronises with a robot standing at its home: the robot's memory is
    /// merged into the canonical one (`sync_memory`) and then replaced by a
    /// copy of it. A robot elsewhere changes nothing.
    pub fn share_knowledge(&mut self, robot: &mut Robot)
        requires
            old(self).wf(),
            grid_wf(old(robot).memory@),
            old(self).conflict_count + MAP_SIZE * MAP_SIZE <= usize::MAX,
        ensures
            final(self).wf(),
            grid_wf(final(robot).memory@),
            final(robot).same_but_memory(&*old(robot)),
            final(self).same_stocks(&*old(self)),
            old(robot).pos() == old(robot).home() ==> {
                &&& forall|p: Pos|
                    in_bounds(p) ==> #[trigger] cell(final(self).global_memory@, p) == merge_cell(
                        cell(old(self).global_memory@, p),
                        cell(old(robot).memory@, p),
                    )
                &&& same_cells(final(robot).memory@, final(self).global_memory@)
                &&& final(self).conflict_count == old(self).conflict_count + conflicts(
                    old(self).global_memory@,
                    old(robot).memory@,
                )
            },
            old(robot).pos() != old(robot).home() ==> {
                &&& final(self).global_memory@ == old(self).global_memory@
                &&& final(self).conflict_count == old(self).conflict_count
                &&& final(robot).memory@ == old(robot).memory@
            },
    {
        if robot.x == robot.home_station_x && robot.y == robot.home_station_y {
            self.sync_memory(&mut robot.memory);
        }
    }

    /// Whether the mission is complete: every cell explored in the
    /// canonical memory and no resource left on the map.
    pub fn is_mission_complete(&self, map: &WorldMap) -> (r: bool)
        requires
            self.wf(),
            map.wf(),
        ensures
            r == self.mission_complete(map),
    {
        all_explored(&self.global_memory) && map.are_all_resources_collected()
    }

    /// The stricter completion check: the mission is complete and every
    /// robot idles at its home.
    pub fn is_all_missions_complete(&self, map: &WorldMap, robots: &Vec<Robot>) -> (r: bool)
        requires
            self.wf(),
            map.wf(),
        ensures
            r == (self.mission_complete(map) && forall|i: int|
                0 <= i < robots@.len() ==> (#[trigger] robots@[i]).mode == RobotMode::Idle
                    && robots@[i].pos() == robots@[i].home()),
    {
        if !self.is_mission_complete(map) {
            return false;
        }
        let mut i: usize = 0;
        while i < robots.len()
            invariant
                i <= robots@.len(),
                forall|j: int|
                    0 <= j < i ==> (#[trigger] robots@[j]).mode == RobotMode::Idle
                        && robots@[j].pos() == robots@[j].home(),
            decreases robots@.len() - i,
        {
            let robot = &robots[i];
            if robot.mode != RobotMode::Idle || robot.x != robot.home_station_x || robot.y
                != robot.home_station_y {
                return false;
            }
            i = i + 1;
        }
        true
    }

    /// Label of the current mission phase, by exploration percentage.
    pub fn phase(&self) -> (r: &'static str)
        requires
            self.wf(),
        ensures
            r@ == phase_label(self.percent()),
    {
        let percent = self.get_exploration_percentage();
        if percent < 30 {
            "Initial exploration"
        } else if percent < 60 {
            "Energy and mineral collection"
        } else if percent < 100 {
            "Scientific collection"
        } else {
            "Mission wrap-up"
        }
    }

    /// The status line that `get_status` renders.
    pub open spec fn status_line(&self) -> Seq<char> {
        status_text(
            phase_label(self.percent()),
            (permille_of(explored_count(self.global_memory@) as int) / 10) as u32,
            (permille_of(explored_count(self.global_memory@) as int) % 10) as u32,
            if self.energy_reserves < ROBOT_ENERGY_COST {
                self.energy_reserves
            } else {
                ROBOT_ENERGY_COST
            },
            ROBOT_ENERGY_COST,
            if self.collected_minerals < ROBOT_MINERAL_COST {
                self.collected_minerals
            } else {
                ROBOT_MINERAL_COST
            },
            ROBOT_MINERAL_COST,
            self.conflict_count,
        )
    }

    /// One-line status report: the phase, the share explored to a tenth of
    /// a percent, the stocks towards the price of a robot (capped at that
    /// price) and the conflict count.
    pub fn get_status(&self) -> (r: String)
        requires
            self.wf(),
        ensures
            r@ == self.status_line(),
    {
        let phase = self.phase();
        let n = count_explored(&self.global_memory);
        let permille = n * 1000 / (MAP_SIZE * MAP_SIZE);
        proof {
            assert(n * 1000 / 400 <= 1000) by (nonlinear_arith)
                requires
                    n <= 400,
            ;
        }
        let energy = if self.energy_reserves < ROBOT_ENERGY_COST {
            self.energy_reserves
        } else {
            ROBOT_ENERGY_COST
        };
        let minerals = if self.collected_minerals < ROBOT_MINERAL_COST {
            self.collected_minerals
        } else {
            ROBOT_MINERAL_COST
        };
        render_status(
            phase,
            (permille / 10) as u32,
            (permille % 10) as u32,
            energy,
            ROBOT_ENERGY_COST,
            minerals,
            ROBOT_MINERAL_COST,
            self.conflict_count,
        )
    }

    /// Merges a robot's memory into the canonical one, cell by cell, by last
    /// writer wins (`merge_cell`), counting each overwrite of an explored
    /// record as a conflict; then replaces the robot's memory with a copy of
    /// the merged canonical memory.
    pub fn sync_memory(&mut self, memory: &mut Vec<Vec<TerrainData>>)
        requires
            old(self).wf(),
            grid_wf(old(memory)@),
            old(self).conflict_count + MAP_SIZE * MAP_SIZE <= usize::MAX,
        ensures
            final(self).wf(),
            grid_wf(final(memory)@),
            forall|p: Pos|
                in_bounds(p) ==> #[trigger] cell(final(self).global_memory@, p) == merge_cell(
                    cell(old(self).global_memory@, p),
                    cell(old(memory)@, p),
                ),
            same_cells(final(memory)@, final(self).global_memory@),
            final(self).conflict_count == old(self).conflict_count + conflicts(
                old(self).global_memory@,
                old(memory)@,
            ),
            final(self).same_stocks(&*old(self)),
    {
        let ghost g0 = self.global_memory@;
        let ghost a0 = memory@;
        let mut found: usize = 0;
        let mut y: usize = 0;
        while y < MAP_SIZE
            invariant
                grid_wf(g0),
                grid_wf(a0),
                unexplored_are_zero(g0),
                memory@ == a0,
                grid_wf(self.global_memory@),
                y <= MAP_SIZE,
                found as int == grid_conflicts(g0, a0, y as int),
                forall|p: Pos|
                    in_bounds(p) ==> #[trigger] cell(self.global_memory@, p) == if p.1 < y {
                        merge_cell(cell(g0, p), cell(a0, p))
                    } else {
                        cell(g0, p)
                    },
                self.same_stocks(&*old(self)),
                self.conflict_count == old(self).conflict_count,
            decreases MAP_SIZE - y,
        {
            proof {
                lemma_grid_conflicts_bound(g0, a0, y as int);
            }
            let mut x: usize = 0;
            while x < MAP_SIZE
                invariant
                    grid_wf(g0),
                    grid_wf(a0),
                    memory@ == a0,
                    grid_wf(self.global_memory@),
                    y < MAP_SIZE,
                    x <= MAP_SIZE,
                    grid_conflicts(g0, a0, y as int) <= y * MAP_SIZE,
                    found as int == grid_conflicts(g0, a0, y as int) + row_conflicts(
                        g0[y as int]@,
                        a0[y as int]@,
                        x as int,
                    ),
                    forall|p: Pos|
                        in_bounds(p) ==> #[trigger] cell(self.global_memory@, p) == if p.1 < y || (
                        p.1 == y && p.0 < x) {
                            merge_cell(cell(g0, p), cell(a0, p))
                        } else {
                            cell(g0, p)
                        },
                    self.same_stocks(&*old(self)),
                    self.conflict_count == old(self).conflict_count,
                decreases MAP_SIZE - x,
            {
                proof {
                    lemma_row_conflicts_bound(g0[y as int]@, a0[y as int]@, x as int);
                }
                let ghost before = self.global_memory@;
                proof {
                    assert(cell(before, (x, y)) == cell(g0, (x, y)));
                }
                let a = memory[y][x];
                let h = self.global_memory[y][x];
                if a.explored {
                    if h.explored {
                        if a.timestamp > h.timestamp {
                            self.global_memory[y][x] = a;
                            found = found + 1;
                        }
                    } else {
                        self.global_memory[y][x] = a;
                    }
                }
                proof {
                    assert(h == cell(g0, (x, y)));
                    assert(a == cell(a0, (x, y)));
                    assert forall|p: Pos| in_bounds(p) && p != (x, y) implies #[trigger] cell(
                        self.global_memory@,
                        p,
                    ) == cell(before, p) by {
                        if p.1 == y {
                            assert(self.global_memory@[p.1 as int]@[p.0 as int]
                                == before[p.1 as int]@[p.0 as int]);
                        }
                    }
                    assert(cell(self.global_memory@, (x, y)) == merge_cell(h, a));
                }
                x = x + 1;
            }
            y = y + 1;
        }
        proof {
            lemma_grid_conflicts_bound(g0, a0, MAP_SIZE as int);
        }
        self.conflict_count = self.conflict_count + found;
        proof {
            assert forall|p: Pos| in_bounds(p) && !(#[trigger] cell(self.global_memory@, p)).explored
                implies cell(self.global_memory@, p).timestamp == 0 by {
                lemma_merge_monotonic(cell(g0, p), cell(a0, p));
            }
        }
        let mut y: usize = 0;
        while y < MAP_SIZE
            invariant
                grid_wf(self.global_memory@),
                grid_wf(memory@),
                y <= MAP_SIZE,
                forall|p: Pos|
                    in_bounds(p) && p.1 < y ==> #[trigger] cell(memory@, p) == cell(
                        self.global_memory@,
                        p,
                    ),
            decreases MAP_SIZE - y,
        {
            let mut x: usize = 0;
            while x < MAP_SIZE
                invariant
                    grid_wf(self.global_memory@),
                    grid_wf(memory@),
                    y < MAP_SIZE,
                    x <= MAP_SIZE,
                    forall|p: Pos|
                        in_bounds(p) && (p.1 < y || (p.1 == y && p.0 < x)) ==> #[trigger] cell(
                            memory@,
                            p,
                        ) == cell(self.global_memory@, p),
                decreases MAP_SIZE - x,
            {
                let ghost before = memory@;
                memory[y][x] = self.global_memory[y][x];
                proof {
                    assert forall|p: Pos| in_bounds(p) && p != (x, y) implies #[trigger] cell(
                        memory@,
                        p,
                    ) == cell(before, p) by {
                        if p.1 == y {
                            assert(memory@[p.1 as int]@[p.0 as int] == before[p.1 as int]@[p.0 as int]);
                        }
                    }
                }
                x = x + 1;
            }
            y = y + 1;
        }
    }
}

} // verus!
