use ereea::map::WorldMap;
use ereea::memory::TerrainData;
use ereea::robot::{walk_choice, Robot};
use ereea::simulation::Simulation;
use ereea::station::Station;
use ereea::types::{RobotMode, RobotType, TileType, MAP_SIZE};
use noise::{NoiseFn, Perlin};

fn empty_map() -> WorldMap {
    WorldMap::new(&vec![vec![0; MAP_SIZE]; MAP_SIZE])
}

fn noise_map(seed: u32) -> WorldMap {
    let perlin = Perlin::new(seed);
    let mut levels = Vec::new();
    for y in 0..MAP_SIZE {
        let mut row = Vec::new();
        for x in 0..MAP_SIZE {
            let v = perlin.get([x as f64 / MAP_SIZE as f64 * 4.0, y as f64 / MAP_SIZE as f64 * 4.0]);
            row.push((v * 1000.0).ceil() as i32);
        }
        levels.push(row);
    }
    WorldMap::new(&levels)
}

fn explored_station() -> Station {
    let mut s = Station::new();
    for row in s.global_memory.iter_mut() {
        for c in row.iter_mut() {
            *c = TerrainData { explored: true, timestamp: 1, robot_id: 1, robot_type: RobotType::Explorer };
        }
    }
    s.current_time = 5;
    s
}

#[test]
fn new_robot_defaults() {
    let r = Robot::new(4, 5, RobotType::MineralCollector);
    assert_eq!((r.x, r.y), (4, 5));
    assert_eq!((r.home_station_x, r.home_station_y), (4, 5));
    assert_eq!(r.energy, 1000);
    assert_eq!(r.max_energy, 1000);
    assert_eq!(r.mode, RobotMode::Exploring);
    assert_eq!(r.id, 0);
    assert_eq!(r.memory.len(), MAP_SIZE);
    assert_eq!(Robot::new(0, 0, RobotType::Explorer).max_energy, 800);
    assert_eq!(Robot::new(0, 0, RobotType::EnergyCollector).max_energy, 1200);
    assert_eq!(Robot::new(0, 0, RobotType::ScientificCollector).max_energy, 600);
}

#[test]
fn full_mineral_collector_returns_home() {
    let mut map = empty_map();
    map.tiles[3][4] = TileType::Mineral;
    let mut station = explored_station();
    let mut r = Robot::new_with_memory(3, 3, RobotType::MineralCollector, 7, 10, 10, station.global_memory.clone());
    r.minerals = 5;
    r.mode = RobotMode::Collecting;
    r.update(&mut map, &mut station);
    assert_eq!(r.mode, RobotMode::ReturnToStation);
    assert_eq!((r.x, r.y), (4, 4));
    assert_eq!(r.minerals, 5);
    assert_eq!(map.get_tile(4, 3), TileType::Mineral);
}

#[test]
fn return_trigger_cases() {
    let mut r = Robot::new_with_memory(3, 3, RobotType::MineralCollector, 7, 10, 10, Station::new().global_memory);
    assert!(!r.should_return_to_station());
    r.minerals = 5;
    assert!(r.should_return_to_station());
    r.minerals = 0;
    r.energy = 299;
    assert!(r.should_return_to_station());
    r.energy = 300;
    assert!(!r.should_return_to_station());
    let mut s = Robot::new(3, 3, RobotType::ScientificCollector);
    s.scientific_data = 3;
    assert!(s.should_return_to_station());
    let mut e = Robot::new(3, 3, RobotType::Explorer);
    assert!(!e.should_return_to_station());
    for row in e.memory.iter_mut() {
        for c in row.iter_mut() {
            c.explored = true;
        }
    }
    assert!(e.should_return_to_station());
}

#[test]
fn harvest_counts_only_the_first_time() {
    let mut map = empty_map();
    map.tiles[3][3] = TileType::Mineral;
    let mut station = explored_station();
    let mut r = Robot::new_with_memory(3, 3, RobotType::MineralCollector, 7, 10, 10, station.global_memory.clone());
    r.mode = RobotMode::Collecting;
    r.update(&mut map, &mut station);
    assert_eq!(r.minerals, 1);
    assert_eq!(map.get_tile(3, 3), TileType::Empty);
    r.x = 3;
    r.y = 3;
    r.mode = RobotMode::Collecting;
    r.path_to_station.clear();
    r.update(&mut map, &mut station);
    assert_eq!(r.minerals, 1);
    assert_eq!(map.get_tile(3, 3), TileType::Empty);
}

#[test]
fn energy_harvest_caps_at_capacity() {
    let mut map = empty_map();
    map.tiles[3][3] = TileType::Energy;
    map.tiles[0][0] = TileType::Energy;
    let mut station = explored_station();
    let mut r = Robot::new_with_memory(3, 3, RobotType::EnergyCollector, 7, 10, 10, station.global_memory.clone());
    r.energy = 1150;
    r.mode = RobotMode::Collecting;
    r.update(&mut map, &mut station);
    assert_eq!(r.energy, 1200);
    assert_eq!(map.get_tile(3, 3), TileType::Empty);
}

#[test]
fn collectors_wait_until_exploration_starts() {
    let map0 = empty_map();
    let mut map = empty_map();
    let mut station = Station::new();
    let mut r = Robot::new_with_memory(3, 3, RobotType::EnergyCollector, 2, 10, 10, station.global_memory.clone());
    r.update(&mut map, &mut station);
    assert_eq!(r.mode, RobotMode::ReturnToStation);
    assert_eq!((r.x, r.y), (3, 3));
    assert_eq!(r.energy, 1199);
    assert!(!r.path_to_station.is_empty());
    assert_eq!(*r.path_to_station.back().unwrap(), (10, 10));
    assert_eq!(map.tiles, map0.tiles);
    let mut home = Robot::new_with_memory(10, 10, RobotType::ScientificCollector, 3, 10, 10, station.global_memory.clone());
    home.update(&mut map, &mut station);
    assert_eq!(home.mode, RobotMode::Idle);
}

#[test]
fn visit_home_deposits_and_synchronises() {
    let mut map = empty_map();
    map.tiles[0][0] = TileType::Mineral;
    let mut station = explored_station();
    let mut r = Robot::new_with_memory(10, 10, RobotType::MineralCollector, 3, 10, 10, station.global_memory.clone());
    r.minerals = 4;
    r.energy = 500;
    r.memory[0][0].timestamp = 3;
    r.update(&mut map, &mut station);
    assert_eq!(station.collected_minerals, 4);
    assert_eq!(station.energy_reserves, 104);
    assert_eq!(r.minerals, 0);
    assert_eq!(r.last_sync_time, 5);
    assert_eq!(station.global_memory[0][0].timestamp, 3);
    assert_eq!(station.conflict_count, 1);
    assert_eq!(r.mode, RobotMode::Collecting);
}

#[test]
fn sensing_covers_the_vision_square() {
    let map = empty_map();
    let mut station = Station::new();
    station.current_time = 6;
    let mut e = Robot::new(10, 10, RobotType::Explorer);
    e.update_memory(&map, &station);
    assert!(e.memory[6][6].explored);
    assert!(e.memory[14][14].explored);
    assert!(!e.memory[5][10].explored);
    assert_eq!(e.memory[10][10].timestamp, 6);
    assert_eq!(e.get_exploration_percentage(), 20);
    let mut c = Robot::new(0, 0, RobotType::EnergyCollector);
    c.update_memory(&map, &station);
    assert!(c.memory[2][2].explored);
    assert!(!c.memory[3][0].explored);
    assert_eq!(c.get_exploration_percentage(), 2);
}

#[test]
fn explorer_moves_one_step_and_pays() {
    let mut map = empty_map();
    let mut station = Station::new();
    station.current_time = 1;
    let mut e = Robot::new(10, 10, RobotType::Explorer);
    for row in e.memory.iter_mut() {
        for c in row.iter_mut() {
            c.explored = true;
        }
    }
    e.memory[10][13].explored = false;
    e.home_station_x = 10;
    e.home_station_y = 10;
    e.last_sync_time = 1;
    e.update(&mut map, &mut station);
    assert_eq!(e.mode, RobotMode::Exploring);
    assert_eq!((e.x, e.y), (11, 10));
    assert_eq!(e.energy, 797);
}

#[test]
fn depleted_robot_is_rescued() {
    let map = empty_map();
    let mut r = Robot::new_with_memory(3, 3, RobotType::ScientificCollector, 1, 10, 10, Station::new().global_memory);
    r.energy = 0;
    r.rescue_if_depleted(&map);
    assert_eq!((r.x, r.y), (10, 10));
    assert_eq!(r.energy, 300);
    assert_eq!(r.mode, RobotMode::Idle);
    let mut ok = Robot::new_with_memory(3, 3, RobotType::Explorer, 1, 10, 10, Station::new().global_memory);
    ok.energy = 1;
    ok.rescue_if_depleted(&map);
    assert_eq!((ok.x, ok.y), (3, 3));
}

#[test]
fn robots_stay_on_open_ground_with_bounded_energy() {
    for seed in [5u32, 17] {
        let mut sim = Simulation::new(noise_map(seed));
        assert_eq!(sim.robots.len(), 4);
        assert_eq!(sim.station.next_robot_id, 5);
        for tick in 0..200u32 {
            assert!(sim.can_step());
            let state = sim.step();
            assert_eq!(state.iteration, tick);
            assert_eq!(sim.station.current_time, tick + 1);
            for r in sim.robots.iter() {
                assert!(r.x < MAP_SIZE && r.y < MAP_SIZE);
                assert_ne!(sim.map.get_tile(r.x, r.y), TileType::Obstacle);
                assert!(r.energy <= r.max_energy);
            }
        }
    }
}

#[test]
fn explorer_with_complete_map_settles_at_home() {
    let mut map = empty_map();
    let mut station = Station::new();
    station.current_time = 1;
    let mut e = Robot::new(10, 10, RobotType::Explorer);
    for row in e.memory.iter_mut() {
        for c in row.iter_mut() {
            *c = TerrainData { explored: true, timestamp: 1, robot_id: 1, robot_type: RobotType::Explorer };
        }
    }
    e.energy = 400;
    e.update(&mut map, &mut station);
    assert_eq!(e.mode, RobotMode::Idle);
    assert_eq!((e.x, e.y), (10, 10));
    assert_eq!(e.energy, 800);
    assert_eq!(station.get_exploration_percentage(), 100);
    e.update(&mut map, &mut station);
    assert_eq!(e.mode, RobotMode::Idle);
    assert_eq!((e.x, e.y), (10, 10));
}

#[test]
fn collectors_only_target_known_resources() {
    let mut map = empty_map();
    map.tiles[2][2] = TileType::Mineral;
    let mut r = Robot::new_with_memory(10, 10, RobotType::MineralCollector, 3, 10, 10, Station::new().global_memory);
    assert_eq!(r.find_nearest_resource(&map), None);
    r.memory[2][2].explored = true;
    assert_eq!(r.find_nearest_resource(&map), Some((2, 2)));
    let e = Robot::new(10, 10, RobotType::Explorer);
    assert_eq!(e.find_nearest_resource(&map), None);
}

#[test]
fn walk_choice_positions() {
    assert_eq!(walk_choice(5, true, true, 4), 0);
    assert_eq!(walk_choice(5, false, true, 4), 1);
    assert_eq!(walk_choice(5, false, false, 4), 2);
    assert_eq!(walk_choice(2, false, false, 1), 1);
    assert_eq!(walk_choice(1, false, true, 0), 0);
    assert_eq!(walk_choice(2, false, false, 7), 1);
}

#[test]
fn walk_target_ranks_unexplored_then_oldest() {
    let map = empty_map();
    let mut r = Robot::new(0, 0, RobotType::Explorer);
    assert_eq!(r.walk_target(&map, true, false, 0), Some((1, 0)));
    assert_eq!(r.walk_target(&map, false, true, 0), Some((0, 1)));
    assert_eq!(r.walk_target(&map, false, false, 0), Some((1, 1)));
    r.last_sync_time = 10;
    r.memory[0][1] = TerrainData { explored: true, timestamp: 0, robot_id: 1, robot_type: RobotType::Explorer };
    r.memory[1][1] = TerrainData { explored: true, timestamp: 9, robot_id: 1, robot_type: RobotType::Explorer };
    assert_eq!(r.walk_target(&map, true, false, 0), Some((0, 1)));
    assert_eq!(r.walk_target(&map, false, true, 0), Some((1, 0)));
    assert_eq!(r.walk_target(&map, false, false, 0), Some((1, 1)));
}

#[test]
fn walk_target_none_when_walled_in() {
    let mut map = empty_map();
    map.tiles[0][1] = TileType::Obstacle;
    map.tiles[1][0] = TileType::Obstacle;
    map.tiles[1][1] = TileType::Obstacle;
    let r = Robot::new(0, 0, RobotType::Explorer);
    assert_eq!(r.walk_target(&map, true, true, 0), None);
}

#[test]
fn collector_steps_towards_nearest_unexplored_cell() {
    let mut map = empty_map();
    let mut station = explored_station();
    let mut r = Robot::new_with_memory(5, 5, RobotType::EnergyCollector, 2, 10, 10, station.global_memory.clone());
    map.tiles[9][9] = TileType::Energy;
    r.memory[5][8].explored = false;
    r.memory[5][8].timestamp = 0;
    r.memory[9][9].explored = false;
    r.memory[9][9].timestamp = 0;
    r.memory[0][0].explored = true;
    map.tiles[0][0] = TileType::Energy;
    r.last_sync_time = 5;
    r.update(&mut map, &mut station);
    assert_eq!(r.mode, RobotMode::Exploring);
    assert_eq!((r.x, r.y), (6, 5));
}

#[test]
fn sent_home_robot_keeps_cargo_and_map() {
    let mut map = empty_map();
    map.tiles[3][3] = TileType::Mineral;
    let before = map.tiles.clone();
    let mut station = explored_station();
    let mut r = Robot::new_with_memory(3, 3, RobotType::MineralCollector, 7, 10, 10, station.global_memory.clone());
    r.minerals = 5;
    r.mode = RobotMode::Collecting;
    r.update(&mut map, &mut station);
    assert_eq!(r.mode, RobotMode::ReturnToStation);
    assert_eq!(r.minerals, 5);
    assert_eq!(map.tiles, before);
}
