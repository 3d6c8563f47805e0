use ereea::display::DisplayState;
use ereea::map::WorldMap;
use ereea::memory::TerrainData;
use ereea::network::{create_exploration_data, create_map_data, create_station_data};
use ereea::robot::Robot;
use ereea::station::Station;
use ereea::types::{RobotType, TileType, MAP_SIZE};

fn empty_map() -> WorldMap {
    WorldMap::new(&vec![vec![0; MAP_SIZE]; MAP_SIZE])
}

fn explore_first(station: &mut Station, count: usize) {
    let mut done = 0;
    for y in 0..MAP_SIZE {
        for x in 0..MAP_SIZE {
            if done < count {
                station.global_memory[y][x].explored = true;
                station.global_memory[y][x].timestamp = 1;
                done += 1;
            }
        }
    }
}

fn record(ts: u32, id: usize) -> TerrainData {
    TerrainData { explored: true, timestamp: ts, robot_id: id, robot_type: RobotType::Explorer }
}

fn robot_at_hub(id: usize) -> Robot {
    let mut r = Robot::new(10, 10, RobotType::Explorer);
    r.id = id;
    r
}

#[test]
fn new_station_defaults() {
    let s = Station::new();
    assert_eq!(s.energy_reserves, 100);
    assert_eq!(s.collected_minerals, 0);
    assert_eq!(s.collected_scientific_data, 0);
    assert_eq!(s.conflict_count, 0);
    assert_eq!(s.next_robot_id, 1);
    assert_eq!(s.current_time, 0);
    assert_eq!(s.get_exploration_percentage(), 0);
    assert!(s.global_memory.iter().all(|row| row.iter().all(|c| !c.explored)));
}

#[test]
fn tick_advances_clock() {
    let mut s = Station::new();
    s.tick();
    s.tick();
    assert_eq!(s.current_time, 2);
}

#[test]
fn deposit_credits_energy_per_mineral() {
    let mut s = Station::new();
    s.deposit_resources(30, 10);
    assert_eq!(s.collected_minerals, 30);
    assert_eq!(s.collected_scientific_data, 10);
    assert_eq!(s.energy_reserves, 130);
}

#[test]
fn exploration_percentage_rounds_down() {
    let mut s = Station::new();
    explore_first(&mut s, 2);
    assert_eq!(s.explored_count(), 2);
    assert_eq!(s.get_exploration_percentage(), 0);
    explore_first(&mut s, 200);
    assert_eq!(s.get_exploration_percentage(), 50);
    explore_first(&mut s, 400);
    assert_eq!(s.get_exploration_percentage(), 100);
}

#[test]
fn robot_creation_needs_both_stocks() {
    let map = empty_map();
    let mut s = Station::new();
    assert!(s.try_create_robot(&map).is_none());
    assert_eq!(s.energy_reserves, 100);
    assert_eq!(s.next_robot_id, 1);
    s.collected_minerals = 15;
    s.energy_reserves = 49;
    assert!(s.try_create_robot(&map).is_none());
    s.energy_reserves = 50;
    let r = s.try_create_robot(&map).unwrap();
    assert_eq!(r.id, 1);
    assert_eq!(r.robot_type, RobotType::Explorer);
    assert_eq!((r.x, r.y), (10, 10));
    assert_eq!((r.home_station_x, r.home_station_y), (10, 10));
    assert_eq!(r.energy, 800);
    assert_eq!(s.energy_reserves, 0);
    assert_eq!(s.collected_minerals, 0);
    assert_eq!(s.next_robot_id, 2);
}

#[test]
fn role_policy_by_phase() {
    let mut map = empty_map();
    map.tiles[0][0] = TileType::Energy;
    map.tiles[0][1] = TileType::Mineral;
    map.tiles[0][2] = TileType::Scientific;
    let mut s = Station::new();
    s.energy_reserves = 1000;
    s.collected_minerals = 1000;
    explore_first(&mut s, 100);
    assert_eq!(s.try_create_robot(&map).unwrap().robot_type, RobotType::Explorer);
    explore_first(&mut s, 240);
    assert_eq!(s.try_create_robot(&map).unwrap().robot_type, RobotType::EnergyCollector);
    explore_first(&mut s, 360);
    assert_eq!(s.try_create_robot(&map).unwrap().robot_type, RobotType::ScientificCollector);
    map.tiles[0][2] = TileType::Empty;
    assert_eq!(s.try_create_robot(&map).unwrap().robot_type, RobotType::EnergyCollector);
    map.tiles[0][0] = TileType::Empty;
    assert_eq!(s.try_create_robot(&map).unwrap().robot_type, RobotType::MineralCollector);
    map.tiles[0][1] = TileType::Empty;
    assert_eq!(s.try_create_robot(&map).unwrap().robot_type, RobotType::Explorer);
}

#[test]
fn mid_phase_prefers_minerals_when_energy_plentiful() {
    let mut map = empty_map();
    for x in 0..4 {
        map.tiles[0][x] = TileType::Energy;
    }
    map.tiles[1][0] = TileType::Mineral;
    let mut s = Station::new();
    s.energy_reserves = 1000;
    s.collected_minerals = 1000;
    explore_first(&mut s, 240);
    assert_eq!(s.try_create_robot(&map).unwrap().robot_type, RobotType::MineralCollector);
}

#[test]
fn conflicting_reports_newest_first_keeps_newest() {
    let mut s = Station::new();
    let mut a = robot_at_hub(1);
    let mut b = robot_at_hub(2);
    a.memory[0][0] = record(9, 1);
    b.memory[0][0] = record(5, 2);
    s.share_knowledge(&mut a);
    s.share_knowledge(&mut b);
    assert_eq!(s.global_memory[0][0].timestamp, 9);
    assert_eq!(s.global_memory[0][0].robot_id, 1);
    assert_eq!(s.conflict_count, 0);
    assert_eq!(b.memory[0][0].timestamp, 9);
}

#[test]
fn conflicting_reports_oldest_first_counts_one_conflict() {
    let mut s = Station::new();
    let mut a = robot_at_hub(1);
    let mut b = robot_at_hub(2);
    a.memory[0][0] = record(9, 1);
    b.memory[0][0] = record(5, 2);
    s.share_knowledge(&mut b);
    s.share_knowledge(&mut a);
    assert_eq!(s.global_memory[0][0].timestamp, 9);
    assert_eq!(s.conflict_count, 1);
}

#[test]
fn equal_timestamps_keep_the_hub_record() {
    let mut s = Station::new();
    let mut a = robot_at_hub(1);
    let mut b = robot_at_hub(2);
    a.memory[3][3] = record(4, 1);
    b.memory[3][3] = record(4, 2);
    s.share_knowledge(&mut a);
    s.share_knowledge(&mut b);
    assert_eq!(s.global_memory[3][3].robot_id, 1);
    assert_eq!(s.conflict_count, 0);
}

#[test]
fn sync_is_monotonic_and_refreshes_robot() {
    let mut s = Station::new();
    s.global_memory[1][1] = record(7, 3);
    s.global_memory[2][2] = record(2, 3);
    let mut a = robot_at_hub(1);
    a.memory[1][1] = record(3, 1);
    a.memory[2][2] = record(6, 1);
    a.memory[5][5] = record(1, 1);
    let before: Vec<Vec<u32>> =
        s.global_memory.iter().map(|row| row.iter().map(|c| c.timestamp).collect()).collect();
    s.share_knowledge(&mut a);
    for y in 0..MAP_SIZE {
        for x in 0..MAP_SIZE {
            assert!(s.global_memory[y][x].timestamp >= before[y][x]);
            assert_eq!(a.memory[y][x], s.global_memory[y][x]);
        }
    }
    assert_eq!(s.global_memory[1][1].timestamp, 7);
    assert_eq!(s.global_memory[2][2].timestamp, 6);
    assert_eq!(s.global_memory[5][5].timestamp, 1);
    assert_eq!(s.conflict_count, 1);
}

#[test]
fn sync_away_from_home_changes_nothing() {
    let mut s = Station::new();
    let mut a = Robot::new_with_memory(3, 3, RobotType::Explorer, 1, 10, 10, s.global_memory.clone());
    a.memory[0][0] = record(5, 1);
    s.share_knowledge(&mut a);
    assert!(!s.global_memory[0][0].explored);
    assert_eq!(a.memory[0][0].timestamp, 5);
}

#[test]
fn mission_incomplete_while_a_resource_remains() {
    let mut map = empty_map();
    map.tiles[19][19] = TileType::Scientific;
    let mut s = Station::new();
    explore_first(&mut s, 400);
    assert!(!s.is_mission_complete(&map));
    map.consume_resource(19, 19);
    assert!(s.is_mission_complete(&map));
}

#[test]
fn mission_incomplete_while_unexplored() {
    let map = empty_map();
    let mut s = Station::new();
    explore_first(&mut s, 399);
    assert!(!s.is_mission_complete(&map));
}

#[test]
fn strict_completion_needs_idle_robots_at_home() {
    let map = empty_map();
    let mut s = Station::new();
    explore_first(&mut s, 400);
    let robots = vec![robot_at_hub(1)];
    assert!(!s.is_all_missions_complete(&map, &robots));
    let mut r = robot_at_hub(1);
    r.mode = ereea::types::RobotMode::Idle;
    let robots = vec![r];
    assert!(s.is_all_missions_complete(&map, &robots));
}

#[test]
fn status_line_reports_phase_and_stocks() {
    let mut s = Station::new();
    s.collected_minerals = 7;
    s.conflict_count = 2;
    explore_first(&mut s, 2);
    let line = s.get_status();
    assert!(line.starts_with("Initial exploration"));
    assert!(line.contains("Exploration: 0.5%"));
    assert!(line.contains("50/50 energy"));
    assert!(line.contains("7/15 minerals"));
    assert!(line.contains("Conflicts: 2"));
    explore_first(&mut s, 300);
    assert!(s.get_status().starts_with("Scientific collection"));
    assert_eq!(s.phase(), "Scientific collection");
}

#[test]
fn snapshots_copy_map_and_explored_flags() {
    let mut map = empty_map();
    map.tiles[1][2] = TileType::Mineral;
    let mut s = Station::new();
    s.global_memory[4][6].explored = true;
    let md = create_map_data(&map);
    assert_eq!(md.tiles[1][2], TileType::Mineral);
    assert_eq!((md.station_x, md.station_y), (10, 10));
    let ed = create_exploration_data(&s);
    assert!(ed.explored_tiles[4][6]);
    assert!(!ed.explored_tiles[6][4]);
    s.next_robot_id = 5;
    let sd = create_station_data(&s, &map);
    assert_eq!(sd.robot_count, 4);
    assert!(!sd.mission_complete);
}

#[test]
fn log_keeps_the_last_eight_lines() {
    let mut d = DisplayState::new();
    assert!(!d.initialized);
    for i in 0..10 {
        d.add_log(format!("line {}", i));
    }
    assert_eq!(d.log_messages.len(), 8);
    assert_eq!(d.log_messages.front().unwrap(), "line 2");
    assert_eq!(d.log_messages.back().unwrap(), "line 9");
}
