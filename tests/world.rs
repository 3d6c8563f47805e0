use ereea::map::WorldMap;
use ereea::pathfinding::find_path;
use ereea::types::{TileType, MAP_SIZE};
use noise::{NoiseFn, Perlin};

fn flat_levels(level: i32) -> Vec<Vec<i32>> {
    vec![vec![level; MAP_SIZE]; MAP_SIZE]
}

fn noise_levels(seed: u32) -> Vec<Vec<i32>> {
    let perlin = Perlin::new(seed);
    let mut levels = Vec::new();
    for y in 0..MAP_SIZE {
        let mut row = Vec::new();
        for x in 0..MAP_SIZE {
            let nx = x as f64 / MAP_SIZE as f64;
            let ny = y as f64 / MAP_SIZE as f64;
            let v = perlin.get([nx * 4.0, ny * 4.0]);
            row.push((v * 1000.0).ceil() as i32);
        }
        levels.push(row);
    }
    levels
}

fn empty_map() -> WorldMap {
    WorldMap::new(&flat_levels(0))
}

fn is_resource(t: TileType) -> bool {
    matches!(t, TileType::Energy | TileType::Mineral | TileType::Scientific)
}

#[test]
fn fresh_map_has_hub_at_center_with_clear_square() {
    for seed in [0u32, 1, 7, 42, 1234] {
        let map = WorldMap::new(&noise_levels(seed));
        assert_eq!(map.station_x, 10);
        assert_eq!(map.station_y, 10);
        assert_eq!(map.tiles.len(), 20);
        for y in 8..=12 {
            for x in 8..=12 {
                assert_eq!(map.get_tile(x, y), TileType::Empty);
            }
        }
    }
}

#[test]
fn all_obstacle_levels_leave_only_the_clearing() {
    let map = WorldMap::new(&flat_levels(900));
    for y in 0..MAP_SIZE {
        for x in 0..MAP_SIZE {
            let inside = (8..=12).contains(&x) && (8..=12).contains(&y);
            let expected = if inside { TileType::Empty } else { TileType::Obstacle };
            assert_eq!(map.get_tile(x, y), expected);
        }
    }
}

#[test]
fn noise_levels_map_to_bands() {
    let mut levels = flat_levels(0);
    levels[0][0] = 501;
    levels[0][1] = 500;
    levels[0][2] = 301;
    levels[0][3] = 300;
    levels[0][4] = 101;
    levels[0][5] = 100;
    levels[0][6] = 1;
    levels[0][7] = 0;
    levels[1][0] = -400;
    let map = WorldMap::new(&levels);
    assert_eq!(map.get_tile(0, 0), TileType::Obstacle);
    assert_eq!(map.get_tile(1, 0), TileType::Energy);
    assert_eq!(map.get_tile(2, 0), TileType::Energy);
    assert_eq!(map.get_tile(3, 0), TileType::Mineral);
    assert_eq!(map.get_tile(4, 0), TileType::Mineral);
    assert_eq!(map.get_tile(5, 0), TileType::Scientific);
    assert_eq!(map.get_tile(6, 0), TileType::Scientific);
    assert_eq!(map.get_tile(7, 0), TileType::Empty);
    assert_eq!(map.get_tile(0, 1), TileType::Empty);
}

#[test]
fn every_resource_is_reachable_after_generation() {
    for seed in [3u32, 11, 99, 2024] {
        let map = WorldMap::new(&noise_levels(seed));
        let hub = (map.station_x, map.station_y);
        for y in 0..MAP_SIZE {
            for x in 0..MAP_SIZE {
                if is_resource(map.get_tile(x, y)) {
                    let path = find_path(&map, hub, (x, y));
                    assert!(!path.is_empty());
                    assert_eq!(*path.back().unwrap(), (x, y));
                }
            }
        }
    }
}

#[test]
fn walled_off_resource_gets_a_carved_route() {
    let mut levels = flat_levels(900);
    levels[0][0] = 400;
    let map = WorldMap::new(&levels);
    assert_eq!(map.get_tile(0, 0), TileType::Energy);
    let path = find_path(&map, (10, 10), (0, 0));
    assert!(!path.is_empty());
    assert_eq!(*path.back().unwrap(), (0, 0));
}

#[test]
fn out_of_bounds_reads_as_obstacle() {
    let map = empty_map();
    assert_eq!(map.get_tile(MAP_SIZE, 0), TileType::Obstacle);
    assert_eq!(map.get_tile(0, MAP_SIZE), TileType::Obstacle);
    assert_eq!(map.get_tile(usize::MAX, usize::MAX), TileType::Obstacle);
    assert!(!map.is_valid_position(MAP_SIZE, 3));
    assert!(map.is_valid_position(3, 3));
}

#[test]
fn obstacle_is_not_a_valid_position() {
    let mut map = empty_map();
    map.tiles[2][3] = TileType::Obstacle;
    assert!(!map.is_valid_position(3, 2));
    assert!(map.is_valid_position(2, 3));
}

#[test]
fn consuming_twice_leaves_empty_both_times() {
    let mut map = empty_map();
    map.tiles[4][5] = TileType::Mineral;
    map.consume_resource(5, 4);
    assert_eq!(map.get_tile(5, 4), TileType::Empty);
    map.consume_resource(5, 4);
    assert_eq!(map.get_tile(5, 4), TileType::Empty);
}

#[test]
fn consuming_a_non_resource_changes_nothing() {
    let mut map = empty_map();
    map.tiles[4][5] = TileType::Obstacle;
    map.consume_resource(5, 4);
    assert_eq!(map.get_tile(5, 4), TileType::Obstacle);
    map.consume_resource(MAP_SIZE + 3, 4);
    assert_eq!(map.get_tile(5, 4), TileType::Obstacle);
}

#[test]
fn resource_counts_and_collection_check() {
    let mut map = empty_map();
    assert!(map.are_all_resources_collected());
    map.tiles[0][0] = TileType::Energy;
    map.tiles[0][1] = TileType::Energy;
    map.tiles[5][5] = TileType::Scientific;
    assert_eq!(map.count_tiles(TileType::Energy), 2);
    assert_eq!(map.count_tiles(TileType::Scientific), 1);
    assert_eq!(map.count_tiles(TileType::Mineral), 0);
    assert!(!map.are_all_resources_collected());
}

#[test]
fn path_to_self_is_empty() {
    let map = empty_map();
    assert!(find_path(&map, (4, 4), (4, 4)).is_empty());
}

#[test]
fn path_to_reachable_goal_ends_there() {
    let map = empty_map();
    let path = find_path(&map, (0, 0), (5, 3));
    assert!(path.len() >= 5);
    assert_eq!(*path.back().unwrap(), (5, 3));
    let cells: Vec<(usize, usize)> = path.iter().cloned().collect();
    for i in 0..cells.len() {
        assert_ne!(cells[i], (0, 0));
        for j in i + 1..cells.len() {
            assert_ne!(cells[i], cells[j]);
        }
    }
    let mut prev = (0usize, 0usize);
    for &(x, y) in path.iter() {
        let dx = (x as isize - prev.0 as isize).abs();
        let dy = (y as isize - prev.1 as isize).abs();
        assert!(dx <= 1 && dy <= 1 && (dx + dy) > 0);
        assert!(map.is_valid_position(x, y));
        prev = (x, y);
    }
}

#[test]
fn path_goes_around_a_wall() {
    let mut map = empty_map();
    for y in 0..19 {
        map.tiles[y][3] = TileType::Obstacle;
    }
    let path = find_path(&map, (0, 0), (6, 0));
    assert!(!path.is_empty());
    assert_eq!(*path.back().unwrap(), (6, 0));
    assert!(path.contains(&(3, 19)));
}

#[test]
fn path_to_unreachable_goal_is_empty() {
    let mut map = empty_map();
    for y in 0..MAP_SIZE {
        map.tiles[y][3] = TileType::Obstacle;
    }
    assert!(find_path(&map, (0, 0), (6, 0)).is_empty());
    assert!(find_path(&map, (0, 0), (3, 5)).is_empty());
    assert!(find_path(&map, (0, 0), (MAP_SIZE, 0)).is_empty());
}
