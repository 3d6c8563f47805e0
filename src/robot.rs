//! Robots: position, energy, inventory, role and mode, a private
//! exploration memory and a planned route; path planning and the per-tick
//! behaviour state machine.
//!
//! Energy is counted in tenths of a unit, so that every cost and capacity
//! is a whole number.
use vstd::prelude::*;
use std::collections::VecDeque;
use crate::types::{MAP_SIZE, TileType, RobotType, RobotMode, is_resource};
use crate::grid::{Pos, in_bounds, adjacent, manhattan, chebyshev, neighbor, neighbor_spec, manhattan_distance,
    chebyshev_distance, lemma_neighbor_is_adjacent};
use crate::map::{WorldMap, harvested, lemma_connected_refl, lemma_connected_step, lemma_connected_mono,
    lemma_connected_sym, lemma_changes_keep_passable, lemma_connected_ends};
use crate::pathfinding::{find_path, is_route};
use crate::memory::{TerrainData, grid_wf, cell, all_explored_spec, explored_count,
    unexplored_are_zero, bounded_by, grows_into, lemma_merge_keeps_agent,
    merge_cell, conflicts, lemma_merge_monotonic,
    unexplored_record, blank_memory, count_explored, all_explored};
use crate::station::Station;
use crate::rng::{chance, random_below};

verus! {

/// Energy lost every tick, in tenths.
pub const METABOLISM_COST: u32 = 1;

/// Energy restored by harvesting one energy tile, in tenths.
pub const ENERGY_HARVEST: u32 = 100;

/// Inventory at which a mineral collector heads home.
pub const MINERAL_CAP: u32 = 5;

/// Inventory at which a scientific collector heads home.
pub const SCIENCE_CAP: u32 = 3;

/// Manhattan distance within which a collector goes for a known resource.
pub const DETECTION_DISTANCE: usize = 5;

/// Manhattan distance within which a collector looks for unexplored cells.
pub const COLLECTOR_SCAN_RANGE: usize = 3;

/// Energy capacity of a role, in tenths.
pub open spec fn max_energy_of(t: RobotType) -> u32 {
    match t {
        RobotType::Explorer => 800,
        RobotType::EnergyCollector => 1200,
        RobotType::MineralCollector => 1000,
        RobotType::ScientificCollector => 600,
    }
}

/// Energy spent per cell of movement, in tenths.
pub open spec fn move_cost_of(t: RobotType) -> u32 {
    match t {
        RobotType::Explorer => 3,
        RobotType::EnergyCollector => 4,
        RobotType::MineralCollector => 5,
        RobotType::ScientificCollector => 6,
    }
}

/// Radius of the square a robot senses around itself every tick.
pub open spec fn vision_range_of(t: RobotType) -> usize {
    match t {
        RobotType::Explorer => 4,
        _ => 2,
    }
}

/// The resource a role harvests; explorers harvest nothing.
pub open spec fn target_resource_of(t: RobotType) -> Option<TileType> {
    match t {
        RobotType::Explorer => None,
        RobotType::EnergyCollector => Some(TileType::Energy),
        RobotType::MineralCollector => Some(TileType::Mineral),
        RobotType::ScientificCollector => Some(TileType::Scientific),
    }
}


/// Terminal glyph of a role.
pub open spec fn display_char_of(t: RobotType) -> Seq<char> {
    match t {
        RobotType::Explorer => "\u{1f916}"@,
        RobotType::EnergyCollector => "\u{1f50b}"@,
        RobotType::MineralCollector => "\u{26cf}\u{fe0f}"@,
        RobotType::ScientificCollector => "\u{1f9ea}"@,
    }
}

/// Terminal colour code of a role: bright red, green, magenta and blue.
pub open spec fn display_color_of(t: RobotType) -> u8 {
    match t {
        RobotType::Explorer => 9,
        RobotType::EnergyCollector => 10,
        RobotType::MineralCollector => 13,
        RobotType::ScientificCollector => 12,
    }
}

/// Energy capacity of a role, in tenths.
pub fn max_energy_for(t: RobotType) -> (r: u32)
    ensures
        r == max_energy_of(t),
{
    match t {
        RobotType::Explorer => 800,
        RobotType::EnergyCollector => 1200,
        RobotType::MineralCollector => 1000,
        RobotType::ScientificCollector => 600,
    }
}

/// Energy spent per cell of movement, in tenths.
pub fn move_cost_for(t: RobotType) -> (r: u32)
    ensures
        r == move_cost_of(t),
{
    match t {
        RobotType::Explorer => 3,
        RobotType::EnergyCollector => 4,
        RobotType::MineralCollector => 5,
        RobotType::ScientificCollector => 6,
    }
}

/// Radius of the square a role senses around itself.
pub fn vision_range_for(t: RobotType) -> (r: usize)
    ensures
        r == vision_range_of(t),
{
    match t {
        RobotType::Explorer => 4,
        _ => 2,
    }
}

/// The resource a role harvests.
pub fn target_resource_for(t: RobotType) -> (r: Option<TileType>)
    ensures
        r == target_resource_of(t),
{
    match t {
        RobotType::Explorer => None,
        RobotType::EnergyCollector => Some(TileType::Energy),
        RobotType::MineralCollector => Some(TileType::Mineral),
        RobotType::ScientificCollector => Some(TileType::Scientific),
    }
}

/// What sensing writes into a cell: a stamp replaces an unexplored or older
/// record.
pub open spec fn sensed(old: TerrainData, stamp: TerrainData) -> TerrainData {
    if !old.explored || old.timestamp < stamp.timestamp {
        stamp
    } else {
        old
    }
}

/// `q` holds a tile of `kind` and, when `require_known`, is explored in `known`.
pub open spec fn is_candidate(
    map: &WorldMap,
    known: Seq<Vec<TerrainData>>,
    require_known: bool,
    kind: TileType,
    q: Pos,
) -> bool {
    &&& in_bounds(q)
    &&& map.tile_at(q) == kind
    &&& require_known ==> cell(known, q).explored
}

/// `r` is a candidate nearest to `from` by Manhattan distance, or `None`
/// when there is no candidate.
pub open spec fn is_nearest(
    map: &WorldMap,
    known: Seq<Vec<TerrainData>>,
    require_known: bool,
    kind: TileType,
    from: Pos,
    r: Option<Pos>,
) -> bool {
    match r {
        None => forall|q: Pos| !#[trigger] is_candidate(map, known, require_known, kind, q),
        Some(p) => {
            &&& is_candidate(map, known, require_known, kind, p)
            &&& forall|q: Pos|
                #[trigger] is_candidate(map, known, require_known, kind, q) ==> manhattan(from, p)
                    <= manhattan(from, q)
        },
    }
}

/// The nearest cell to `from` that holds `kind` (and, when `require_known`,
/// is explored in `known`); among equally near cells, the first found
/// scanning rows top to bottom.
fn nearest_tile(
    map: &WorldMap,
    from: Pos,
    kind: TileType,
    known: &Vec<Vec<TerrainData>>,
    require_known: bool,
) -> (r: Option<Pos>)
    requires
        map.wf(),
        grid_wf(known@),
        in_bounds(from),
    ensures
        is_nearest(map, known@, require_known, kind, from, r),
{
    let mut nearest: Option<Pos> = None;
    let mut min_distance: usize = usize::MAX;
    let mut y: usize = 0;
    while y < MAP_SIZE
        invariant
            map.wf(),
            grid_wf(known@),
            in_bounds(from),
            y <= MAP_SIZE,
            nearest.is_none() ==> min_distance == usize::MAX,
            nearest.is_none() ==> forall|q: Pos|
                #[trigger] is_candidate(map, known@, require_known, kind, q) ==> q.1 >= y,
            nearest.is_some() ==> {
                &&& is_candidate(map, known@, require_known, kind, nearest.unwrap())
                &&& min_distance as int == manhattan(from, nearest.unwrap())
                &&& forall|q: Pos|
                    #[trigger] is_candidate(map, known@, require_known, kind, q) && q.1 < y
                        ==> min_distance <= manhattan(from, q)
            },
        decreases MAP_SIZE - y,
    {
        let mut x: usize = 0;
        while x < MAP_SIZE
            invariant
                map.wf(),
                grid_wf(known@),
                in_bounds(from),
                y < MAP_SIZE,
                x <= MAP_SIZE,
                nearest.is_none() ==> min_distance == usize::MAX,
                nearest.is_none() ==> forall|q: Pos|
                    #[trigger] is_candidate(map, known@, require_known, kind, q) ==> (q.1 > y || (
                    q.1 == y && q.0 >= x)),
                nearest.is_some() ==> {
                    &&& is_candidate(map, known@, require_known, kind, nearest.unwrap())
                    &&& min_distance as int == manhattan(from, nearest.unwrap())
                    &&& forall|q: Pos|
                        #[trigger] is_candidate(map, known@, require_known, kind, q) && (q.1 < y || (
                        q.1 == y && q.0 < x)) ==> min_distance <= manhattan(from, q)
                },
            decreases MAP_SIZE - x,
        {
            if map.tiles[y][x] == kind && (!require_known || known[y][x].explored) {
                let d = manhattan_distance(from, (x, y));
                if d < min_distance {
                    min_distance = d;
                    nearest = Some((x, y));
                }
                proof {
                    assert(is_candidate(map, known@, require_known, kind, (x, y)));
                }
            } else {
                proof {
                    assert(!is_candidate(map, known@, require_known, kind, (x, y)));
                }
            }
            x = x + 1;
        }
        y = y + 1;
    }
    nearest
}

/// Energy left after spending `cost` from `energy`, stopping at zero.
pub open spec fn spend(energy: u32, cost: int) -> u32 {
    if energy >= cost {
        (energy - cost) as u32
    } else {
        0
    }
}

/// Whether a robot of role `t` with `energy` of capacity `max` harvests a
/// tile `tile` it stands on: an energy collector only while not full.
pub open spec fn harvests(t: RobotType, tile: TileType, energy: u32, max: u32) -> bool {
    ||| (t == RobotType::EnergyCollector && tile == TileType::Energy && energy < max)
    ||| (t == RobotType::MineralCollector && tile == TileType::Mineral)
    ||| (t == RobotType::ScientificCollector && tile == TileType::Scientific)
}

/// Whether the role matches the resource of the tile it stands on.
pub open spec fn can_collect(t: RobotType, tile: TileType) -> bool {
    ||| (t == RobotType::EnergyCollector && tile == TileType::Energy)
    ||| (t == RobotType::MineralCollector && tile == TileType::Mineral)
    ||| (t == RobotType::ScientificCollector && tile == TileType::Scientific)
}

/// Harvesting a tile twice gains nothing the second time: once harvested,
/// the tile matches no collector and yields nothing, and harvesting it again
/// leaves it as it is.
pub proof fn lemma_second_harvest_gains_nothing(t: RobotType, tile: TileType, energy: u32, max: u32)
    ensures
        !can_collect(t, harvested(tile)),
        !harvests(t, harvested(tile), energy, max),
        harvested(harvested(tile)) == harvested(tile),
        is_resource(tile) ==> harvested(tile) == TileType::Empty,
{
}

/// The entries of `v` whose key is `k`, in their order in `v`.
pub open spec fn with_key(v: Seq<(Pos, usize)>, k: int) -> Seq<(Pos, usize)>
    decreases v.len(),
{
    if v.len() == 0 {
        Seq::empty()
    } else if v.last().1 == k {
        with_key(v.drop_last(), k).push(v.last())
    } else {
        with_key(v.drop_last(), k)
    }
}

/// The entries of `v` with a key below `bound`, ordered by key, smallest
/// first; entries of equal key keep their order in `v`.
pub open spec fn stable_order(v: Seq<(Pos, usize)>, bound: int) -> Seq<(Pos, usize)>
    decreases bound,
{
    if bound <= 0 {
        Seq::empty()
    } else {
        stable_order(v, bound - 1) + with_key(v, bound - 1)
    }
}

/// Number of entries of `v` with a key below `k`.
pub open spec fn count_below(v: Seq<(Pos, usize)>, k: int) -> nat
    decreases v.len(),
{
    if v.len() == 0 {
        0
    } else {
        count_below(v.drop_last(), k) + if v.last().1 < k {
            1nat
        } else {
            0nat
        }
    }
}

proof fn lemma_with_key_len(v: Seq<(Pos, usize)>, k: int)
    ensures
        with_key(v, k).len() + count_below(v, k) == count_below(v, k + 1),
    decreases v.len(),
{
    if v.len() > 0 {
        lemma_with_key_len(v.drop_last(), k);
    }
}

proof fn lemma_count_below_zero(v: Seq<(Pos, usize)>)
    ensures
        count_below(v, 0) == 0,
    decreases v.len(),
{
    if v.len() > 0 {
        lemma_count_below_zero(v.drop_last());
    }
}

proof fn lemma_count_below_all(v: Seq<(Pos, usize)>, b: int)
    requires
        forall|i: int| 0 <= i < v.len() ==> (#[trigger] v[i]).1 < b,
    ensures
        count_below(v, b) == v.len(),
    decreases v.len(),
{
    if v.len() > 0 {
        let w = v.drop_last();
        assert forall|i: int| 0 <= i < w.len() implies (#[trigger] w[i]).1 < b by {
            assert(w[i] == v[i]);
        }
        lemma_count_below_all(w, b);
    }
}

/// Ordering by key keeps every entry whose key is below the bound.
pub proof fn lemma_stable_order_len(v: Seq<(Pos, usize)>, b: int)
    requires
        b >= 0,
        forall|i: int| 0 <= i < v.len() ==> (#[trigger] v[i]).1 < b,
    ensures
        stable_order(v, b).len() == v.len(),
{
    lemma_stable_order_count(v, b);
    lemma_count_below_all(v, b);
}

proof fn lemma_stable_order_count(v: Seq<(Pos, usize)>, b: int)
    requires
        b >= 0,
    ensures
        stable_order(v, b).len() == count_below(v, b),
    decreases b,
{
    if b == 0 {
        lemma_count_below_zero(v);
    } else {
        lemma_stable_order_count(v, b - 1);
        lemma_with_key_len(v, b - 1);
    }
}

proof fn lemma_with_key_keeps(v: Seq<(Pos, usize)>, k: int, p: spec_fn(Pos) -> bool)
    requires
        forall|i: int| 0 <= i < v.len() ==> p((#[trigger] v[i]).0),
    ensures
        forall|j: int| 0 <= j < with_key(v, k).len() ==> p((#[trigger] with_key(v, k)[j]).0),
    decreases v.len(),
{
    if v.len() > 0 {
        let w = v.drop_last();
        assert forall|i: int| 0 <= i < w.len() implies p((#[trigger] w[i]).0) by {
            assert(w[i] == v[i]);
        }
        lemma_with_key_keeps(w, k, p);
        assert(p(v[v.len() - 1].0));
        let prev = with_key(w, k);
        assert forall|j: int| 0 <= j < with_key(v, k).len() implies p(
            (#[trigger] with_key(v, k)[j]).0,
        ) by {
            if j < prev.len() {
                assert(with_key(v, k)[j] == prev[j]);
            }
        }
    }
}

/// Every entry of the ordering is an entry of `v`, so what holds of all
/// positions of `v` holds of all positions of the ordering.
pub proof fn lemma_stable_order_keeps(v: Seq<(Pos, usize)>, b: int, p: spec_fn(Pos) -> bool)
    requires
        forall|i: int| 0 <= i < v.len() ==> p((#[trigger] v[i]).0),
    ensures
        forall|j: int|
            0 <= j < stable_order(v, b).len() ==> p((#[trigger] stable_order(v, b)[j]).0),
    decreases b,
{
    if b > 0 {
        lemma_stable_order_keeps(v, b - 1, p);
        lemma_with_key_keeps(v, b - 1, p);
        let prev = stable_order(v, b - 1);
        let tail = with_key(v, b - 1);
        assert forall|j: int| 0 <= j < stable_order(v, b).len() implies p(
            (#[trigger] stable_order(v, b)[j]).0,
        ) by {
            if j < prev.len() {
                assert(stable_order(v, b)[j] == prev[j]);
            } else {
                assert(stable_order(v, b)[j] == tail[j - prev.len()]);
            }
        }
    }
}

/// Orders the entries by key, smallest first, entries of equal key keeping
/// their order (all keys must lie below `bound`).
fn order_by_key(v: &Vec<(Pos, usize)>, bound: usize) -> (r: Vec<(Pos, usize)>)
    requires
        forall|i: int| 0 <= i < v@.len() ==> (#[trigger] v@[i]).1 < bound,
    ensures
        r@ == stable_order(v@, bound as int),
        r@.len() == v@.len(),
{
    let mut out: Vec<(Pos, usize)> = Vec::new();
    let mut k: usize = 0;
    while k < bound
        invariant
            k <= bound,
            out@ == stable_order(v@, k as int),
        decreases bound - k,
    {
        let mut i: usize = 0;
        while i < v.len()
            invariant
                k < bound,
                i <= v@.len(),
                out@ == stable_order(v@, k as int) + with_key(v@.take(i as int), k as int),
            decreases v@.len() - i,
        {
            proof {
                assert(v@.take(i + 1).drop_last() =~= v@.take(i as int));
                assert(v@.take(i + 1).last() == v@[i as int]);
            }
            if v[i].1 == k {
                out.push(v[i]);
            }
            proof {
                assert(out@ =~= stable_order(v@, k as int) + with_key(v@.take(i + 1), k as int));
            }
            i = i + 1;
        }
        proof {
            assert(v@.take(v@.len() as int) =~= v@);
        }
        k = k + 1;
    }
    proof {
        lemma_stable_order_len(v@, bound as int);
    }
    out
}

/// Position in the ranked list of `n` candidates that the weighted walk
/// takes, from its draws: the best one when `take_best` (drawn 3 in 5),
/// else the second when `take_second` (drawn 3 in 10) and there are two,
/// else the third when there are three, else the uniform draw `draw`
/// (which lies below `n` when drawn; the last position otherwise).
pub open spec fn walk_choice_spec(n: int, take_best: bool, take_second: bool, draw: int) -> int {
    if take_best {
        0
    } else if take_second && n > 1 {
        1
    } else if n > 2 {
        2
    } else if draw < n {
        draw
    } else {
        n - 1
    }
}

/// Position in the ranked candidates that the weighted walk takes.
pub fn walk_choice(n: usize, take_best: bool, take_second: bool, draw: usize) -> (r: usize)
    requires
        n > 0,
    ensures
        r as int == walk_choice_spec(n as int, take_best, take_second, draw as int),
        r < n,
{
    if take_best {
        0
    } else if take_second && n > 1 {
        1
    } else if n > 2 {
        2
    } else if draw < n {
        draw
    } else {
        n - 1
    }
}

/// The passable cells among the first `k` cells of the 3x3 block around `c`.
pub open spec fn neighbors_upto(map: &WorldMap, c: Pos, k: int) -> Seq<Pos>
    decreases k,
{
    if k <= 0 {
        Seq::empty()
    } else {
        let prev = neighbors_upto(map, c, k - 1);
        match neighbor_spec(c, k - 1) {
            Some(d) => if map.passable(d) {
                prev.push(d)
            } else {
                prev
            },
            None => prev,
        }
    }
}

/// The passable cells around `c`, rows top to bottom, each left to right.
pub open spec fn open_neighbors_spec(map: &WorldMap, c: Pos) -> Seq<Pos> {
    neighbors_upto(map, c, 9)
}

/// The unexplored cells of the first `n` of row `y` (in `memory`), each
/// with its Manhattan distance from `from`, kept only within `limit`.
pub open spec fn row_unexplored(
    memory: Seq<Vec<TerrainData>>,
    from: Pos,
    limit: Option<usize>,
    y: int,
    n: int,
) -> Seq<(Pos, usize)>
    decreases n,
{
    if n <= 0 {
        Seq::empty()
    } else {
        let prev = row_unexplored(memory, from, limit, y, n - 1);
        let q: Pos = ((n - 1) as usize, y as usize);
        if !cell(memory, q).explored && (limit.is_none() || manhattan(from, q) <= limit.unwrap()) {
            prev.push((q, manhattan(from, q) as usize))
        } else {
            prev
        }
    }
}

/// The unexplored cells of the first `m` rows, row by row.
pub open spec fn grid_unexplored(
    memory: Seq<Vec<TerrainData>>,
    from: Pos,
    limit: Option<usize>,
    m: int,
) -> Seq<(Pos, usize)>
    decreases m,
{
    if m <= 0 {
        Seq::empty()
    } else {
        grid_unexplored(memory, from, limit, m - 1) + row_unexplored(
            memory,
            from,
            limit,
            m - 1,
            MAP_SIZE as int,
        )
    }
}

/// Rank key of cell `q` in the weighted walk (smaller ranks first): 0 for a
/// cell never explored in `memory`, else 100 minus its age at the last
/// synchronisation `last_sync`, the age counting at most 50.
pub open spec fn walk_key(memory: Seq<Vec<TerrainData>>, last_sync: u32, q: Pos) -> usize {
    let c = cell(memory, q);
    if !c.explored {
        0
    } else {
        let age: int = if last_sync >= c.timestamp {
            last_sync - c.timestamp
        } else {
            0
        };
        (100 - if age < 50 {
            age
        } else {
            50
        }) as usize
    }
}

/// The cells `ns`, each with its walk key.
pub open spec fn walk_entries(memory: Seq<Vec<TerrainData>>, last_sync: u32, ns: Seq<Pos>) -> Seq<
    (Pos, usize),
> {
    ns.map_values(|q: Pos| (q, walk_key(memory, last_sync, q)))
}

/// The passable neighbours of `pos` in the order the weighted walk ranks them.
pub open spec fn walk_order(
    memory: Seq<Vec<TerrainData>>,
    last_sync: u32,
    map: &WorldMap,
    pos: Pos,
) -> Seq<(Pos, usize)> {
    stable_order(walk_entries(memory, last_sync, open_neighbors_spec(map, pos)), 101)
}

/// The neighbour of `pos` that the weighted walk takes for the given draws,
/// or `None` when no neighbour is passable.
pub open spec fn walk_target_spec(
    memory: Seq<Vec<TerrainData>>,
    last_sync: u32,
    map: &WorldMap,
    pos: Pos,
    take_best: bool,
    take_second: bool,
    draw: int,
) -> Option<Pos> {
    let o = walk_order(memory, last_sync, map, pos);
    if o.len() == 0 {
        None
    } else {
        Some(o[walk_choice_spec(o.len() as int, take_best, take_second, draw)].0)
    }
}

/// An autonomous robot. `energy` and `max_energy` are in tenths of a unit.
pub struct Robot {
    pub x: usize,
    pub y: usize,
    pub energy: u32,
    pub max_energy: u32,
    pub minerals: u32,
    pub scientific_data: u32,
    pub robot_type: RobotType,
    pub mode: RobotMode,
    pub memory: Vec<Vec<TerrainData>>,
    pub path_to_station: VecDeque<Pos>,
    pub id: usize,
    pub home_station_x: usize,
    pub home_station_y: usize,
    pub last_sync_time: u32,
    pub exploration_complete_announced: bool,
}

impl Robot {
    pub open spec fn pos(&self) -> Pos {
        (self.x, self.y)
    }

    pub open spec fn home(&self) -> Pos {
        (self.home_station_x, self.home_station_y)
    }

    /// The robot stands on a passable cell of `map` that the hub can reach,
    /// every waypoint of its route can be reached from the hub too, its
    /// energy is within its role's capacity, its inventory within the caps
    /// (and empty for the resources its role does not collect), and its
    /// memory's unexplored cells carry timestamp zero,
    /// its home is the hub and its memory is a full grid.
    pub open spec fn wf(&self, map: &WorldMap) -> bool {
        &&& grid_wf(self.memory@)
        &&& unexplored_are_zero(self.memory@)
        &&& map.passable(self.pos())
        &&& self.max_energy == max_energy_of(self.robot_type)
        &&& self.energy <= self.max_energy
        &&& self.minerals <= MINERAL_CAP
        &&& self.scientific_data <= SCIENCE_CAP
        &&& self.robot_type != RobotType::MineralCollector ==> self.minerals == 0
        &&& self.robot_type != RobotType::ScientificCollector ==> self.scientific_data == 0
        &&& self.home() == map.station()
        &&& map.connected(self.home(), self.pos())
        &&& forall|i: int|
            0 <= i < self.path_to_station@.len() ==> map.connected(
                self.home(),
                #[trigger] self.path_to_station@[i],
            )
    }

    /// Whether the robot's own memory has every cell explored.
    pub open spec fn map_complete(&self) -> bool {
        all_explored_spec(self.memory@)
    }

    /// The return trigger: energy below 30% of capacity, a full inventory
    /// (mineral or scientific role), or, for an explorer, a complete map.
    pub open spec fn should_return(&self) -> bool {
        ||| (self.robot_type == RobotType::Explorer && self.map_complete())
        ||| self.energy * 10 < self.max_energy * 3
        ||| (self.robot_type == RobotType::MineralCollector && self.minerals >= MINERAL_CAP)
        ||| (self.robot_type == RobotType::ScientificCollector && self.scientific_data
            >= SCIENCE_CAP)
    }

    /// The fields that describe the robot itself, rather than its memory,
    /// position, energy or plans, are as in `old`.
    pub open spec fn same_identity(&self, old: &Robot) -> bool {
        &&& self.robot_type == old.robot_type
        &&& self.max_energy == old.max_energy
        &&& self.id == old.id
        &&& self.home() == old.home()
    }

    /// The record this robot writes when it senses a cell at tick `now`.
    pub open spec fn stamp(&self, now: u32) -> TerrainData {
        TerrainData {
            explored: true,
            timestamp: now,
            robot_id: self.id,
            robot_type: self.robot_type,
        }
    }

    /// `p` lies in the square the robot senses around itself.
    pub open spec fn in_vision(&self, p: Pos) -> bool {
        chebyshev(p, self.pos()) <= vision_range_of(self.robot_type)
    }

    /// Everything but the position and the energy is as in `old`.
    pub open spec fn same_but_place(&self, old: &Robot) -> bool {
        &&& self.same_identity(old)
        &&& self.memory@ == old.memory@
        &&& self.path_to_station@ == old.path_to_station@
        &&& self.mode == old.mode
        &&& self.minerals == old.minerals
        &&& self.scientific_data == old.scientific_data
        &&& self.last_sync_time == old.last_sync_time
    }

    /// Every field but the memory is as in `old`.
    pub open spec fn same_but_memory(&self, old: &Robot) -> bool {
        &&& self.same_identity(old)
        &&& self.pos() == old.pos()
        &&& self.energy == old.energy
        &&& self.path_to_station@ == old.path_to_station@
        &&& self.mode == old.mode
        &&& self.minerals == old.minerals
        &&& self.scientific_data == old.scientific_data
        &&& self.last_sync_time == old.last_sync_time
    }

    /// Whether the robot's own memory has every cell explored.
    pub fn is_exploration_complete(&self) -> (r: bool)
        requires
            grid_wf(self.memory@),
        ensures
            r == self.map_complete(),
    {
        all_explored(&self.memory)
    }

    /// Share of the map that the robot's own memory knows as explored, in
    /// whole percent rounded down.
    pub fn get_exploration_percentage(&self) -> (r: u32)
        requires
            grid_wf(self.memory@),
        ensures
            r as int == crate::station::percent_of(explored_count(self.memory@) as int),
            r <= 100,
    {
        let n = count_explored(&self.memory);
        proof {
            assert(n * 100 / 400 <= 100) by (nonlinear_arith)
                requires
                    n <= 400,
            ;
        }
        (n * 100 / (MAP_SIZE * MAP_SIZE)) as u32
    }

    /// The return trigger, evaluated on the robot's current state.
    pub fn should_return_to_station(&self) -> (r: bool)
        requires
            grid_wf(self.memory@),
            self.energy <= self.max_energy,
            self.max_energy <= 1200,
        ensures
            r == self.should_return(),
    {
        if self.robot_type == RobotType::Explorer {
            if self.is_exploration_complete() {
                return true;
            }
        }
        if self.energy * 10 < self.max_energy * 3 {
            return true;
        }
        match self.robot_type {
            RobotType::MineralCollector => self.minerals >= MINERAL_CAP,
            RobotType::ScientificCollector => self.scientific_data >= SCIENCE_CAP,
            _ => false,
        }
    }

    /// Moves to `(x, y)`, paying the role's movement cost times the
    /// Chebyshev distance of the move; energy stops at zero.
    fn move_to(&mut self, x: usize, y: usize)
        requires
            in_bounds(old(self).pos()),
            in_bounds((x, y)),
        ensures
            final(self).pos() == (x, y),
            final(self).energy as int == if old(self).energy >= move_cost_of(old(self).robot_type)
                * chebyshev(old(self).pos(), (x, y)) {
                old(self).energy - move_cost_of(old(self).robot_type) * chebyshev(
                    old(self).pos(),
                    (x, y),
                )
            } else {
                0
            },
            final(self).same_but_place(&*old(self)),
    {
        let distance = chebyshev_distance((self.x, self.y), (x, y)) as u32;
        let energy_cost = move_cost_for(self.robot_type) * distance;
        self.energy = self.energy.saturating_sub(energy_cost);
        self.x = x;
        self.y = y;
    }

    /// Plans the route home.
    fn plan_path_to_station(&mut self, map: &WorldMap)
        requires
            old(self).wf(map),
            map.wf(),
        ensures
            final(self).wf(map),
            final(self).pos() == old(self).pos(),
            final(self).energy == old(self).energy,
            final(self).memory@ == old(self).memory@,
            final(self).mode == old(self).mode,
            final(self).minerals == old(self).minerals,
            final(self).scientific_data == old(self).scientific_data,
            final(self).last_sync_time == old(self).last_sync_time,
            final(self).same_identity(&*old(self)),
            old(self).pos() != old(self).home() ==> final(self).path_to_station@.len() > 0,
    {
        let target = (self.home_station_x, self.home_station_y);
        let path = find_path(map, (self.x, self.y), target);
        proof {
            lemma_route_reachable(map, self.home(), self.pos(), path@);
            lemma_connected_sym(map, self.home(), self.pos());
        }
        self.path_to_station = path;
    }

    /// Senses the surroundings at the hub's current tick: the robot's own
    /// cell is stamped, and so is every cell of the square of its vision
    /// range that is unexplored or older in its memory.
    pub fn update_memory(&mut self, map: &WorldMap, station: &Station)
        requires
            grid_wf(old(self).memory@),
            in_bounds(old(self).pos()),
        ensures
            grid_wf(final(self).memory@),
            forall|p: Pos|
                in_bounds(p) ==> #[trigger] cell(final(self).memory@, p) == if p == old(self).pos() {
                    old(self).stamp(station.current_time)
                } else if old(self).in_vision(p) {
                    sensed(cell(old(self).memory@, p), old(self).stamp(station.current_time))
                } else {
                    cell(old(self).memory@, p)
                },
            final(self).same_but_memory(&*old(self)),
    {
        let _ = map;
        let stamp = TerrainData {
            explored: true,
            timestamp: station.current_time,
            robot_id: self.id,
            robot_type: self.robot_type,
        };
        let ghost old_mem = self.memory@;
        let ghost pos = self.pos();
        self.memory[self.y][self.x] = stamp;
        let ghost base = self.memory@;
        proof {
            assert forall|p: Pos| in_bounds(p) implies #[trigger] cell(base, p) == if p == pos {
                stamp
            } else {
                cell(old_mem, p)
            } by {
                if p.1 == pos.1 && p != pos {
                    assert(base[p.1 as int]@[p.0 as int] == old_mem[p.1 as int]@[p.0 as int]);
                }
            }
        }
        let range = vision_range_for(self.robot_type);
        let lo_x: usize = if self.x >= range {
            self.x - range
        } else {
            0
        };
        let lo_y: usize = if self.y >= range {
            self.y - range
        } else {
            0
        };
        let hi_x: usize = if self.x + range < MAP_SIZE {
            self.x + range
        } else {
            MAP_SIZE - 1
        };
        let hi_y: usize = if self.y + range < MAP_SIZE {
            self.y + range
        } else {
            MAP_SIZE - 1
        };
        let mut ny: usize = lo_y;
        while ny <= hi_y
            invariant
                grid_wf(self.memory@),
                grid_wf(base),
                self.same_but_memory(&*old(self)),
                pos == old(self).pos(),
                in_bounds(pos),
                stamp == old(self).stamp(station.current_time),
                lo_x <= hi_x,
                lo_x == if pos.0 >= vision_range_of(old(self).robot_type) {
                    pos.0 - vision_range_of(old(self).robot_type)
                } else {
                    0
                },
                lo_y == if pos.1 >= vision_range_of(old(self).robot_type) {
                    pos.1 - vision_range_of(old(self).robot_type)
                } else {
                    0
                },
                hi_x == if pos.0 + vision_range_of(old(self).robot_type) < MAP_SIZE {
                    pos.0 + vision_range_of(old(self).robot_type)
                } else {
                    MAP_SIZE - 1
                },
                hi_y == if pos.1 + vision_range_of(old(self).robot_type) < MAP_SIZE {
                    pos.1 + vision_range_of(old(self).robot_type)
                } else {
                    MAP_SIZE - 1
                },
                lo_y <= ny <= hi_y + 1,
                hi_y < MAP_SIZE,
                hi_x < MAP_SIZE,
                forall|p: Pos|
                    in_bounds(p) ==> #[trigger] cell(self.memory@, p) == if lo_x <= p.0 <= hi_x
                        && lo_y <= p.1 < ny {
                        sensed(cell(base, p), stamp)
                    } else {
                        cell(base, p)
                    },
            decreases hi_y + 1 - ny,
        {
            let mut nx: usize = lo_x;
            while nx <= hi_x
                invariant
                    grid_wf(self.memory@),
                    grid_wf(base),
                    self.same_but_memory(&*old(self)),
                    stamp == old(self).stamp(station.current_time),
                    lo_y <= ny <= hi_y,
                    lo_x <= nx <= hi_x + 1,
                    hi_y < MAP_SIZE,
                    hi_x < MAP_SIZE,
                    forall|p: Pos|
                        in_bounds(p) ==> #[trigger] cell(self.memory@, p) == if lo_x <= p.0 <= hi_x
                            && (lo_y <= p.1 < ny || (p.1 == ny && p.0 < nx)) {
                            sensed(cell(base, p), stamp)
                        } else {
                            cell(base, p)
                        },
                decreases hi_x + 1 - nx,
            {
                let ghost before = self.memory@;
                let c = self.memory[ny][nx];
                proof {
                    assert(c == cell(before, (nx, ny)));
                    assert(c == cell(base, (nx, ny)));
                }
                if !c.explored || c.timestamp < stamp.timestamp {
                    self.memory[ny][nx] = stamp;
                }
                proof {
                    assert forall|p: Pos| in_bounds(p) && p != (nx, ny) implies #[trigger] cell(
                        self.memory@,
                        p,
                    ) == cell(before, p) by {
                        if p.1 == ny {
                            assert(self.memory@[p.1 as int]@[p.0 as int]
                                == before[p.1 as int]@[p.0 as int]);
                        }
                    }
                    assert(cell(self.memory@, (nx, ny)) == sensed(cell(base, (nx, ny)), stamp));
                }
                nx = nx + 1;
            }
            ny = ny + 1;
        }
    }

    /// Nearest cell holding this role's resource among the cells the robot
    /// knows as explored (its own sightings and, since its last visit home,
    /// everything the hub knew), by Manhattan distance; `None` for an
    /// explorer or when no such cell is known.
    pub fn find_nearest_resource(&self, map: &WorldMap) -> (r: Option<Pos>)
        requires
            map.wf(),
            grid_wf(self.memory@),
            in_bounds(self.pos()),
        ensures
            match target_resource_of(self.robot_type) {
                None => r.is_none(),
                Some(kind) => is_nearest(map, self.memory@, true, kind, self.pos(), r),
            },
    {
        match target_resource_for(self.robot_type) {
            None => None,
            Some(kind) => nearest_tile(map, (self.x, self.y), kind, &self.memory, true),
        }
    }

    /// Nearest cell holding this role's resource among the cells the hub
    /// knows as explored; `None` for an explorer or when there is none.
    pub fn find_nearest_known_resource(&self, map: &WorldMap, station: &Station) -> (r: Option<
        Pos,
    >)
        requires
            map.wf(),
            station.wf(),
            in_bounds(self.pos()),
        ensures
            match target_resource_of(self.robot_type) {
                None => r.is_none(),
                Some(kind) => is_nearest(map, station.global_memory@, true, kind, self.pos(), r),
            },
    {
        match target_resource_for(self.robot_type) {
            None => None,
            Some(kind) => nearest_tile(map, (self.x, self.y), kind, &station.global_memory, true),
        }
    }

    /// The emergency rescue: a robot out of energy is brought home, its
    /// battery half filled, and set idle. A robot with energy left is
    /// untouched.
    pub fn rescue_if_depleted(&mut self, map: &WorldMap)
        requires
            old(self).wf(map),
            map.wf(),
        ensures
            final(self).wf(map),
            old(self).energy == 0 ==> {
                &&& final(self).pos() == old(self).home()
                &&& final(self).energy == old(self).max_energy / 2
                &&& final(self).mode == RobotMode::Idle
            },
            old(self).energy > 0 ==> final(self).pos() == old(self).pos() && final(self).energy
                == old(self).energy && final(self).mode == old(self).mode,
            final(self).memory@ == old(self).memory@,
            final(self).minerals == old(self).minerals,
            final(self).scientific_data == old(self).scientific_data,
            final(self).last_sync_time == old(self).last_sync_time,
            final(self).same_identity(&*old(self)),
    {
        if self.energy == 0 {
            self.x = self.home_station_x;
            self.y = self.home_station_y;
            self.energy = self.max_energy / 2;
            self.mode = RobotMode::Idle;
            proof {
                lemma_connected_refl(map, map.station());
            }
        }
    }

    /// The robot moved one cell, paying its movement cost, or stayed where
    /// it was with its energy untouched; nothing else changed.
    pub open spec fn stepped_from(&self, old: &Robot) -> bool {
        &&& self.same_but_place(old)
        &&& ((self.pos() == old.pos() && self.energy == old.energy) || (adjacent(
            old.pos(),
            self.pos(),
        ) && self.energy == spend(old.energy, move_cost_of(old.robot_type) as int)))
    }

    /// Takes one step onto an adjacent passable cell.
    fn step_to(&mut self, map: &WorldMap, next: Pos)
        requires
            old(self).wf(map),
            map.wf(),
            adjacent(old(self).pos(), next),
            map.passable(next),
        ensures
            final(self).wf(map),
            final(self).pos() == next,
            final(self).stepped_from(&*old(self)),
    {
        proof {
            lemma_connected_step(map, self.home(), self.pos(), next);
            assert(chebyshev(self.pos(), next) == 1) by {
                if next.0 == self.x && next.1 == self.y {
                    assert(next == self.pos());
                }
            }
        }
        self.move_to(next.0, next.1);
    }

    /// Moves along the first cell of a route planned from here.
    fn step_along(&mut self, map: &WorldMap, path: &VecDeque<Pos>) -> (moved: bool)
        requires
            old(self).wf(map),
            map.wf(),
            is_route(map, old(self).pos(), path@),
        ensures
            final(self).wf(map),
            final(self).stepped_from(&*old(self)),
            moved == (path@.len() > 0),
            moved ==> final(self).pos() == path@[0],
            !moved ==> final(self).pos() == old(self).pos(),
    {
        if path.len() > 0 {
            let next = path[0];
            self.step_to(map, next);
            true
        } else {
            false
        }
    }

    /// The cells this robot's memory leaves unexplored, row by row, each
    /// with its Manhattan distance from the robot, kept only within `limit`.
    pub open spec fn unexplored_spec(&self, limit: Option<usize>) -> Seq<(Pos, usize)> {
        grid_unexplored(self.memory@, self.pos(), limit, MAP_SIZE as int)
    }

    /// `new` is `old` after a weighted-walk step: onto the neighbour chosen
    /// for some draws, paying the movement cost, or, with no passable
    /// neighbour, where it was.
    pub open spec fn walked_from(&self, old: &Robot, map: &WorldMap) -> bool {
        if open_neighbors_spec(map, old.pos()).len() == 0 {
            self.pos() == old.pos() && self.energy == old.energy
        } else {
            &&& adjacent(old.pos(), self.pos())
            &&& map.passable(self.pos())
            &&& self.energy == spend(old.energy, move_cost_of(old.robot_type) as int)
            &&& exists|take_best: bool, take_second: bool, draw: int|
                0 <= draw < open_neighbors_spec(map, old.pos()).len() && #[trigger] walk_target_spec(
                    old.memory@,
                    old.last_sync_time,
                    map,
                    old.pos(),
                    take_best,
                    take_second,
                    draw,
                ) == Some(self.pos())
        }
    }

    /// `new` is `old` one step along a route towards `target`: on an
    /// adjacent cell from which `target` is reachable, having paid the
    /// movement cost.
    pub open spec fn stepped_towards(&self, old: &Robot, map: &WorldMap, target: Pos) -> bool {
        &&& adjacent(old.pos(), self.pos())
        &&& map.connected(self.pos(), target)
        &&& self.energy == spend(old.energy, move_cost_of(old.robot_type) as int)
    }

    /// Cells this robot's memory leaves unexplored, each with its Manhattan
    /// distance from the robot, optionally only those within `limit`.
    fn unexplored_cells(&self, limit: Option<usize>) -> (r: Vec<(Pos, usize)>)
        requires
            grid_wf(self.memory@),
            in_bounds(self.pos()),
        ensures
            r@ == self.unexplored_spec(limit),
            forall|i: int|
                0 <= i < r@.len() ==> in_bounds((#[trigger] r@[i]).0) && r@[i].1 < 40 && (
                limit.is_some() ==> r@[i].1 <= limit.unwrap()),
    {
        let mut cells: Vec<(Pos, usize)> = Vec::new();
        let mut y: usize = 0;
        while y < MAP_SIZE
            invariant
                grid_wf(self.memory@),
                in_bounds(self.pos()),
                y <= MAP_SIZE,
                cells@ == grid_unexplored(self.memory@, self.pos(), limit, y as int),
                forall|i: int|
                    0 <= i < cells@.len() ==> in_bounds((#[trigger] cells@[i]).0) && cells@[i].1
                        < 40 && (limit.is_some() ==> cells@[i].1 <= limit.unwrap()),
            decreases MAP_SIZE - y,
        {
            let mut x: usize = 0;
            while x < MAP_SIZE
                invariant
                    grid_wf(self.memory@),
                    in_bounds(self.pos()),
                    y < MAP_SIZE,
                    x <= MAP_SIZE,
                    cells@ == grid_unexplored(self.memory@, self.pos(), limit, y as int)
                        + row_unexplored(self.memory@, self.pos(), limit, y as int, x as int),
                    forall|i: int|
                        0 <= i < cells@.len() ==> in_bounds((#[trigger] cells@[i]).0)
                            && cells@[i].1 < 40 && (limit.is_some() ==> cells@[i].1
                            <= limit.unwrap()),
                decreases MAP_SIZE - x,
            {
                let ghost before = cells@;
                if !self.memory[y][x].explored {
                    let distance = manhattan_distance((self.x, self.y), (x, y));
                    let within = match limit {
                        None => true,
                        Some(l) => distance <= l,
                    };
                    if within {
                        cells.push(((x, y), distance));
                    }
                }
                proof {
                    assert(cells@ =~= grid_unexplored(self.memory@, self.pos(), limit, y as int)
                        + row_unexplored(self.memory@, self.pos(), limit, y as int, x + 1));
                }
                x = x + 1;
            }
            proof {
                assert(cells@ =~= grid_unexplored(self.memory@, self.pos(), limit, y + 1));
            }
            y = y + 1;
        }
        cells
    }

    /// The passable cells around the robot, in scanning order.
    fn open_neighbors(&self, map: &WorldMap) -> (r: Vec<Pos>)
        requires
            map.wf(),
            in_bounds(self.pos()),
        ensures
            r@ == open_neighbors_spec(map, self.pos()),
            forall|i: int|
                0 <= i < r@.len() ==> adjacent(self.pos(), #[trigger] r@[i]) && map.passable(r@[i]),
    {
        let mut moves: Vec<Pos> = Vec::new();
        let mut k: usize = 0;
        while k < 9
            invariant
                map.wf(),
                in_bounds(self.pos()),
                k <= 9,
                moves@ == neighbors_upto(map, self.pos(), k as int),
                forall|i: int|
                    0 <= i < moves@.len() ==> adjacent(self.pos(), #[trigger] moves@[i])
                        && map.passable(moves@[i]),
            decreases 9 - k,
        {
            if let Some(nb) = neighbor((self.x, self.y), k) {
                proof {
                    lemma_neighbor_is_adjacent(self.pos(), k as int);
                }
                if map.is_valid_position(nb.0, nb.1) {
                    moves.push(nb);
                    proof {
                        assert(moves@[moves@.len() - 1] == nb);
                    }
                }
            }
            k = k + 1;
        }
        moves
    }

    /// The passable neighbours, each with its walk key.
    fn walk_candidates(&self, map: &WorldMap) -> (r: Vec<(Pos, usize)>)
        requires
            map.wf(),
            grid_wf(self.memory@),
            in_bounds(self.pos()),
        ensures
            r@ == walk_entries(self.memory@, self.last_sync_time, open_neighbors_spec(map, self.pos())),
            forall|i: int| 0 <= i < r@.len() ==> (#[trigger] r@[i]).1 <= 100,
    {
        let neighbors = self.open_neighbors(map);
        let mut entries: Vec<(Pos, usize)> = Vec::new();
        let mut i: usize = 0;
        while i < neighbors.len()
            invariant
                grid_wf(self.memory@),
                i <= neighbors@.len(),
                neighbors@ == open_neighbors_spec(map, self.pos()),
                forall|j: int|
                    0 <= j < neighbors@.len() ==> in_bounds(#[trigger] neighbors@[j]) && map.passable(
                        neighbors@[j],
                    ),
                entries@ == walk_entries(self.memory@, self.last_sync_time, neighbors@.take(i as int)),
                forall|j: int| 0 <= j < entries@.len() ==> (#[trigger] entries@[j]).1 <= 100,
            decreases neighbors@.len() - i,
        {
            let nb = neighbors[i];
            let record = self.memory[nb.1][nb.0];
            let priority: usize = if !record.explored {
                100
            } else {
                let age = self.last_sync_time.saturating_sub(record.timestamp);
                if age < 50 {
                    age as usize
                } else {
                    50
                }
            };
            entries.push((nb, 100 - priority));
            proof {
                assert(entries@ =~= walk_entries(self.memory@, self.last_sync_time, neighbors@.take(i + 1)));
            }
            i = i + 1;
        }
        proof {
            assert(neighbors@.take(neighbors@.len() as int) =~= neighbors@);
        }
        entries
    }

    /// The neighbour that the weighted walk takes for the given draws: the
    /// passable neighbours ranked by walk key (never explored first, then
    /// the longest unseen at the last synchronisation), ties kept in scanning
    /// order, and the position chosen by `walk_choice`. `None` when no
    /// neighbour is passable.
    pub fn walk_target(&self, map: &WorldMap, take_best: bool, take_second: bool, draw: usize) -> (r:
        Option<Pos>)
        requires
            map.wf(),
            grid_wf(self.memory@),
            in_bounds(self.pos()),
        ensures
            r == walk_target_spec(
                self.memory@,
                self.last_sync_time,
                map,
                self.pos(),
                take_best,
                take_second,
                draw as int,
            ),
    {
        let entries = self.walk_candidates(map);
        let ordered = order_by_key(&entries, 101);
        if ordered.len() == 0 {
            return None;
        }
        let i = walk_choice(ordered.len(), take_best, take_second, draw);
        Some(ordered[i].0)
    }

    /// Explorer movement: heads for one of the three unexplored cells
    /// nearest to it (chosen at random, so that explorers spread out), or
    /// falls back to the weighted random walk.
    fn explorer_specific_move(&mut self, map: &WorldMap)
        requires
            old(self).wf(map),
            map.wf(),
        ensures
            final(self).wf(map),
            final(self).same_but_place(&*old(self)),
            ({
                let o = stable_order(old(self).unexplored_spec(None), 40);
                let m = if o.len() < 3 {
                    o.len() as int
                } else {
                    3
                };
                ||| exists|j: int|
                    0 <= j < m && final(self).stepped_towards(&*old(self), map, #[trigger] o[j].0)
                ||| final(self).walked_from(&*old(self), map)
            }),
    {
        let ghost start = *self;
        let unexplored = self.unexplored_cells(None);
        if unexplored.len() > 0 {
            let ordered = order_by_key(&unexplored, 40);
            let candidates: usize = if ordered.len() < 3 {
                ordered.len()
            } else {
                3
            };
            let target_idx = random_below(candidates);
            let target = ordered[target_idx].0;
            let path = find_path(map, (self.x, self.y), target);
            if self.step_along(map, &path) {
                proof {
                    lemma_route_front_connects(map, start.pos(), path@);
                    assert(self.stepped_towards(&start, map, ordered@[target_idx as int].0));
                }
                return;
            }
        }
        self.intelligent_random_move(map);
    }

    /// Weighted random walk: neighbours never explored rank first, then
    /// those seen longest before the last synchronisation; the best is taken
    /// most often, the second and third less often (see `walk_target`).
    fn intelligent_random_move(&mut self, map: &WorldMap)
        requires
            old(self).wf(map),
            map.wf(),
        ensures
            final(self).wf(map),
            final(self).same_but_place(&*old(self)),
            final(self).walked_from(&*old(self), map),
    {
        let ghost start = *self;
        let n = self.open_neighbors(map).len();
        if n == 0 {
            return;
        }
        let take_best = chance(3, 5);
        let take_second = chance(3, 10);
        let draw = random_below(n);
        let target = self.walk_target(map, take_best, take_second, draw);
        proof {
            let ns = open_neighbors_spec(map, start.pos());
            let entries = walk_entries(start.memory@, start.last_sync_time, ns);
            assert forall|i: int| 0 <= i < entries.len() implies (#[trigger] entries[i]).1 < 101 by {
                assert(entries[i] == (ns[i], walk_key(start.memory@, start.last_sync_time, ns[i])));
            }
            lemma_stable_order_len(entries, 101);
            let p = |q: Pos| adjacent(start.pos(), q) && map.passable(q);
            assert forall|i: int| 0 <= i < entries.len() implies p((#[trigger] entries[i]).0) by {
                assert(entries[i].0 == ns[i]);
            }
            lemma_stable_order_keeps(entries, 101, p);
            let o = walk_order(start.memory@, start.last_sync_time, map, start.pos());
            let c = walk_choice_spec(o.len() as int, take_best, take_second, draw as int);
            assert(p(o[c].0));
        }
        if let Some(next) = target {
            self.step_to(map, next);
            proof {
                assert(walk_target_spec(
                    start.memory@,
                    start.last_sync_time,
                    map,
                    start.pos(),
                    take_best,
                    take_second,
                    draw as int,
                ) == Some(self.pos()));
            }
        }
    }

    /// Collector movement: heads for the nearest unexplored cell within
    /// `COLLECTOR_SCAN_RANGE` (the first found among equally near ones),
    /// or otherwise takes a uniformly random step.
    fn standard_explore_move(&mut self, map: &WorldMap)
        requires
            old(self).wf(map),
            map.wf(),
        ensures
            final(self).wf(map),
            final(self).same_but_place(&*old(self)),
            ({
                let o = stable_order(old(self).unexplored_spec(Some(COLLECTOR_SCAN_RANGE)), 4);
                let ns = open_neighbors_spec(map, old(self).pos());
                if o.len() > 0 && o[0].0 != old(self).pos() && map.connected(
                    old(self).pos(),
                    o[0].0,
                ) {
                    final(self).stepped_towards(&*old(self), map, o[0].0)
                } else if ns.len() > 0 {
                    &&& ns.contains(final(self).pos())
                    &&& adjacent(old(self).pos(), final(self).pos())
                    &&& final(self).energy == spend(
                        old(self).energy,
                        move_cost_of(old(self).robot_type) as int,
                    )
                } else {
                    final(self).pos() == old(self).pos() && final(self).energy == old(self).energy
                }
            }),
    {
        let ghost start = *self;
        let unexplored = self.unexplored_cells(Some(COLLECTOR_SCAN_RANGE));
        let ghost o = stable_order(start.unexplored_spec(Some(COLLECTOR_SCAN_RANGE)), 4);
        if unexplored.len() > 0 {
            let ordered = order_by_key(&unexplored, 4);
            let target = ordered[0].0;
            let path = find_path(map, (self.x, self.y), target);
            if self.step_along(map, &path) {
                proof {
                    lemma_route_front_connects(map, start.pos(), path@);
                }
                return;
            }
            proof {
                assert(o[0].0 == target);
                assert(self.pos() == start.pos() && self.energy == start.energy);
            }
        }
        proof {
            if unexplored@.len() == 0 {
                lemma_stable_order_len(unexplored@, 4);
            }
            assert(!(o.len() > 0 && o[0].0 != start.pos() && map.connected(start.pos(), o[0].0)));
        }
        let possible_moves = self.open_neighbors(map);
        if possible_moves.len() > 0 {
            let d = random_below(possible_moves.len());
            let next = possible_moves[d];
            self.step_to(map, next);
            proof {
                assert(possible_moves@[d as int] == self.pos());
                assert(open_neighbors_spec(map, start.pos()).contains(self.pos()));
                assert(adjacent(start.pos(), self.pos()));
                assert(self.energy == spend(start.energy, move_cost_of(start.robot_type) as int));
            }
        }
    }

    /// One exploration step, by role.
    fn explore_move(&mut self, map: &WorldMap)
        requires
            old(self).wf(map),
            map.wf(),
        ensures
            final(self).wf(map),
            final(self).stepped_from(&*old(self)),
    {
        if self.robot_type == RobotType::Explorer {
            self.explorer_specific_move(map);
        } else {
            self.standard_explore_move(map);
        }
    }

    /// Harvests the tile under the robot when its role matches it (an
    /// energy collector restores `ENERGY_HARVEST` up to its capacity, and
    /// only when not full; the other collectors add one unit to their
    /// inventory) and empties that tile; with nothing to harvest it takes an
    /// exploration step instead. It then aims at the nearest remaining
    /// resource of its role, or heads home when none is left.
    fn collect_resources(&mut self, map: &mut WorldMap)
        requires
            old(self).wf(&*old(map)),
            old(map).wf(),
            old(self).robot_type == RobotType::MineralCollector ==> old(self).minerals
                < MINERAL_CAP,
            old(self).robot_type == RobotType::ScientificCollector ==> old(self).scientific_data
                < SCIENCE_CAP,
        ensures
            final(self).wf(&*final(map)),
            final(map).harvested_from(&*old(map)),
            final(self).same_identity(&*old(self)),
            final(self).memory@ == old(self).memory@,
            final(self).last_sync_time == old(self).last_sync_time,
            ({
                let tile = old(map).tile_at(old(self).pos());
                if harvests(old(self).robot_type, tile, old(self).energy, old(self).max_energy) {
                    &&& final(map).tile_at(old(self).pos()) == TileType::Empty
                    &&& forall|p: Pos|
                        p != old(self).pos() ==> #[trigger] final(map).tile_at(p) == old(
                            map,
                        ).tile_at(p)
                    &&& final(self).pos() == old(self).pos()
                } else {
                    &&& forall|p: Pos| #[trigger] final(map).tile_at(p) == old(map).tile_at(p)
                }
            }),
            final(self).minerals == old(self).minerals + if old(self).robot_type
                == RobotType::MineralCollector && old(map).tile_at(old(self).pos())
                == TileType::Mineral {
                1int
            } else {
                0int
            },
            final(self).scientific_data == old(self).scientific_data + if old(self).robot_type
                == RobotType::ScientificCollector && old(map).tile_at(old(self).pos())
                == TileType::Scientific {
                1int
            } else {
                0int
            },
            old(self).robot_type != RobotType::Explorer ==> exists|r: Option<Pos>|
                #[trigger] is_nearest(
                    &*final(map),
                    final(self).memory@,
                    true,
                    target_resource_of(old(self).robot_type).unwrap(),
                    final(self).pos(),
                    r,
                ) && match r {
                    Some(q) => {
                        &&& final(self).mode == old(self).mode
                        &&& is_route(&*final(map), final(self).pos(), final(self).path_to_station@)
                        &&& (final(self).path_to_station@.len() > 0
                            ==> final(self).path_to_station@.last() == q)
                        &&& (final(self).pos() != q && final(map).connected(final(self).pos(), q)
                            ==> final(self).path_to_station@.len() > 0)
                    },
                    None => {
                        &&& final(self).mode == RobotMode::ReturnToStation
                        &&& (final(self).pos() != final(self).home()
                            ==> final(self).path_to_station@.len() > 0)
                    },
                },
            old(self).robot_type == RobotType::EnergyCollector && old(map).tile_at(old(self).pos())
                == TileType::Energy && old(self).energy < old(self).max_energy ==> final(self).energy
                == if old(self).energy + ENERGY_HARVEST <= old(self).max_energy {
                old(self).energy + ENERGY_HARVEST
            } else {
                old(self).max_energy as int
            },
    {
        let ghost map0 = *map;
        let tile = map.get_tile(self.x, self.y);
        if self.robot_type == RobotType::EnergyCollector && tile == TileType::Energy {
            if self.energy < self.max_energy {
                self.energy = if self.energy + ENERGY_HARVEST <= self.max_energy {
                    self.energy + ENERGY_HARVEST
                } else {
                    self.max_energy
                };
                map.consume_resource(self.x, self.y);
            }
        } else if self.robot_type == RobotType::MineralCollector && tile == TileType::Mineral {
            self.minerals = self.minerals + 1;
            map.consume_resource(self.x, self.y);
        } else if self.robot_type == RobotType::ScientificCollector && tile
            == TileType::Scientific {
            self.scientific_data = self.scientific_data + 1;
            map.consume_resource(self.x, self.y);
        } else {
            self.explore_move(map);
        }
        proof {
            if !harvests(self.robot_type, tile, old(self).energy, self.max_energy) {
                assert(map.tiles@ == map0.tiles@);
                lemma_changes_keep_passable(&map0, map);
            } else {
                lemma_changes_keep_passable(&map0, map);
            }
            lemma_wf_map_change(self, &map0, map);
        }
        let found = self.find_nearest_resource(map);
        let ghost nearest = found;
        match found {
            Some(resource_pos) => {
                let path = find_path(map, (self.x, self.y), resource_pos);
                proof {
                    lemma_route_reachable(map, self.home(), self.pos(), path@);
                }
                self.path_to_station = path;
            },
            None => {
                self.mode = RobotMode::ReturnToStation;
                self.plan_path_to_station(map);
            },
        }
        proof {
            if self.robot_type != RobotType::Explorer {
                assert(is_nearest(
                    map,
                    self.memory@,
                    true,
                    target_resource_of(self.robot_type).unwrap(),
                    self.pos(),
                    nearest,
                ));
            }
        }
    }

    /// Heads home when away from it (planning the route), or idles at home.
    fn return_or_idle(&mut self, map: &WorldMap)
        requires
            old(self).wf(map),
            map.wf(),
        ensures
            final(self).wf(map),
            final(self).pos() == old(self).pos(),
            final(self).energy == old(self).energy,
            final(self).memory@ == old(self).memory@,
            final(self).minerals == old(self).minerals,
            final(self).scientific_data == old(self).scientific_data,
            final(self).last_sync_time == old(self).last_sync_time,
            final(self).same_identity(&*old(self)),
            final(self).mode == if old(self).pos() == old(self).home() {
                RobotMode::Idle
            } else {
                RobotMode::ReturnToStation
            },
            old(self).pos() != old(self).home() ==> final(self).path_to_station@.len() > 0,
    {
        if self.x != self.home_station_x || self.y != self.home_station_y {
            self.mode = RobotMode::ReturnToStation;
            self.plan_path_to_station(map);
        } else {
            self.mode = RobotMode::Idle;
        }
    }

    /// Takes the next waypoint off the planned route and moves onto it.
    fn follow_path(&mut self, map: &WorldMap)
        requires
            old(self).wf(map),
            map.wf(),
            old(self).path_to_station@.len() > 0,
        ensures
            final(self).wf(map),
            final(self).pos() == old(self).path_to_station@[0],
            final(self).path_to_station@ == old(self).path_to_station@.drop_first(),
            final(self).memory@ == old(self).memory@,
            final(self).mode == old(self).mode,
            final(self).minerals == old(self).minerals,
            final(self).scientific_data == old(self).scientific_data,
            final(self).last_sync_time == old(self).last_sync_time,
            final(self).same_identity(&*old(self)),
            final(self).energy <= old(self).energy,
    {
        let ghost path0 = self.path_to_station@;
        let next = self.path_to_station.pop_front().unwrap();
        proof {
            assert(map.connected(self.home(), path0[0]));
            lemma_connected_ends(map, self.home(), next);
            assert forall|i: int| 0 <= i < self.path_to_station@.len() implies map.connected(
                self.home(),
                #[trigger] self.path_to_station@[i],
            ) by {
                assert(self.path_to_station@[i] == path0[i + 1]);
            }
        }
        self.move_to(next.0, next.1);
        proof {
            assert(self.path_to_station@ =~= path0.drop_first());
        }
    }

    /// A collector waits at the hub while exploration is below 30%, and a
    /// scientific collector also while it is below 60%.
    pub open spec fn gated(&self, station: &Station) -> bool {
        &&& self.robot_type != RobotType::Explorer
        &&& (station.percent() < 30 || (station.percent() < 60 && self.robot_type
            == RobotType::ScientificCollector))
    }

    /// The return trigger as it stands once this tick's metabolism is paid.
    pub open spec fn return_due(&self) -> bool {
        ||| (self.robot_type == RobotType::Explorer && self.map_complete())
        ||| spend(self.energy, METABOLISM_COST as int) * 10 < self.max_energy * 3
        ||| (self.robot_type == RobotType::MineralCollector && self.minerals >= MINERAL_CAP)
        ||| (self.robot_type == RobotType::ScientificCollector && self.scientific_data
            >= SCIENCE_CAP)
    }

    /// Runs one tick of the behaviour state machine.
    ///
    /// The robot pays its metabolism. A collector gated by exploration
    /// progress heads home or idles there, and does nothing else. Otherwise
    /// the return trigger sends it home; a collector that knows of no
    /// resource of its kind heads home too. At home it recharges, deposits
    /// its cargo, synchronises its memory once per tick, and picks its next
    /// mode. Then it acts on its mode (idle, explore, harvest or follow its
    /// route) and senses its surroundings.
    #[verifier::rlimit(100)]
    pub fn update(&mut self, map: &mut WorldMap, station: &mut Station)
        requires
            old(self).wf(&*old(map)),
            old(map).wf(),
            old(station).wf(),
            old(station).has_room(),
        ensures
            final(self).wf(&*final(map)),
            final(map).harvested_from(&*old(map)),
            final(station).wf(),
            final(station).current_time == old(station).current_time,
            final(station).next_robot_id == old(station).next_robot_id,
            final(self).same_identity(&*old(self)),
            old(self).gated(&*old(station)) ==> {
                &&& final(self).mode == if old(self).pos() == old(self).home() {
                    RobotMode::Idle
                } else {
                    RobotMode::ReturnToStation
                }
                &&& final(self).pos() == old(self).pos()
                &&& final(self).memory@ == old(self).memory@
                &&& final(self).minerals == old(self).minerals
                &&& final(self).scientific_data == old(self).scientific_data
                &&& final(map).tiles@ == old(map).tiles@
                &&& final(station).global_memory@ == old(station).global_memory@
                &&& final(station).conflict_count == old(station).conflict_count
            },
            ({
                let visits = !old(self).gated(&*old(station)) && old(self).pos() == old(self).home();
                &&& final(station).collected_minerals == old(station).collected_minerals + if visits {
                    old(self).minerals as int
                } else {
                    0int
                }
                &&& final(station).energy_reserves == old(station).energy_reserves + if visits {
                    old(self).minerals as int
                } else {
                    0int
                }
                &&& final(station).collected_scientific_data == old(
                    station,
                ).collected_scientific_data + if visits {
                    old(self).scientific_data as int
                } else {
                    0int
                }
                &&& if visits && old(station).current_time > old(self).last_sync_time {
                    &&& final(self).last_sync_time == old(station).current_time
                    &&& forall|p: Pos|
                        in_bounds(p) ==> #[trigger] cell(final(station).global_memory@, p)
                            == merge_cell(
                            cell(old(station).global_memory@, p),
                            cell(old(self).memory@, p),
                        )
                    &&& final(station).conflict_count == old(station).conflict_count + conflicts(
                        old(station).global_memory@,
                        old(self).memory@,
                    )
                } else {
                    &&& final(self).last_sync_time == old(self).last_sync_time
                    &&& final(station).global_memory@ == old(station).global_memory@
                    &&& final(station).conflict_count == old(station).conflict_count
                }
            }),
            !old(self).gated(&*old(station)) && old(self).pos() != old(self).home()
                && old(self).return_due() ==> {
                &&& final(self).mode == RobotMode::ReturnToStation
                &&& final(self).minerals == old(self).minerals
                &&& final(self).scientific_data == old(self).scientific_data
                &&& final(map).tiles@ == old(map).tiles@
            },
            bounded_by(old(self).memory@, old(station).current_time) && bounded_by(
                old(station).global_memory@,
                old(station).current_time,
            ) ==> grows_into(old(self).memory@, final(self).memory@),
            !old(self).gated(&*old(station)) && old(self).pos() == old(self).home()
                && old(map).tile_at(old(self).home()) == TileType::Empty ==> (final(self).minerals
                == 0 && final(self).scientific_data == 0),
            old(self).robot_type == RobotType::Explorer && old(self).pos() == old(self).home()
                && old(self).map_complete() ==> (final(self).mode == RobotMode::Idle
                && final(self).pos() == old(self).home()),
    {
        let ghost mem_start = self.memory@;
        let ghost now = station.current_time;
        let ghost bounded = bounded_by(mem_start, now) && bounded_by(station.global_memory@, now);
        self.energy = self.energy.saturating_sub(METABOLISM_COST);
        if self.robot_type == RobotType::Explorer {
            if self.is_exploration_complete() && !self.exploration_complete_announced {
                self.exploration_complete_announced = true;
            }
        }
        if self.robot_type != RobotType::Explorer {
            let exploration_percentage = station.get_exploration_percentage();
            if exploration_percentage < 30 || (exploration_percentage < 60 && self.robot_type
                == RobotType::ScientificCollector) {
                self.return_or_idle(map);
                proof {
                    assert(grows_into(mem_start, self.memory@));
                }
                return;
            }
        }
        if self.should_return_to_station() {
            self.mode = RobotMode::ReturnToStation;
            self.plan_path_to_station(map);
        }
        if self.robot_type != RobotType::Explorer && self.mode == RobotMode::Exploring {
            if self.find_nearest_known_resource(map, station).is_none() {
                self.return_or_idle(map);
            }
        }
        if self.x == self.home_station_x && self.y == self.home_station_y {
            self.energy = self.max_energy;
            station.deposit_resources(self.minerals, self.scientific_data);
            self.minerals = 0;
            self.scientific_data = 0;
            if station.current_time > self.last_sync_time {
                let ghost mem0 = self.memory@;
                let ghost hub0 = station.global_memory@;
                station.share_knowledge(self);
                proof {
                    assert forall|p: Pos| in_bounds(p) && cell(mem0, p).explored implies (
                    #[trigger] cell(self.memory@, p)).explored by {
                        assert(!cell(hub0, p).explored ==> cell(hub0, p).timestamp == 0);
                        lemma_merge_monotonic(cell(hub0, p), cell(mem0, p));
                    }
                    assert forall|p: Pos| in_bounds(p) implies (cell(mem0, p).explored ==> (
                    #[trigger] cell(self.memory@, p)).explored) && cell(self.memory@, p).timestamp
                        >= cell(mem0, p).timestamp && (bounded ==> cell(self.memory@, p).timestamp
                        <= now) by {
                        assert(!cell(mem0, p).explored ==> cell(mem0, p).timestamp == 0);
                        lemma_merge_keeps_agent(cell(hub0, p), cell(mem0, p), now);
                    }
                    assert forall|p: Pos| in_bounds(p) && !(#[trigger] cell(
                        self.memory@,
                        p,
                    )).explored implies cell(self.memory@, p).timestamp == 0 by {
                        assert(cell(self.memory@, p) == cell(station.global_memory@, p));
                    }
                }
                self.last_sync_time = station.current_time;
            }
            if self.robot_type == RobotType::Explorer {
                if self.is_exploration_complete() {
                    self.mode = RobotMode::Idle;
                } else {
                    self.mode = RobotMode::Exploring;
                }
            } else {
                match self.find_nearest_resource(map) {
                    Some(resource_pos) => {
                        let path = find_path(map, (self.x, self.y), resource_pos);
                        proof {
                            lemma_route_reachable(map, self.home(), self.pos(), path@);
                        }
                        self.path_to_station = path;
                        self.mode = RobotMode::Collecting;
                    },
                    None => {
                        self.mode = RobotMode::Idle;
                    },
                }
            }
        }
        proof {
            assert(grows_into(mem_start, self.memory@));
            assert(bounded ==> bounded_by(self.memory@, now));
            assert(unexplored_are_zero(self.memory@));
        }
        match self.mode {
            RobotMode::Idle => {
                if self.robot_type == RobotType::Explorer && self.is_exploration_complete() {
                    return;
                }
                if self.robot_type == RobotType::Explorer {
                    self.mode = RobotMode::Exploring;
                }
            },
            RobotMode::Exploring => {
                if self.robot_type == RobotType::Explorer && self.is_exploration_complete() {
                    self.mode = RobotMode::ReturnToStation;
                    self.plan_path_to_station(map);
                    return;
                }
                if self.robot_type != RobotType::Explorer {
                    if let Some(resource_pos) = self.find_nearest_resource(map) {
                        let distance = manhattan_distance((self.x, self.y), resource_pos);
                        if distance <= DETECTION_DISTANCE {
                            let path = find_path(map, (self.x, self.y), resource_pos);
                            proof {
                                lemma_route_reachable(map, self.home(), self.pos(), path@);
                            }
                            self.path_to_station = path;
                            self.mode = RobotMode::Collecting;
                            return;
                        }
                    }
                }
                self.explore_move(map);
            },
            RobotMode::Collecting => {
                let tile = map.get_tile(self.x, self.y);
                let can_collect = (self.robot_type == RobotType::EnergyCollector && tile
                    == TileType::Energy) || (self.robot_type == RobotType::MineralCollector && tile
                    == TileType::Mineral) || (self.robot_type == RobotType::ScientificCollector
                    && tile == TileType::Scientific);
                if can_collect {
                    self.collect_resources(map);
                } else if self.path_to_station.len() > 0 {
                    self.follow_path(map);
                } else {
                    match self.find_nearest_resource(map) {
                        Some(resource_pos) => {
                            let path = find_path(map, (self.x, self.y), resource_pos);
                            proof {
                                lemma_route_reachable(map, self.home(), self.pos(), path@);
                            }
                            self.path_to_station = path;
                        },
                        None => {
                            self.mode = RobotMode::ReturnToStation;
                            self.plan_path_to_station(map);
                        },
                    }
                }
            },
            RobotMode::ReturnToStation => {
                if self.path_to_station.len() > 0 {
                    self.follow_path(map);
                } else if self.x != self.home_station_x || self.y != self.home_station_y {
                    self.plan_path_to_station(map);
                    if self.path_to_station.len() > 0 {
                        self.follow_path(map);
                    } else {
                        self.mode = RobotMode::Exploring;
                    }
                } else {
                    self.mode = RobotMode::Idle;
                }
            },
        }
        let ghost mem_before = self.memory@;
        self.update_memory(map, station);
        proof {
            assert forall|p: Pos| in_bounds(p) implies (cell(mem_start, p).explored ==> (
            #[trigger] cell(self.memory@, p)).explored) && (bounded ==> cell(self.memory@, p).timestamp
                >= cell(mem_start, p).timestamp) by {
                assert(cell(mem_before, p).explored ==> cell(self.memory@, p).explored);
            }
            assert forall|p: Pos| in_bounds(p) && !(#[trigger] cell(self.memory@, p)).explored implies cell(
                self.memory@,
                p,
            ).timestamp == 0 by {
                assert(!cell(mem_before, p).explored);
            }
        }
    }

    /// Terminal glyph of the robot's role.
    pub fn get_display_char(&self) -> (r: &'static str)
        ensures
            r@ == display_char_of(self.robot_type),
    {
        match self.robot_type {
            RobotType::Explorer => "\u{1f916}",
            RobotType::EnergyCollector => "\u{1f50b}",
            RobotType::MineralCollector => "\u{26cf}\u{fe0f}",
            RobotType::ScientificCollector => "\u{1f9ea}",
        }
    }

    /// Terminal colour code (256-colour palette) of the robot's role.
    pub fn get_display_color(&self) -> (r: u8)
        ensures
            r == display_color_of(self.robot_type),
    {
        match self.robot_type {
            RobotType::Explorer => 9,
            RobotType::EnergyCollector => 10,
            RobotType::MineralCollector => 13,
            RobotType::ScientificCollector => 12,
        }
    }

    /// A robot at `(x, y)` with a full battery, an empty inventory, a blank
    /// memory, id 0 and its home at its starting cell.
    pub fn new(x: usize, y: usize, robot_type: RobotType) -> (r: Robot)
        ensures
            r.pos() == (x, y),
            r.home() == (x, y),
            r.robot_type == robot_type,
            r.max_energy == max_energy_of(robot_type),
            r.energy == r.max_energy,
            r.minerals == 0,
            r.scientific_data == 0,
            r.mode == RobotMode::Exploring,
            r.id == 0,
            r.last_sync_time == 0,
            r.path_to_station@.len() == 0,
            grid_wf(r.memory@),
            forall|p: Pos| in_bounds(p) ==> #[trigger] cell(r.memory@, p) == unexplored_record(),
    {
        let max_energy = max_energy_for(robot_type);
        Robot {
            x,
            y,
            energy: max_energy,
            max_energy,
            minerals: 0,
            scientific_data: 0,
            robot_type,
            mode: RobotMode::Exploring,
            memory: blank_memory(),
            path_to_station: VecDeque::new(),
            id: 0,
            home_station_x: x,
            home_station_y: y,
            last_sync_time: 0,
            exploration_complete_announced: false,
        }
    }

    /// A robot deployed by the hub: a full battery, an empty inventory and
    /// the given memory.
    pub fn new_with_memory(
        x: usize,
        y: usize,
        robot_type: RobotType,
        id: usize,
        station_x: usize,
        station_y: usize,
        memory: Vec<Vec<TerrainData>>,
    ) -> (r: Robot)
        ensures
            r.pos() == (x, y),
            r.home() == (station_x, station_y),
            r.robot_type == robot_type,
            r.max_energy == max_energy_of(robot_type),
            r.energy == r.max_energy,
            r.minerals == 0,
            r.scientific_data == 0,
            r.mode == RobotMode::Exploring,
            r.id == id,
            r.last_sync_time == 0,
            r.path_to_station@.len() == 0,
            r.memory@ == memory@,
    {
        let max_energy = max_energy_for(robot_type);
        Robot {
            x,
            y,
            energy: max_energy,
            max_energy,
            minerals: 0,
            scientific_data: 0,
            robot_type,
            mode: RobotMode::Exploring,
            memory,
            path_to_station: VecDeque::new(),
            id,
            home_station_x: station_x,
            home_station_y: station_y,
            last_sync_time: 0,
            exploration_complete_announced: false,
        }
    }
}

/// A route is itself a walk from its first cell to its last.
pub proof fn lemma_route_front_connects(map: &WorldMap, start: Pos, path: Seq<Pos>)
    requires
        is_route(map, start, path),
        path.len() > 0,
    ensures
        map.connected(path[0], path.last()),
{
    assert(map.is_walk(path));
}

/// A robot that is well formed on a map stays so once that map has only
/// lost obstacles or resources.
pub proof fn lemma_wf_map_change(r: &Robot, m1: &WorldMap, m2: &WorldMap)
    requires
        r.wf(m1),
        m2.wf(),
        m2.station() == m1.station(),
        m2.no_new_obstacles(m1),
    ensures
        r.wf(m2),
{
    lemma_connected_mono(m1, m2, r.home(), r.pos());
    assert forall|i: int| 0 <= i < r.path_to_station@.len() implies m2.connected(
        r.home(),
        #[trigger] r.path_to_station@[i],
    ) by {
        lemma_connected_mono(m1, m2, r.home(), r.path_to_station@[i]);
    }
}

/// Every cell of a route from a cell reachable from `home` is reachable
/// from `home`.
pub proof fn lemma_route_reachable(m: &WorldMap, home: Pos, start: Pos, path: Seq<Pos>)
    requires
        m.connected(home, start),
        is_route(m, start, path),
    ensures
        forall|i: int| 0 <= i < path.len() ==> m.connected(home, #[trigger] path[i]),
    decreases path.len(),
{
    if path.len() > 0 {
        let front = path.drop_last();
        assert forall|i: int| 0 <= i < front.len() implies m.passable(#[trigger] front[i]) by {
            assert(front[i] == path[i]);
        }
        assert forall|i: int| 0 <= i < front.len() - 1 implies adjacent(
            #[trigger] front[i],
            front[i + 1],
        ) by {
            assert(front[i] == path[i] && front[i + 1] == path[i + 1]);
        }
        lemma_route_reachable(m, home, start, front);
        let n = path.len() - 1;
        if n == 0 {
            lemma_connected_step(m, home, start, path[0]);
        } else {
            assert(front[n - 1] == path[n - 1]);
            assert(m.connected(home, path[n - 1]));
            assert(adjacent(path[n - 1], path[n]));
            lemma_connected_step(m, home, path[n - 1], path[n]);
        }
        assert forall|i: int| 0 <= i < path.len() implies m.connected(home, #[trigger] path[i]) by {
            if i < n {
                assert(front[i] == path[i]);
            }
        }
    }
}

} // verus!
