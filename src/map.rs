//! The world map: a square grid of tiles with the hub at its centre,
//! procedural generation with guaranteed reachability of every resource,
//! and bounds-safe queries.
use vstd::prelude::*;
use std::collections::VecDeque;
use crate::types::{MAP_SIZE, TileType, is_resource};
use crate::grid::{Pos, in_bounds, abs_diff, adjacent, manhattan, idx, neighbor, neighbor_spec, index_of, count_false, lemma_count_false_set, lemma_adjacent_is_neighbor, lemma_neighbor_is_adjacent, lemma_idx_injective};
use crate::rng::chance;

verus! {

/// Half-width of the square kept clear around the hub at generation.
pub const CLEARANCE_RADIUS: usize = 2;

/// The tile grid (`tiles[y][x]`) and the hub's coordinates.
pub struct WorldMap {
    pub tiles: Vec<Vec<TileType>>,
    pub station_x: usize,
    pub station_y: usize,
}

/// Tile band of a noise level given in thousandths: the highest band is an
/// obstacle, then energy, mineral, scientific, and empty ground.
pub open spec fn tile_of_level(v: int) -> TileType {
    if v > 500 {
        TileType::Obstacle
    } else if v > 300 {
        TileType::Energy
    } else if v > 100 {
        TileType::Mineral
    } else if v > 0 {
        TileType::Scientific
    } else {
        TileType::Empty
    }
}

/// What a tile becomes once harvested: a resource turns into empty ground,
/// anything else stays as it is.
pub open spec fn harvested(t: TileType) -> TileType {
    if is_resource(t) {
        TileType::Empty
    } else {
        t
    }
}

/// Cells of the square kept clear around the hub.
pub open spec fn in_clearance(p: Pos) -> bool {
    abs_diff(p.0, MAP_SIZE / 2) <= CLEARANCE_RADIUS && abs_diff(p.1, MAP_SIZE / 2)
        <= CLEARANCE_RADIUS
}

/// Number of tiles of `kind` among the first `n` of a row.
pub open spec fn row_tiles(r: Seq<TileType>, kind: TileType, n: int) -> nat
    decreases n,
{
    if n <= 0 {
        0
    } else {
        row_tiles(r, kind, n - 1) + if r[n - 1] == kind {
            1nat
        } else {
            0nat
        }
    }
}

/// Number of tiles of `kind` in the first `m` rows.
pub open spec fn grid_tiles(g: Seq<Vec<TileType>>, kind: TileType, m: int) -> nat
    decreases m,
{
    if m <= 0 {
        0
    } else {
        grid_tiles(g, kind, m - 1) + row_tiles(g[m - 1]@, kind, MAP_SIZE as int)
    }
}

pub proof fn lemma_row_tiles_bound(r: Seq<TileType>, kind: TileType, n: int)
    ensures
        row_tiles(r, kind, n) <= if n < 0 {
            0
        } else {
            n
        },
    decreases n,
{
    if n > 0 {
        lemma_row_tiles_bound(r, kind, n - 1);
    }
}

pub proof fn lemma_grid_tiles_bound(g: Seq<Vec<TileType>>, kind: TileType, m: int)
    ensures
        grid_tiles(g, kind, m) <= if m < 0 {
            0
        } else {
            m * MAP_SIZE
        },
    decreases m,
{
    if m > 0 {
        lemma_grid_tiles_bound(g, kind, m - 1);
        lemma_row_tiles_bound(g[m - 1]@, kind, MAP_SIZE as int);
    }
}

impl WorldMap {
    /// The grid is `MAP_SIZE` square, the hub sits at its centre and can be
    /// stood on.
    pub open spec fn wf(&self) -> bool {
        &&& self.tiles@.len() == MAP_SIZE
        &&& forall|y: int| 0 <= y < MAP_SIZE ==> (#[trigger] self.tiles@[y])@.len() == MAP_SIZE
        &&& self.station_x == MAP_SIZE / 2
        &&& self.station_y == MAP_SIZE / 2
        &&& self.passable(self.station())
    }

    pub open spec fn station(&self) -> Pos {
        (self.station_x, self.station_y)
    }

    /// The tile at `p`; any cell off the grid reads as an obstacle.
    pub open spec fn tile_at(&self, p: Pos) -> TileType {
        if in_bounds(p) {
            self.tiles@[p.1 as int]@[p.0 as int]
        } else {
            TileType::Obstacle
        }
    }

    /// A cell a robot may stand on: on the grid and not an obstacle.
    pub open spec fn passable(&self, p: Pos) -> bool {
        in_bounds(p) && self.tile_at(p) != TileType::Obstacle
    }

    /// A non-empty sequence of passable cells, each adjacent to the next.
    pub open spec fn is_walk(&self, w: Seq<Pos>) -> bool {
        &&& w.len() > 0
        &&& forall|i: int| 0 <= i < w.len() ==> self.passable(#[trigger] w[i])
        &&& forall|i: int| 0 <= i < w.len() - 1 ==> adjacent(#[trigger] w[i], w[i + 1])
    }

    /// `b` can be reached from `a` by 8-connected moves over passable cells.
    pub open spec fn connected(&self, a: Pos, b: Pos) -> bool {
        exists|w: Seq<Pos>| #[trigger] self.is_walk(w) && w[0] == a && w.last() == b
    }

    /// Every cell passable in `old` is passable here.
    pub open spec fn no_new_obstacles(&self, old: &WorldMap) -> bool {
        forall|p: Pos| old.passable(p) ==> #[trigger] self.passable(p)
    }

    /// This map differs from `old` only by harvested resources.
    pub open spec fn harvested_from(&self, old: &WorldMap) -> bool {
        &&& self.wf()
        &&& self.station() == old.station()
        &&& forall|p: Pos|
            #[trigger] self.tile_at(p) == old.tile_at(p) || (is_resource(old.tile_at(p))
                && self.tile_at(p) == TileType::Empty)
    }

    /// This map differs from `old` only by obstacles turned into empty ground.
    pub open spec fn carved_from(&self, old: &WorldMap) -> bool {
        &&& self.wf()
        &&& self.station() == old.station()
        &&& forall|p: Pos|
            #[trigger] self.tile_at(p) == old.tile_at(p) || (old.tile_at(p) == TileType::Obstacle
                && self.tile_at(p) == TileType::Empty)
    }

    /// Returns the tile at `(x, y)`, or `Obstacle` off the grid.
    pub fn get_tile(&self, x: usize, y: usize) -> (r: TileType)
        requires
            self.wf(),
        ensures
            r == self.tile_at((x, y)),
    {
        if x >= MAP_SIZE || y >= MAP_SIZE {
            return TileType::Obstacle;
        }
        self.tiles[y][x]
    }

    /// Whether a robot may stand on `(x, y)`.
    pub fn is_valid_position(&self, x: usize, y: usize) -> (r: bool)
        requires
            self.wf(),
        ensures
            r == self.passable((x, y)),
    {
        x < MAP_SIZE && y < MAP_SIZE && self.tiles[y][x] != TileType::Obstacle
    }

    /// Number of tiles of `kind` on the whole map.
    pub open spec fn tile_count(&self, kind: TileType) -> nat {
        grid_tiles(self.tiles@, kind, MAP_SIZE as int)
    }

    /// No resource of any kind is left on the map.
    pub open spec fn no_resources_left(&self) -> bool {
        forall|p: Pos| in_bounds(p) ==> !is_resource(#[trigger] self.tile_at(p))
    }

    /// Counts the tiles of `kind` on the map.
    pub fn count_tiles(&self, kind: TileType) -> (n: usize)
        requires
            self.wf(),
        ensures
            n as int == self.tile_count(kind),
            n <= MAP_SIZE * MAP_SIZE,
    {
        let mut n: usize = 0;
        let mut y: usize = 0;
        while y < MAP_SIZE
            invariant
                self.wf(),
                y <= MAP_SIZE,
                n as int == grid_tiles(self.tiles@, kind, y as int),
            decreases MAP_SIZE - y,
        {
            let mut x: usize = 0;
            proof {
                lemma_grid_tiles_bound(self.tiles@, kind, y as int);
            }
            while x < MAP_SIZE
                invariant
                    self.wf(),
                    y < MAP_SIZE,
                    x <= MAP_SIZE,
                    grid_tiles(self.tiles@, kind, y as int) <= y * MAP_SIZE,
                    n as int == grid_tiles(self.tiles@, kind, y as int) + row_tiles(
                        self.tiles@[y as int]@,
                        kind,
                        x as int,
                    ),
                decreases MAP_SIZE - x,
            {
                proof {
                    lemma_row_tiles_bound(self.tiles@[y as int]@, kind, x as int);
                }
                if self.tiles[y][x] == kind {
                    n = n + 1;
                }
                x = x + 1;
            }
            y = y + 1;
        }
        proof {
            lemma_grid_tiles_bound(self.tiles@, kind, MAP_SIZE as int);
        }
        n
    }

    /// Whether every resource of the map has been harvested.
    pub fn are_all_resources_collected(&self) -> (r: bool)
        requires
            self.wf(),
        ensures
            r == self.no_resources_left(),
    {
        let mut y: usize = 0;
        while y < MAP_SIZE
            invariant
                self.wf(),
                y <= MAP_SIZE,
                forall|p: Pos| in_bounds(p) && p.1 < y ==> !is_resource(#[trigger] self.tile_at(p)),
            decreases MAP_SIZE - y,
        {
            let mut x: usize = 0;
            while x < MAP_SIZE
                invariant
                    self.wf(),
                    y < MAP_SIZE,
                    x <= MAP_SIZE,
                    forall|p: Pos|
                        in_bounds(p) && (p.1 < y || (p.1 == y && p.0 < x)) ==> !is_resource(
                            #[trigger] self.tile_at(p),
                        ),
                decreases MAP_SIZE - x,
            {
                let t = self.tiles[y][x];
                if t == TileType::Energy || t == TileType::Mineral || t == TileType::Scientific {
                    proof {
                        assert(is_resource(self.tile_at((x, y))));
                    }
                    return false;
                }
                x = x + 1;
            }
            y = y + 1;
        }
        true
    }

    /// Harvests the tile at `(x, y)`: a resource becomes empty ground;
    /// any other tile, and any cell off the grid, is left alone.
    pub fn consume_resource(&mut self, x: usize, y: usize)
        requires
            old(self).wf(),
        ensures
            final(self).wf(),
            final(self).station() == old(self).station(),
            final(self).tile_at((x, y)) == harvested(old(self).tile_at((x, y))),
            forall|p: Pos| p != (x, y) ==> #[trigger] final(self).tile_at(p) == old(self).tile_at(p),
            final(self).harvested_from(&*old(self)),
    {
        if x < MAP_SIZE && y < MAP_SIZE {
            let t = self.tiles[y][x];
            if t == TileType::Energy || t == TileType::Mineral || t == TileType::Scientific {
                self.tiles[y][x] = TileType::Empty;
            }
        }
        proof {
            assert forall|p: Pos| p != (x, y) implies #[trigger] self.tile_at(p) == old(
                self,
            ).tile_at(p) by {
                if in_bounds(p) && p.1 == y {
                    assert(self.tiles@[p.1 as int]@[p.0 as int] == old(self).tiles@[p.1 as int]@[p.0 as int]);
                }
            }
        }
    }

    /// Sets the tile at an in-bounds cell to empty ground.
    fn set_empty(&mut self, x: usize, y: usize)
        requires
            old(self).wf(),
            in_bounds((x, y)),
        ensures
            final(self).wf(),
            final(self).station() == old(self).station(),
            final(self).tile_at((x, y)) == TileType::Empty,
            forall|p: Pos| p != (x, y) ==> #[trigger] final(self).tile_at(p) == old(self).tile_at(p),
    {
        self.tiles[y][x] = TileType::Empty;
        proof {
            assert forall|p: Pos| p != (x, y) implies #[trigger] self.tile_at(p) == old(
                self,
            ).tile_at(p) by {
                if in_bounds(p) && p.1 == y {
                    assert(self.tiles@[p.1 as int]@[p.0 as int] == old(self).tiles@[p.1 as int]@[p.0 as int]);
                }
            }
        }
    }

    /// Lists every resource cell of the grid, row by row.
    fn find_all_resources(&self) -> (r: Vec<Pos>)
        requires
            self.wf(),
        ensures
            forall|i: int|
                0 <= i < r@.len() ==> in_bounds(#[trigger] r@[i]) && is_resource(
                    self.tile_at(r@[i]),
                ),
            forall|p: Pos| in_bounds(p) && is_resource(#[trigger] self.tile_at(p)) ==> r@.contains(p),
    {
        let mut resources: Vec<Pos> = Vec::new();
        let mut y: usize = 0;
        while y < MAP_SIZE
            invariant
                self.wf(),
                y <= MAP_SIZE,
                forall|i: int|
                    0 <= i < resources@.len() ==> in_bounds(#[trigger] resources@[i])
                        && is_resource(self.tile_at(resources@[i])),
                forall|p: Pos|
                    in_bounds(p) && p.1 < y && is_resource(#[trigger] self.tile_at(p))
                        ==> resources@.contains(p),
            decreases MAP_SIZE - y,
        {
            let mut x: usize = 0;
            while x < MAP_SIZE
                invariant
                    self.wf(),
                    y < MAP_SIZE,
                    x <= MAP_SIZE,
                    forall|i: int|
                        0 <= i < resources@.len() ==> in_bounds(#[trigger] resources@[i])
                            && is_resource(self.tile_at(resources@[i])),
                    forall|p: Pos|
                        in_bounds(p) && (p.1 < y || (p.1 == y && p.0 < x)) && is_resource(
                            #[trigger] self.tile_at(p),
                        ) ==> resources@.contains(p),
                decreases MAP_SIZE - x,
            {
                let t = self.tiles[y][x];
                if t == TileType::Energy || t == TileType::Mineral || t == TileType::Scientific {
                    let ghost before = resources@;
                    resources.push((x, y));
                    proof {
                        assert(resources@[resources@.len() - 1] == (x, y));
                        assert forall|p: Pos| #[trigger] before.contains(p) implies resources@.contains(p) by {
                            let i = choose|i: int| 0 <= i < before.len() && before[i] == p;
                            assert(resources@[i] == p);
                        }
                    }
                }
                x = x + 1;
            }
            y = y + 1;
        }
        resources
    }

    /// Carves a route from `start` to `target`: a random walk that moves one
    /// cell at a time towards the target, horizontally or vertically, and
    /// turns every obstacle it crosses into empty ground. The walk it leaves
    /// moves one row or one column at a time.
    fn create_path(&mut self, start_x: usize, start_y: usize, target_x: usize, target_y: usize)
        requires
            old(self).wf(),
            old(self).passable((start_x, start_y)),
            old(self).passable((target_x, target_y)),
        ensures
            final(self).carved_from(&*old(self)),
            final(self).connected((start_x, start_y), (target_x, target_y)),
            exists|w: Seq<Pos>|
                #[trigger] final(self).is_walk(w) && w[0] == (start_x, start_y) && w.last() == (
                    target_x,
                    target_y,
                ) && forall|i: int| 0 <= i < w.len() - 1 ==> manhattan(#[trigger] w[i], w[i + 1]) == 1,
    {
        let mut current_x = start_x;
        let mut current_y = start_y;
        let ghost mut walk: Seq<Pos> = seq![(start_x, start_y)];
        proof {
            lemma_carved_refl(self);
        }
        while current_x != target_x || current_y != target_y
            invariant
                self.carved_from(&*old(self)),
                old(self).passable((target_x, target_y)),
                in_bounds((current_x, current_y)),
                self.is_walk(walk),
                walk[0] == (start_x, start_y),
                walk.last() == (current_x, current_y),
                forall|i: int| 0 <= i < walk.len() - 1 ==> manhattan(#[trigger] walk[i], walk[i + 1]) == 1,
            decreases abs_diff(current_x, target_x) + abs_diff(current_y, target_y),
        {
            let move_horizontal = chance(1, 2);
            let ghost prev: Pos = (current_x, current_y);
            if move_horizontal && current_x != target_x {
                if current_x < target_x {
                    current_x = current_x + 1;
                } else {
                    current_x = current_x - 1;
                }
            } else if current_y != target_y {
                if current_y < target_y {
                    current_y = current_y + 1;
                } else {
                    current_y = current_y - 1;
                }
            } else if current_x != target_x {
                if current_x < target_x {
                    current_x = current_x + 1;
                } else {
                    current_x = current_x - 1;
                }
            }
            let ghost before = *self;
            if self.tiles[current_y][current_x] == TileType::Obstacle {
                self.set_empty(current_x, current_y);
            }
            proof {
                assert(self.carved_from(&before));
                lemma_carved_trans(self, &before, &*old(self));
                lemma_changes_keep_passable(&before, self);
                let w2 = walk.push((current_x, current_y));
                assert forall|i: int| 0 <= i < w2.len() implies self.passable(#[trigger] w2[i]) by {
                    if i < walk.len() {
                        assert(w2[i] == walk[i]);
                        assert(before.passable(walk[i]));
                    }
                }
                assert forall|i: int| 0 <= i < w2.len() - 1 implies adjacent(#[trigger] w2[i], w2[i + 1]) by {
                    if i < walk.len() - 1 {
                        assert(w2[i] == walk[i] && w2[i + 1] == walk[i + 1]);
                    }
                }
                assert forall|i: int| 0 <= i < w2.len() - 1 implies manhattan(#[trigger] w2[i], w2[i + 1])
                    == 1 by {
                    if i < walk.len() - 1 {
                        assert(w2[i] == walk[i] && w2[i + 1] == walk[i + 1]);
                    } else {
                        assert(w2[i] == prev && w2[i + 1] == (current_x, current_y));
                    }
                }
                walk = w2;
            }
        }
        proof {
            assert(self.is_walk(walk));
        }
    }

    /// Tile band of a noise level in thousandths.
    fn tile_for_level(v: i32) -> (r: TileType)
        ensures
            r == tile_of_level(v as int),
    {
        if v > 500 {
            TileType::Obstacle
        } else if v > 300 {
            TileType::Energy
        } else if v > 100 {
            TileType::Mineral
        } else if v > 0 {
            TileType::Scientific
        } else {
            TileType::Empty
        }
    }

    /// Generates a map from a grid of noise levels (`levels[y][x]`, in
    /// thousandths). Each cell takes the band of its level; the square of
    /// radius `CLEARANCE_RADIUS` around the centre is then cleared for the
    /// hub; finally every resource that the hub cannot reach gets a carved
    /// route, so that all resources are reachable.
    pub fn new(levels: &Vec<Vec<i32>>) -> (r: WorldMap)
        requires
            levels@.len() == MAP_SIZE,
            forall|y: int| 0 <= y < MAP_SIZE ==> (#[trigger] levels@[y])@.len() == MAP_SIZE,
        ensures
            r.wf(),
            r.station() == (MAP_SIZE / 2, MAP_SIZE / 2),
            forall|p: Pos| in_bounds(p) && in_clearance(p) ==> #[trigger] r.tile_at(p) == TileType::Empty,
            forall|p: Pos|
                in_bounds(p) && !in_clearance(p) ==> (#[trigger] r.tile_at(p) == tile_of_level(
                    levels@[p.1 as int]@[p.0 as int] as int,
                ) || (tile_of_level(levels@[p.1 as int]@[p.0 as int] as int) == TileType::Obstacle
                    && r.tile_at(p) == TileType::Empty)),
            forall|p: Pos| is_resource(#[trigger] r.tile_at(p)) ==> r.connected(r.station(), p),
    {
        let mut tiles: Vec<Vec<TileType>> = Vec::new();
        let mut y: usize = 0;
        while y < MAP_SIZE
            invariant
                y <= MAP_SIZE,
                levels@.len() == MAP_SIZE,
                forall|j: int| 0 <= j < MAP_SIZE ==> (#[trigger] levels@[j])@.len() == MAP_SIZE,
                tiles@.len() == y,
                forall|j: int| 0 <= j < y ==> (#[trigger] tiles@[j])@.len() == MAP_SIZE,
                forall|j: int, i: int|
                    0 <= j < y && 0 <= i < MAP_SIZE ==> (#[trigger] tiles@[j]@[i]) == tile_of_level(
                        levels@[j]@[i] as int,
                    ),
            decreases MAP_SIZE - y,
        {
            let mut row: Vec<TileType> = Vec::new();
            let mut x: usize = 0;
            while x < MAP_SIZE
                invariant
                    x <= MAP_SIZE,
                    y < MAP_SIZE,
                    levels@.len() == MAP_SIZE,
                    forall|j: int| 0 <= j < MAP_SIZE ==> (#[trigger] levels@[j])@.len() == MAP_SIZE,
                    row@.len() == x,
                    forall|i: int|
                        0 <= i < x ==> (#[trigger] row@[i]) == tile_of_level(
                            levels@[y as int]@[i] as int,
                        ),
                decreases MAP_SIZE - x,
            {
                row.push(Self::tile_for_level(levels[y][x]));
                x = x + 1;
            }
            tiles.push(row);
            y = y + 1;
        }
        let ghost noise_tiles = tiles@;
        let mut map = WorldMap { tiles, station_x: MAP_SIZE / 2, station_y: MAP_SIZE / 2 };
        let ghost raw = map;
        let lo: usize = MAP_SIZE / 2 - CLEARANCE_RADIUS;
        let mut dy: usize = 0;
        while dy <= 2 * CLEARANCE_RADIUS
            invariant
                lo == MAP_SIZE / 2 - CLEARANCE_RADIUS,
                dy <= 2 * CLEARANCE_RADIUS + 1,
                map.tiles@.len() == MAP_SIZE,
                forall|j: int| 0 <= j < MAP_SIZE ==> (#[trigger] map.tiles@[j])@.len() == MAP_SIZE,
                map.station() == (MAP_SIZE / 2, MAP_SIZE / 2),
                forall|p: Pos|
                    in_bounds(p) && in_clearance(p) && p.1 < lo + dy ==> #[trigger] map.tile_at(p)
                        == TileType::Empty,
                forall|p: Pos|
                    in_bounds(p) && !(in_clearance(p) && p.1 < lo + dy) ==> #[trigger] map.tile_at(p)
                        == raw.tile_at(p),
            decreases 2 * CLEARANCE_RADIUS + 1 - dy,
        {
            let mut dx: usize = 0;
            while dx <= 2 * CLEARANCE_RADIUS
                invariant
                    lo == MAP_SIZE / 2 - CLEARANCE_RADIUS,
                    dy <= 2 * CLEARANCE_RADIUS,
                    dx <= 2 * CLEARANCE_RADIUS + 1,
                    map.tiles@.len() == MAP_SIZE,
                    forall|j: int| 0 <= j < MAP_SIZE ==> (#[trigger] map.tiles@[j])@.len() == MAP_SIZE,
                    map.station() == (MAP_SIZE / 2, MAP_SIZE / 2),
                    forall|p: Pos|
                        in_bounds(p) && in_clearance(p) && (p.1 < lo + dy || (p.1 == lo + dy && p.0
                            < lo + dx)) ==> #[trigger] map.tile_at(p) == TileType::Empty,
                    forall|p: Pos|
                        in_bounds(p) && !(in_clearance(p) && (p.1 < lo + dy || (p.1 == lo + dy
                            && p.0 < lo + dx))) ==> #[trigger] map.tile_at(p) == raw.tile_at(p),
                decreases 2 * CLEARANCE_RADIUS + 1 - dx,
            {
                let ghost before = map;
                let cy = lo + dy;
                let cx = lo + dx;
                map.tiles[cy][cx] = TileType::Empty;
                proof {
                    assert forall|p: Pos| in_bounds(p) && p != (cx, cy) implies #[trigger] map.tile_at(p)
                        == before.tile_at(p) by {
                        if p.1 == cy {
                            assert(map.tiles@[p.1 as int]@[p.0 as int] == before.tiles@[p.1 as int]@[p.0 as int]);
                        }
                    }
                    assert(map.tile_at((cx, cy)) == TileType::Empty);
                }
                dx = dx + 1;
            }
            dy = dy + 1;
        }
        proof {
            assert(map.tile_at(map.station()) == TileType::Empty);
        }
        let ghost cleared = map;
        let resources = map.find_all_resources();
        let mut i: usize = 0;
        proof {
            lemma_carved_refl(&map);
        }
        while i < resources.len()
            invariant
                cleared.wf(),
                map.carved_from(&cleared),
                i <= resources@.len(),
                forall|k: int|
                    0 <= k < resources@.len() ==> in_bounds(#[trigger] resources@[k])
                        && is_resource(cleared.tile_at(resources@[k])),
                forall|p: Pos|
                    in_bounds(p) && is_resource(#[trigger] cleared.tile_at(p)) ==> resources@.contains(p),
                forall|k: int| 0 <= k < i ==> map.connected(map.station(), #[trigger] resources@[k]),
            decreases resources@.len() - i,
        {
            let (res_x, res_y) = resources[i];
            let ghost before = map;
            proof {
                assert(is_resource(cleared.tile_at(resources@[i as int])));
                assert(map.tile_at((res_x, res_y)) == cleared.tile_at((res_x, res_y)));
            }
            if !map.is_accessible(map.station_x, map.station_y, res_x, res_y) {
                map.create_path(map.station_x, map.station_y, res_x, res_y);
            }
            proof {
                lemma_carved_trans(&map, &before, &cleared);
                lemma_changes_keep_passable(&before, &map);
                assert forall|k: int| 0 <= k < i + 1 implies map.connected(map.station(), #[trigger] resources@[k]) by {
                    if k < i {
                        lemma_connected_mono(&before, &map, map.station(), resources@[k]);
                    }
                }
            }
            i = i + 1;
        }
        proof {
            assert forall|p: Pos| is_resource(#[trigger] map.tile_at(p)) implies map.connected(
                map.station(),
                p,
            ) by {
                assert(map.tile_at(p) == cleared.tile_at(p));
                assert(resources@.contains(p));
                let k = choose|k: int| 0 <= k < resources@.len() && resources@[k] == p;
                assert(map.connected(map.station(), resources@[k]));
            }
            assert forall|p: Pos| in_bounds(p) && !in_clearance(p) implies (#[trigger] map.tile_at(p)
                == tile_of_level(levels@[p.1 as int]@[p.0 as int] as int) || (tile_of_level(
                levels@[p.1 as int]@[p.0 as int] as int,
            ) == TileType::Obstacle && map.tile_at(p) == TileType::Empty)) by {
                assert(cleared.tile_at(p) == raw.tile_at(p));
                assert(raw.tile_at(p) == noise_tiles[p.1 as int]@[p.0 as int]);
            }
        }
        map
    }

    /// Whether `target` can be reached from `start` by 8-connected moves over
    /// non-obstacle cells (breadth-first search).
    fn is_accessible(&self, start_x: usize, start_y: usize, target_x: usize, target_y: usize) -> (r:
        bool)
        requires
            self.wf(),
            self.passable((start_x, start_y)),
            in_bounds((target_x, target_y)),
        ensures
            r == self.connected((start_x, start_y), (target_x, target_y)),
    {
        let start: Pos = (start_x, start_y);
        let target: Pos = (target_x, target_y);
        let mut visited: Vec<bool> = vec![false; MAP_SIZE * MAP_SIZE];
        let mut queue: VecDeque<Pos> = VecDeque::new();
        let si = index_of(start);
        visited[si] = true;
        queue.push_back(start);
        proof {
            lemma_connected_refl(self, start);
            assert forall|c: Pos| in_bounds(c) && #[trigger] visited@[idx(c)] implies c == start by {
                if c != start {
                    lemma_idx_injective(c, start);
                }
            }
            assert(queue@[0] == start);
        }
        loop
            invariant
                self.wf(),
                self.passable(start),
                in_bounds(target),
                start == (start_x, start_y),
                target == (target_x, target_y),
                visited@.len() == MAP_SIZE * MAP_SIZE,
                visited@[idx(start)],
                forall|c: Pos|
                    in_bounds(c) && #[trigger] visited@[idx(c)] ==> self.connected(start, c),
                forall|i: int|
                    0 <= i < queue@.len() ==> in_bounds(#[trigger] queue@[i]) && visited@[idx(
                        queue@[i],
                    )],
                forall|c: Pos|
                    in_bounds(c) && #[trigger] visited@[idx(c)] ==> queue@.contains(c) || (c
                        != target && forall|d: Pos|
                        #[trigger] adjacent(c, d) && self.passable(d) ==> visited@[idx(d)]),
            decreases count_false(visited@), queue@.len(),
        {
            let ghost count0 = count_false(visited@);
            let ghost q0 = queue@;
            match queue.pop_front() {
                None => {
                    proof {
                        if self.connected(start, target) {
                            let w = choose|w: Seq<Pos>|
                                #[trigger] self.is_walk(w) && w[0] == start && w.last() == target;
                            let inside = |c: Pos| in_bounds(c) && visited@[idx(c)];
                            assert forall|a: Pos, b: Pos|
                                inside(a) && #[trigger] adjacent(a, b) && self.passable(
                                    b,
                                ) implies inside(b) by {
                                assert(!queue@.contains(a));
                            }
                            lemma_connected_refl(self, start);
                            assert(inside(w[0]));
                            lemma_closed_holds_walk(self, inside, w);
                            assert(inside(target));
                            assert(!queue@.contains(target));
                            assert(false);
                        }
                    }
                    return false;
                },
                Some(cur) => {
                    proof {
                        assert(q0[0] == cur);
                        assert(queue@ =~= q0.subrange(1, q0.len() as int));
                    }
                    if cur.0 == target.0 && cur.1 == target.1 {
                        proof {
                            assert(in_bounds(q0[0]) && visited@[idx(q0[0])]);
                            assert(cur == target);
                            assert(self.connected(start, cur));
                        }
                        return true;
                    }
                    let ghost q1 = queue@;
                    proof {
                        assert forall|c: Pos| #[trigger] q0.contains(c) && c != cur implies q1.contains(c) by {
                            let i = choose|i: int| 0 <= i < q0.len() && q0[i] == c;
                            assert(i != 0);
                            assert(q1[i - 1] == c);
                        }
                    }
                    let mut k: usize = 0;
                    while k < 9
                        invariant
                            self.wf(),
                            self.passable(start),
                            in_bounds(target),
                            in_bounds(cur),
                            cur != target,
                            k <= 9,
                            visited@.len() == MAP_SIZE * MAP_SIZE,
                            visited@[idx(cur)],
                            visited@[idx(start)],
                            q1.len() + 1 == q0.len(),
                            queue@.len() >= q1.len(),
                            queue@.subrange(0, q1.len() as int) == q1,
                            count_false(visited@) + queue@.len() == count0 + q1.len(),
                            forall|c: Pos| #[trigger]
                                q0.contains(c) && c != cur ==> q1.contains(c),
                            forall|c: Pos|
                                in_bounds(c) && #[trigger] visited@[idx(c)] ==> self.connected(
                                    start,
                                    c,
                                ),
                            forall|i: int|
                                0 <= i < queue@.len() ==> in_bounds(#[trigger] queue@[i])
                                    && visited@[idx(queue@[i])],
                            forall|c: Pos|
                                in_bounds(c) && #[trigger] visited@[idx(c)] && c != cur
                                    ==> queue@.contains(c) || (c != target && forall|d: Pos|
                                    #[trigger] adjacent(c, d) && self.passable(d) ==> visited@[idx(
                                        d,
                                    )]),
                            forall|j: int|
                                0 <= j < k && (#[trigger] neighbor_spec(cur, j)).is_some()
                                    && self.passable(neighbor_spec(cur, j).unwrap())
                                    ==> visited@[idx(neighbor_spec(cur, j).unwrap())],
                        decreases 9 - k,
                    {
                        let nb = neighbor(cur, k);
                        if let Some(d) = nb {
                            proof {
                                lemma_neighbor_is_adjacent(cur, k as int);
                            }
                            let di = index_of(d);
                            if !visited[di] && self.tiles[d.1][d.0] != TileType::Obstacle {
                                let ghost vold = visited@;
                                let ghost qold = queue@;
                                proof {
                                    lemma_count_false_set(visited@, di as int);
                                    lemma_connected_step(self, start, cur, d);
                                }
                                visited[di] = true;
                                queue.push_back(d);
                                proof {
                                    assert forall|c: Pos|
                                        in_bounds(c) && #[trigger] visited@[idx(c)] implies (c == d
                                        || vold[idx(c)]) by {
                                        if c != d {
                                            lemma_idx_injective(c, d);
                                        }
                                    }
                                    assert forall|c: Pos| #[trigger]
                                        qold.contains(c) implies queue@.contains(c) by {
                                        let i = choose|i: int| 0 <= i < qold.len() && qold[i] == c;
                                        assert(queue@[i] == c);
                                    }
                                    assert(queue@[queue@.len() - 1] == d);
                                    assert(queue@.subrange(0, q1.len() as int) =~= qold.subrange(
                                        0,
                                        q1.len() as int,
                                    ));
                                }
                            }
                        }
                        k = k + 1;
                    }
                    proof {
                        assert forall|d: Pos| #[trigger]
                            adjacent(cur, d) && self.passable(d) implies visited@[idx(d)] by {
                            lemma_adjacent_is_neighbor(cur, d);
                            let j = 3 * (d.1 + 1 - cur.1) + (d.0 + 1 - cur.0);
                            assert(neighbor_spec(cur, j) == Some(d));
                        }
                    }
                },
            }
        }
    }
}

/// Harvesting is idempotent, and harvesting a resource leaves empty ground.
pub proof fn lemma_harvest_idempotent(t: TileType)
    ensures
        harvested(harvested(t)) == harvested(t),
        is_resource(t) ==> harvested(t) == TileType::Empty,
        !is_resource(harvested(t)),
{
}

/// Carving relates a map to itself.
pub proof fn lemma_carved_refl(m: &WorldMap)
    requires
        m.wf(),
    ensures
        m.carved_from(m),
{
}

/// Carving composes.
pub proof fn lemma_carved_trans(m2: &WorldMap, m1: &WorldMap, m0: &WorldMap)
    requires
        m2.carved_from(m1),
        m1.carved_from(m0),
    ensures
        m2.carved_from(m0),
{
    assert forall|p: Pos| #[trigger] m2.tile_at(p) == m0.tile_at(p) || (m0.tile_at(p)
        == TileType::Obstacle && m2.tile_at(p) == TileType::Empty) by {
        assert(m1.tile_at(p) == m0.tile_at(p) || m1.tile_at(p) == TileType::Empty);
    }
}

/// A single passable cell is reachable from itself.
pub proof fn lemma_connected_refl(m: &WorldMap, a: Pos)
    requires
        m.passable(a),
    ensures
        m.connected(a, a),
{
    let w = seq![a];
    assert(m.is_walk(w));
}

/// Reachability extends by one move onto a passable neighbour.
pub proof fn lemma_connected_step(m: &WorldMap, a: Pos, b: Pos, c: Pos)
    requires
        m.connected(a, b),
        adjacent(b, c),
        m.passable(c),
    ensures
        m.connected(a, c),
{
    let w = choose|w: Seq<Pos>| #[trigger] m.is_walk(w) && w[0] == a && w.last() == b;
    let w2 = w.push(c);
    assert forall|i: int| 0 <= i < w2.len() - 1 implies adjacent(#[trigger] w2[i], w2[i + 1]) by {
        if i < w.len() - 1 {
            assert(w2[i] == w[i] && w2[i + 1] == w[i + 1]);
        }
    }
    assert forall|i: int| 0 <= i < w2.len() implies m.passable(#[trigger] w2[i]) by {
        if i < w.len() {
            assert(w2[i] == w[i]);
        }
    }
    assert(m.is_walk(w2));
}

/// Reachability survives any change that creates no obstacle.
pub proof fn lemma_connected_mono(m1: &WorldMap, m2: &WorldMap, a: Pos, b: Pos)
    requires
        m1.connected(a, b),
        m2.no_new_obstacles(m1),
    ensures
        m2.connected(a, b),
{
    let w = choose|w: Seq<Pos>| #[trigger] m1.is_walk(w) && w[0] == a && w.last() == b;
    assert forall|i: int| 0 <= i < w.len() implies m2.passable(#[trigger] w[i]) by {
        assert(m1.passable(w[i]));
    }
    assert(m2.is_walk(w));
}

/// Carving and harvesting create no obstacle.
pub proof fn lemma_changes_keep_passable(m1: &WorldMap, m2: &WorldMap)
    requires
        m2.carved_from(m1) || m2.harvested_from(m1),
    ensures
        m2.no_new_obstacles(m1),
{
    assert forall|p: Pos| m1.passable(p) implies #[trigger] m2.passable(p) by {
        assert(m2.tile_at(p) == m1.tile_at(p) || m2.tile_at(p) == TileType::Empty);
    }
}

/// Both ends of a connection are passable.
pub proof fn lemma_connected_ends(m: &WorldMap, a: Pos, b: Pos)
    requires
        m.connected(a, b),
    ensures
        m.passable(a),
        m.passable(b),
{
    let w = choose|w: Seq<Pos>| #[trigger] m.is_walk(w) && w[0] == a && w.last() == b;
    assert(m.passable(w[0]));
    assert(m.passable(w[w.len() - 1]));
}

/// Reachability is symmetric: a walk can be followed backwards.
pub proof fn lemma_connected_sym(m: &WorldMap, a: Pos, b: Pos)
    requires
        m.connected(a, b),
    ensures
        m.connected(b, a),
{
    let w = choose|w: Seq<Pos>| #[trigger] m.is_walk(w) && w[0] == a && w.last() == b;
    let r = w.reverse();
    assert forall|i: int| 0 <= i < r.len() implies m.passable(#[trigger] r[i]) by {
        assert(r[i] == w[w.len() - 1 - i]);
    }
    assert forall|i: int| 0 <= i < r.len() - 1 implies adjacent(#[trigger] r[i], r[i + 1]) by {
        let j = w.len() - 2 - i;
        assert(r[i] == w[j + 1] && r[i + 1] == w[j]);
        assert(adjacent(w[j], w[j + 1]));
    }
    assert(m.is_walk(r) && r[0] == b && r.last() == a);
}

/// A set of cells that holds the first cell of a walk, and that holds every
/// passable neighbour of each of its cells, holds the whole walk.
pub proof fn lemma_closed_holds_walk(m: &WorldMap, inside: spec_fn(Pos) -> bool, w: Seq<Pos>)
    requires
        m.is_walk(w),
        inside(w[0]),
        forall|a: Pos, b: Pos| inside(a) && #[trigger] adjacent(a, b) && m.passable(b) ==> inside(b),
    ensures
        inside(w.last()),
    decreases w.len(),
{
    if w.len() > 1 {
        let v = w.drop_last();
        assert forall|i: int| 0 <= i < v.len() - 1 implies adjacent(#[trigger] v[i], v[i + 1]) by {
            assert(v[i] == w[i] && v[i + 1] == w[i + 1]);
        }
        assert forall|i: int| 0 <= i < v.len() implies m.passable(#[trigger] v[i]) by {
            assert(v[i] == w[i]);
        }
        lemma_closed_holds_walk(m, inside, v);
        assert(adjacent(w[w.len() - 2], w[w.len() - 1]));
        assert(m.passable(w[w.len() - 1]));
    }
}

} // verus!
