//! Geometry of the square grid: positions, flat indexing, the 8-neighbourhood
//! and the distances used by movement and path planning.
use vstd::prelude::*;
use crate::types::MAP_SIZE;

verus! {

/// A cell of the grid, as `(x, y)`.
pub type Pos = (usize, usize);

pub open spec fn in_bounds(p: Pos) -> bool {
    p.0 < MAP_SIZE && p.1 < MAP_SIZE
}

/// Row-major index of a cell in a flat grid of `MAP_SIZE * MAP_SIZE` entries.
pub open spec fn idx(p: Pos) -> int {
    p.1 * MAP_SIZE + p.0
}

pub open spec fn abs_diff(a: usize, b: usize) -> int {
    if a >= b {
        a - b
    } else {
        b - a
    }
}

/// Manhattan distance between two cells.
pub open spec fn manhattan(a: Pos, b: Pos) -> int {
    abs_diff(a.0, b.0) + abs_diff(a.1, b.1)
}

/// Chebyshev distance between two cells (number of king moves).
pub open spec fn chebyshev(a: Pos, b: Pos) -> int {
    if abs_diff(a.0, b.0) >= abs_diff(a.1, b.1) {
        abs_diff(a.0, b.0)
    } else {
        abs_diff(a.1, b.1)
    }
}

/// Two distinct cells that touch by a side or a corner.
pub open spec fn adjacent(a: Pos, b: Pos) -> bool {
    a != b && abs_diff(a.0, b.0) <= 1 && abs_diff(a.1, b.1) <= 1
}

/// Horizontal offset of the `k`-th cell of a 3x3 block (row-major, `k < 9`).
pub open spec fn dx_of(k: int) -> int {
    if k == 0 || k == 3 || k == 6 {
        -1
    } else if k == 1 || k == 4 || k == 7 {
        0
    } else {
        1
    }
}

/// Vertical offset of the `k`-th cell of a 3x3 block (row-major, `k < 9`).
pub open spec fn dy_of(k: int) -> int {
    if k < 3 {
        -1
    } else if k < 6 {
        0
    } else {
        1
    }
}

/// The `k`-th cell of the 3x3 block centred on `c`, scanning rows top to
/// bottom and each row left to right; `None` for the centre itself and for a
/// cell off the grid.
pub open spec fn neighbor_spec(c: Pos, k: int) -> Option<Pos> {
    let nx = c.0 + dx_of(k);
    let ny = c.1 + dy_of(k);
    if k == 4 || nx < 0 || ny < 0 || nx >= MAP_SIZE || ny >= MAP_SIZE {
        None
    } else {
        Some((nx as usize, ny as usize))
    }
}

/// Every in-bounds cell adjacent to `c` is one of its nine block cells.
pub proof fn lemma_adjacent_is_neighbor(c: Pos, d: Pos)
    requires
        adjacent(c, d),
        in_bounds(d),
    ensures
        neighbor_spec(c, 3 * (d.1 + 1 - c.1) + (d.0 + 1 - c.0)) == Some(d),
        0 <= 3 * (d.1 + 1 - c.1) + (d.0 + 1 - c.0) < 9,
{
}

/// The block cells of `c` other than `None` are exactly its in-bounds neighbours.
pub proof fn lemma_neighbor_is_adjacent(c: Pos, k: int)
    requires
        0 <= k < 9,
        neighbor_spec(c, k).is_some(),
    ensures
        adjacent(c, neighbor_spec(c, k).unwrap()),
        in_bounds(neighbor_spec(c, k).unwrap()),
{
}

/// Computes the `k`-th cell of the 3x3 block around `c`.
pub fn neighbor(c: Pos, k: usize) -> (r: Option<Pos>)
    requires
        in_bounds(c),
        k < 9,
    ensures
        r == neighbor_spec(c, k as int),
{
    if k == 4 {
        return None;
    }
    let dx: usize = if k == 0 || k == 3 || k == 6 {
        0
    } else if k == 1 || k == 7 {
        1
    } else {
        2
    };
    let dy: usize = if k < 3 {
        0
    } else if k < 6 {
        1
    } else {
        2
    };
    if c.0 + dx < 1 || c.1 + dy < 1 || c.0 + dx - 1 >= MAP_SIZE || c.1 + dy - 1 >= MAP_SIZE {
        None
    } else {
        Some((c.0 + dx - 1, c.1 + dy - 1))
    }
}

/// Flat index of an in-bounds cell.
pub fn index_of(p: Pos) -> (r: usize)
    requires
        in_bounds(p),
    ensures
        r as int == idx(p),
        r < MAP_SIZE * MAP_SIZE,
{
    p.1 * MAP_SIZE + p.0
}

/// Distinct in-bounds cells have distinct flat indices.
pub proof fn lemma_idx_injective(a: Pos, b: Pos)
    requires
        in_bounds(a),
        in_bounds(b),
        a != b,
    ensures
        idx(a) != idx(b),
        0 <= idx(a) < MAP_SIZE * MAP_SIZE,
{
}

/// Manhattan distance, computed without overflow.
pub fn manhattan_distance(a: Pos, b: Pos) -> (r: usize)
    requires
        in_bounds(a),
        in_bounds(b),
    ensures
        r as int == manhattan(a, b),
{
    let dx = if a.0 >= b.0 {
        a.0 - b.0
    } else {
        b.0 - a.0
    };
    let dy = if a.1 >= b.1 {
        a.1 - b.1
    } else {
        b.1 - a.1
    };
    dx + dy
}

/// Chebyshev distance, computed without overflow.
pub fn chebyshev_distance(a: Pos, b: Pos) -> (r: usize)
    ensures
        r as int == chebyshev(a, b),
{
    let dx = if a.0 >= b.0 {
        a.0 - b.0
    } else {
        b.0 - a.0
    };
    let dy = if a.1 >= b.1 {
        a.1 - b.1
    } else {
        b.1 - a.1
    };
    if dx >= dy {
        dx
    } else {
        dy
    }
}

/// Number of `false` entries of a sequence.
pub open spec fn count_false(s: Seq<bool>) -> nat
    decreases s.len(),
{
    if s.len() == 0 {
        0
    } else {
        count_false(s.drop_last()) + if s.last() {
            0nat
        } else {
            1nat
        }
    }
}

/// Setting one `false` entry to `true` lowers the count by one.
pub proof fn lemma_count_false_set(s: Seq<bool>, i: int)
    requires
        0 <= i < s.len(),
        !s[i],
    ensures
        count_false(s.update(i, true)) + 1 == count_false(s),
    decreases s.len(),
{
    let t = s.update(i, true);
    if i == s.len() - 1 {
        assert(t.drop_last() =~= s.drop_last());
    } else {
        assert(t.drop_last() =~= s.drop_last().update(i, true));
        lemma_count_false_set(s.drop_last(), i);
    }
}

/// Sum of a sequence of naturals.
pub open spec fn sum(s: Seq<usize>) -> int
    decreases s.len(),
{
    if s.len() == 0 {
        0
    } else {
        sum(s.drop_last()) + s.last()
    }
}

pub proof fn lemma_sum_nonneg(s: Seq<usize>)
    ensures
        sum(s) >= 0,
    decreases s.len(),
{
    if s.len() > 0 {
        lemma_sum_nonneg(s.drop_last());
    }
}

/// Replacing one entry changes the sum by the difference.
pub proof fn lemma_sum_update(s: Seq<usize>, i: int, v: usize)
    requires
        0 <= i < s.len(),
    ensures
        sum(s.update(i, v)) == sum(s) - s[i] + v,
    decreases s.len(),
{
    let t = s.update(i, v);
    if i == s.len() - 1 {
        assert(t.drop_last() =~= s.drop_last());
    } else {
        assert(t.drop_last() =~= s.drop_last().update(i, v));
        lemma_sum_update(s.drop_last(), i, v);
    }
}

} // verus!
