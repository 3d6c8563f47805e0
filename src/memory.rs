//! Exploration memory: a per-cell discovery record, the grids of such
//! records that the hub and every robot keep, and the last-writer-wins rule
//! by which the hub merges a robot's grid into its own.
use vstd::prelude::*;
use crate::types::{MAP_SIZE, RobotType};
use crate::grid::{Pos, in_bounds};

verus! {

/// What one memory copy knows of one cell: whether it was explored, at which
/// tick, and by which robot.
#[derive(Clone, Copy, Debug, PartialEq, Eq, Structural)]
pub struct TerrainData {
    pub explored: bool,
    pub timestamp: u32,
    pub robot_id: usize,
    pub robot_type: RobotType,
}

/// The record of a cell nobody has explored yet.
pub open spec fn unexplored_record() -> TerrainData {
    TerrainData { explored: false, timestamp: 0, robot_id: 0, robot_type: RobotType::Explorer }
}

/// A memory grid is `MAP_SIZE` rows of `MAP_SIZE` records, indexed `[y][x]`.
pub open spec fn grid_wf(g: Seq<Vec<TerrainData>>) -> bool {
    &&& g.len() == MAP_SIZE
    &&& forall|y: int| 0 <= y < MAP_SIZE ==> (#[trigger] g[y])@.len() == MAP_SIZE
}

/// The record of cell `p`.
pub open spec fn cell(g: Seq<Vec<TerrainData>>, p: Pos) -> TerrainData {
    g[p.1 as int]@[p.0 as int]
}

/// Two grids hold the same record in every cell.
pub open spec fn same_cells(g: Seq<Vec<TerrainData>>, h: Seq<Vec<TerrainData>>) -> bool {
    forall|p: Pos| in_bounds(p) ==> #[trigger] cell(g, p) == cell(h, p)
}

/// Every cell of the grid is explored.
pub open spec fn all_explored_spec(g: Seq<Vec<TerrainData>>) -> bool {
    forall|p: Pos| in_bounds(p) ==> #[trigger] cell(g, p).explored
}

/// An unexplored cell carries timestamp zero.
pub open spec fn unexplored_are_zero(g: Seq<Vec<TerrainData>>) -> bool {
    forall|p: Pos| in_bounds(p) && !(#[trigger] cell(g, p)).explored ==> cell(g, p).timestamp == 0
}

/// The hub's record after merging the robot's record `agent` into `hub`:
/// an explored robot record is adopted when the hub's cell is unexplored or
/// strictly older; otherwise the hub keeps its own.
pub open spec fn merge_cell(hub: TerrainData, agent: TerrainData) -> TerrainData {
    if agent.explored && (!hub.explored || agent.timestamp > hub.timestamp) {
        agent
    } else {
        hub
    }
}

/// Merging overwrites an explored hub record with a newer one.
pub open spec fn is_conflict(hub: TerrainData, agent: TerrainData) -> bool {
    agent.explored && hub.explored && agent.timestamp > hub.timestamp
}

/// Number of explored records among the first `n` of a row.
pub open spec fn row_explored(r: Seq<TerrainData>, n: int) -> nat
    decreases n,
{
    if n <= 0 {
        0
    } else {
        row_explored(r, n - 1) + if r[n - 1].explored {
            1nat
        } else {
            0nat
        }
    }
}

/// Number of explored records in the first `m` rows.
pub open spec fn grid_explored(g: Seq<Vec<TerrainData>>, m: int) -> nat
    decreases m,
{
    if m <= 0 {
        0
    } else {
        grid_explored(g, m - 1) + row_explored(g[m - 1]@, MAP_SIZE as int)
    }
}

/// Number of explored cells of a grid.
pub open spec fn explored_count(g: Seq<Vec<TerrainData>>) -> nat {
    grid_explored(g, MAP_SIZE as int)
}

/// Number of conflicts among the first `n` cells of a row.
pub open spec fn row_conflicts(h: Seq<TerrainData>, a: Seq<TerrainData>, n: int) -> nat
    decreases n,
{
    if n <= 0 {
        0
    } else {
        row_conflicts(h, a, n - 1) + if is_conflict(h[n - 1], a[n - 1]) {
            1nat
        } else {
            0nat
        }
    }
}

/// Number of conflicts in the first `m` rows.
pub open spec fn grid_conflicts(h: Seq<Vec<TerrainData>>, a: Seq<Vec<TerrainData>>, m: int) -> nat
    decreases m,
{
    if m <= 0 {
        0
    } else {
        grid_conflicts(h, a, m - 1) + row_conflicts(h[m - 1]@, a[m - 1]@, MAP_SIZE as int)
    }
}

/// Number of cells on which merging `agent` into `hub` is a conflict.
pub open spec fn conflicts(h: Seq<Vec<TerrainData>>, a: Seq<Vec<TerrainData>>) -> nat {
    grid_conflicts(h, a, MAP_SIZE as int)
}

pub proof fn lemma_row_explored_bound(r: Seq<TerrainData>, n: int)
    ensures
        row_explored(r, n) <= if n < 0 {
            0
        } else {
            n
        },
    decreases n,
{
    if n > 0 {
        lemma_row_explored_bound(r, n - 1);
    }
}

pub proof fn lemma_grid_explored_bound(g: Seq<Vec<TerrainData>>, m: int)
    ensures
        grid_explored(g, m) <= if m < 0 {
            0
        } else {
            m * MAP_SIZE
        },
    decreases m,
{
    if m > 0 {
        lemma_grid_explored_bound(g, m - 1);
        lemma_row_explored_bound(g[m - 1]@, MAP_SIZE as int);
    }
}

pub proof fn lemma_row_conflicts_bound(h: Seq<TerrainData>, a: Seq<TerrainData>, n: int)
    ensures
        row_conflicts(h, a, n) <= if n < 0 {
            0
        } else {
            n
        },
    decreases n,
{
    if n > 0 {
        lemma_row_conflicts_bound(h, a, n - 1);
    }
}

pub proof fn lemma_grid_conflicts_bound(h: Seq<Vec<TerrainData>>, a: Seq<Vec<TerrainData>>, m: int)
    ensures
        grid_conflicts(h, a, m) <= if m < 0 {
            0
        } else {
            m * MAP_SIZE
        },
    decreases m,
{
    if m > 0 {
        lemma_grid_conflicts_bound(h, a, m - 1);
        lemma_row_conflicts_bound(h[m - 1]@, a[m - 1]@, MAP_SIZE as int);
    }
}

/// The merge never lowers the hub's timestamp of a cell whose unexplored
/// record carries timestamp zero, and never unexplores a cell.
pub proof fn lemma_merge_monotonic(hub: TerrainData, agent: TerrainData)
    requires
        !hub.explored ==> hub.timestamp == 0,
    ensures
        merge_cell(hub, agent).timestamp >= hub.timestamp,
        hub.explored ==> merge_cell(hub, agent).explored,
        !merge_cell(hub, agent).explored ==> merge_cell(hub, agent).timestamp == 0,
        agent.explored ==> merge_cell(hub, agent).explored,
{
}

/// Synchronisation never turns back the hub's clock on a cell: when the
/// hub's unexplored cells carry timestamp zero and its new grid is the
/// cell-by-cell merge of an agent's grid into its old one, every cell's
/// timestamp is at least what it was, and every explored cell stays
/// explored.
pub proof fn lemma_sync_monotonic(
    hub_before: Seq<Vec<TerrainData>>,
    agent: Seq<Vec<TerrainData>>,
    hub_after: Seq<Vec<TerrainData>>,
)
    requires
        unexplored_are_zero(hub_before),
        forall|p: Pos|
            in_bounds(p) ==> #[trigger] cell(hub_after, p) == merge_cell(
                cell(hub_before, p),
                cell(agent, p),
            ),
    ensures
        forall|p: Pos|
            in_bounds(p) ==> #[trigger] cell(hub_after, p).timestamp >= cell(
                hub_before,
                p,
            ).timestamp,
        forall|p: Pos|
            in_bounds(p) && cell(hub_before, p).explored ==> (#[trigger] cell(
                hub_after,
                p,
            )).explored,
        unexplored_are_zero(hub_after),
{
    assert forall|p: Pos| in_bounds(p) implies #[trigger] cell(hub_after, p).timestamp >= cell(
        hub_before,
        p,
    ).timestamp by {
        lemma_merge_monotonic(cell(hub_before, p), cell(agent, p));
    }
    assert forall|p: Pos| in_bounds(p) && cell(hub_before, p).explored implies (#[trigger] cell(
        hub_after,
        p,
    )).explored by {
        lemma_merge_monotonic(cell(hub_before, p), cell(agent, p));
    }
    assert forall|p: Pos| in_bounds(p) && !(#[trigger] cell(hub_after, p)).explored implies cell(
        hub_after,
        p,
    ).timestamp == 0 by {
        lemma_merge_monotonic(cell(hub_before, p), cell(agent, p));
    }
}

/// No timestamp of the grid lies after tick `now`.
pub open spec fn bounded_by(g: Seq<Vec<TerrainData>>, now: u32) -> bool {
    forall|p: Pos| in_bounds(p) ==> (#[trigger] cell(g, p)).timestamp <= now
}

/// Going from `old` to `new`, no explored cell became unexplored and no
/// timestamp went back.
pub open spec fn grows_into(old: Seq<Vec<TerrainData>>, new: Seq<Vec<TerrainData>>) -> bool {
    forall|p: Pos|
        in_bounds(p) ==> (cell(old, p).explored ==> (#[trigger] cell(new, p)).explored) && cell(
            new,
            p,
        ).timestamp >= cell(old, p).timestamp
}

/// Merging keeps what the agent's record knew: an explored agent record
/// stays explored and, when unexplored agent records carry timestamp zero,
/// no timestamp goes back; nor does the merge go past a tick both records
/// respect.
pub proof fn lemma_merge_keeps_agent(hub: TerrainData, agent: TerrainData, now: u32)
    requires
        !agent.explored ==> agent.timestamp == 0,
    ensures
        agent.explored ==> merge_cell(hub, agent).explored,
        merge_cell(hub, agent).timestamp >= agent.timestamp,
        hub.timestamp <= now && agent.timestamp <= now ==> merge_cell(hub, agent).timestamp <= now,
{
}

/// A grid in which no cell is explored.
pub fn blank_memory() -> (g: Vec<Vec<TerrainData>>)
    ensures
        grid_wf(g@),
        forall|p: Pos| in_bounds(p) ==> #[trigger] cell(g@, p) == unexplored_record(),
{
    let mut g: Vec<Vec<TerrainData>> = Vec::new();
    let mut y: usize = 0;
    while y < MAP_SIZE
        invariant
            y <= MAP_SIZE,
            g@.len() == y,
            forall|j: int| 0 <= j < y ==> (#[trigger] g@[j])@.len() == MAP_SIZE,
            forall|j: int, i: int|
                0 <= j < y && 0 <= i < MAP_SIZE ==> #[trigger] g@[j]@[i] == unexplored_record(),
        decreases MAP_SIZE - y,
    {
        let row = vec![
            TerrainData {
                explored: false,
                timestamp: 0,
                robot_id: 0,
                robot_type: RobotType::Explorer,
            };
            MAP_SIZE
        ];
        g.push(row);
        y = y + 1;
    }
    g
}

/// A record-for-record copy of a grid.
pub fn copy_memory(g: &Vec<Vec<TerrainData>>) -> (r: Vec<Vec<TerrainData>>)
    requires
        grid_wf(g@),
    ensures
        grid_wf(r@),
        same_cells(r@, g@),
{
    let mut r: Vec<Vec<TerrainData>> = Vec::new();
    let mut y: usize = 0;
    while y < MAP_SIZE
        invariant
            grid_wf(g@),
            y <= MAP_SIZE,
            r@.len() == y,
            forall|j: int| 0 <= j < y ==> (#[trigger] r@[j])@.len() == MAP_SIZE,
            forall|j: int, i: int|
                0 <= j < y && 0 <= i < MAP_SIZE ==> #[trigger] r@[j]@[i] == g@[j]@[i],
        decreases MAP_SIZE - y,
    {
        let mut row: Vec<TerrainData> = Vec::new();
        let mut x: usize = 0;
        while x < MAP_SIZE
            invariant
                grid_wf(g@),
                y < MAP_SIZE,
                x <= MAP_SIZE,
                row@.len() == x,
                forall|i: int| 0 <= i < x ==> #[trigger] row@[i] == g@[y as int]@[i],
            decreases MAP_SIZE - x,
        {
            row.push(g[y][x]);
            x = x + 1;
        }
        r.push(row);
        y = y + 1;
    }
    r
}

/// Number of explored cells of a grid.
pub fn count_explored(g: &Vec<Vec<TerrainData>>) -> (n: usize)
    requires
        grid_wf(g@),
    ensures
        n as int == explored_count(g@),
        n <= MAP_SIZE * MAP_SIZE,
{
    let mut n: usize = 0;
    let mut y: usize = 0;
    while y < MAP_SIZE
        invariant
            grid_wf(g@),
            y <= MAP_SIZE,
            n as int == grid_explored(g@, y as int),
        decreases MAP_SIZE - y,
    {
        let mut x: usize = 0;
        proof {
            lemma_grid_explored_bound(g@, y as int);
        }
        while x < MAP_SIZE
            invariant
                grid_wf(g@),
                y < MAP_SIZE,
                x <= MAP_SIZE,
                grid_explored(g@, y as int) <= y * MAP_SIZE,
                n as int == grid_explored(g@, y as int) + row_explored(g@[y as int]@, x as int),
            decreases MAP_SIZE - x,
        {
            proof {
                lemma_row_explored_bound(g@[y as int]@, x as int);
            }
            if g[y][x].explored {
                n = n + 1;
            }
            x = x + 1;
        }
        y = y + 1;
    }
    proof {
        lemma_grid_explored_bound(g@, MAP_SIZE as int);
    }
    n
}

/// Whether every cell of a grid is explored.
pub fn all_explored(g: &Vec<Vec<TerrainData>>) -> (r: bool)
    requires
        grid_wf(g@),
    ensures
        r == all_explored_spec(g@),
{
    let mut y: usize = 0;
    while y < MAP_SIZE
        invariant
            grid_wf(g@),
            y <= MAP_SIZE,
            forall|p: Pos| in_bounds(p) && p.1 < y ==> #[trigger] cell(g@, p).explored,
        decreases MAP_SIZE - y,
    {
        let mut x: usize = 0;
        while x < MAP_SIZE
            invariant
                grid_wf(g@),
                y < MAP_SIZE,
                x <= MAP_SIZE,
                forall|p: Pos|
                    in_bounds(p) && (p.1 < y || (p.1 == y && p.0 < x)) ==> #[trigger] cell(
                        g@,
                        p,
                    ).explored,
            decreases MAP_SIZE - x,
        {
            if !g[y][x].explored {
                proof {
                    assert(!cell(g@, (x, y)).explored);
                }
                return false;
            }
            x = x + 1;
        }
        y = y + 1;
    }
    true
}

} // verus!
