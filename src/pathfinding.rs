//! A* search over the grid: 8-directional moves of cost one, guided by the
//! Manhattan distance to the goal; among open nodes of equal estimated cost
//! the one inserted first is expanded first.
use vstd::prelude::*;
use std::collections::VecDeque;
use crate::types::MAP_SIZE;
use crate::grid::{Pos, in_bounds, idx, adjacent, neighbor, neighbor_spec, index_of, manhattan_distance,
    sum, lemma_sum_update, lemma_sum_nonneg, lemma_adjacent_is_neighbor,
    lemma_neighbor_is_adjacent, lemma_idx_injective};
use crate::map::{WorldMap, lemma_closed_holds_walk};

verus! {

/// Marks a cell without a cost in the table of best known costs.
const UNSCORED: usize = 400;

/// An entry of the open list: a cell, its cost from the start and its
/// estimated total cost to the goal.
struct Node {
    position: Pos,
    g_cost: usize,
    f_cost: usize,
}

/// `path` is a route from `start`: its first cell touches `start`, each
/// next cell touches the one before, and every cell is passable.
pub open spec fn is_route(map: &WorldMap, start: Pos, path: Seq<Pos>) -> bool {
    &&& path.len() > 0 ==> adjacent(start, path[0])
    &&& forall|i: int| 0 <= i < path.len() ==> map.passable(#[trigger] path[i])
    &&& forall|i: int| 0 <= i < path.len() - 1 ==> adjacent(#[trigger] path[i], path[i + 1])
}

/// Number of cells that have a cost.
spec fn count_scored(s: Seq<usize>) -> nat
    decreases s.len(),
{
    if s.len() == 0 {
        0
    } else {
        count_scored(s.drop_last()) + if s.last() < UNSCORED {
            1nat
        } else {
            0nat
        }
    }
}

proof fn lemma_count_scored_set(s: Seq<usize>, i: int, v: usize)
    requires
        0 <= i < s.len(),
    ensures
        count_scored(s.update(i, v)) == count_scored(s) - (if s[i] < UNSCORED {
            1int
        } else {
            0int
        }) + (if v < UNSCORED {
            1int
        } else {
            0int
        }),
    decreases s.len(),
{
    let t = s.update(i, v);
    if i == s.len() - 1 {
        assert(t.drop_last() =~= s.drop_last());
    } else {
        assert(t.drop_last() =~= s.drop_last().update(i, v));
        lemma_count_scored_set(s.drop_last(), i, v);
    }
}

proof fn lemma_count_scored_bound(s: Seq<usize>, i: int)
    requires
        0 <= i < s.len(),
        s[i] >= UNSCORED,
    ensures
        count_scored(s) < s.len(),
    decreases s.len(),
{
    lemma_count_scored_le(s.drop_last());
    if i < s.len() - 1 {
        lemma_count_scored_bound(s.drop_last(), i);
    }
}

proof fn lemma_count_scored_none(s: Seq<usize>)
    requires
        forall|i: int| 0 <= i < s.len() ==> s[i] >= UNSCORED,
    ensures
        count_scored(s) == 0,
    decreases s.len(),
{
    if s.len() > 0 {
        lemma_count_scored_none(s.drop_last());
    }
}

proof fn lemma_count_scored_le(s: Seq<usize>)
    ensures
        count_scored(s) <= s.len(),
    decreases s.len(),
{
    if s.len() > 0 {
        lemma_count_scored_le(s.drop_last());
    }
}

spec fn scored(g: Seq<usize>, c: Pos) -> bool {
    in_bounds(c) && g[idx(c)] < UNSCORED
}

spec fn in_open(open: Seq<Node>, c: Pos) -> bool {
    exists|i: int| 0 <= i < open.len() && (#[trigger] open[i]).position == c
}

/// Index of the first node of least estimated cost.
fn cheapest(open: &Vec<Node>) -> (r: usize)
    requires
        open@.len() > 0,
    ensures
        r < open@.len(),
        forall|i: int| 0 <= i < open@.len() ==> open@[r as int].f_cost <= (#[trigger] open@[i]).f_cost,
{
    let mut best: usize = 0;
    let mut i: usize = 1;
    while i < open.len()
        invariant
            0 < open@.len(),
            best < i <= open@.len(),
            forall|j: int| 0 <= j < i ==> open@[best as int].f_cost <= (#[trigger] open@[j]).f_cost,
        decreases open@.len() - i,
    {
        if open[i].f_cost < open[best].f_cost {
            best = i;
        }
        i = i + 1;
    }
    best
}

/// A route from a passable cell ends at a cell connected to it.
proof fn lemma_route_connects(map: &WorldMap, start: Pos, path: Seq<Pos>)
    requires
        map.passable(start),
        is_route(map, start, path),
        path.len() > 0,
    ensures
        map.connected(start, path.last()),
{
    let w = seq![start] + path;
    assert forall|i: int| 0 <= i < w.len() implies map.passable(#[trigger] w[i]) by {
        if i > 0 {
            assert(w[i] == path[i - 1]);
        }
    }
    assert forall|i: int| 0 <= i < w.len() - 1 implies adjacent(#[trigger] w[i], w[i + 1]) by {
        if i > 0 {
            assert(w[i] == path[i - 1] && w[i + 1] == path[i]);
        }
    }
    assert(map.is_walk(w) && w[0] == start && w.last() == path.last());
}

/// Plans a route from `start` to `goal`. The route leaves out `start`,
/// never repeats a cell, and ends at `goal`; it is empty when `start == goal` or when no route exists,
/// and non-empty whenever `goal` can be reached.
pub fn find_path(map: &WorldMap, start: Pos, goal: Pos) -> (path: VecDeque<Pos>)
    requires
        map.wf(),
        map.passable(start),
    ensures
        is_route(map, start, path@),
        path@.len() > 0 ==> path@.last() == goal,
        start == goal ==> path@.len() == 0,
        start != goal ==> (path@.len() > 0 <==> map.connected(start, goal)),
        forall|i: int| 0 <= i < path@.len() ==> #[trigger] path@[i] != start,
        forall|i: int, j: int| 0 <= i < j < path@.len() ==> #[trigger] path@[i] != #[trigger] path@[j],
{
    if start.0 == goal.0 && start.1 == goal.1 {
        return VecDeque::new();
    }
    if goal.0 >= MAP_SIZE || goal.1 >= MAP_SIZE {
        proof {
            if map.connected(start, goal) {
                let w = choose|w: Seq<Pos>|
                    #[trigger] map.is_walk(w) && w[0] == start && w.last() == goal;
                assert(map.passable(w[w.len() - 1]));
            }
        }
        return VecDeque::new();
    }
    let mut g_score: Vec<usize> = vec![UNSCORED; MAP_SIZE * MAP_SIZE];
    let mut came_from: Vec<Pos> = vec![(0, 0); MAP_SIZE * MAP_SIZE];
    let mut open: Vec<Node> = Vec::new();
    let si = index_of(start);
    let ghost unscored = g_score@;
    g_score[si] = 0;
    let h0 = manhattan_distance(start, goal);
    open.push(Node { position: start, g_cost: 0, f_cost: h0 });
    proof {
        assert forall|c: Pos| #[trigger] scored(g_score@, c) implies c == start by {
            if c != start {
                lemma_idx_injective(c, start);
            }
        }
        lemma_count_scored_set(unscored, si as int, 0);
        lemma_count_scored_none(unscored);
        assert(open@[0].position == start);
    }
    loop
        invariant
            map.wf(),
            map.passable(start),
            start != goal,
            in_bounds(goal),
            g_score@.len() == MAP_SIZE * MAP_SIZE,
            came_from@.len() == MAP_SIZE * MAP_SIZE,
            g_score@[idx(start)] == 0,
            in_bounds(start),
            count_scored(g_score@) <= MAP_SIZE * MAP_SIZE,
            forall|c: Pos| #[trigger]
                scored(g_score@, c) ==> g_score@[idx(c)] < count_scored(g_score@),
            forall|c: Pos|
                #[trigger] scored(g_score@, c) && c != start ==> {
                    let p = came_from@[idx(c)];
                    &&& scored(g_score@, p)
                    &&& adjacent(p, c)
                    &&& g_score@[idx(p)] < g_score@[idx(c)]
                    &&& map.passable(c)
                },
            forall|i: int| 0 <= i < open@.len() ==> scored(g_score@, #[trigger] open@[i].position),
            forall|c: Pos|
                #[trigger] scored(g_score@, c) ==> in_open(open@, c) || (c != goal && forall|d: Pos|
                    #[trigger] adjacent(c, d) && map.passable(d) ==> scored(g_score@, d)),
        decreases sum(g_score@), open@.len(),
    {
        if open.len() == 0 {
            proof {
                if map.connected(start, goal) {
                    let w = choose|w: Seq<Pos>|
                        #[trigger] map.is_walk(w) && w[0] == start && w.last() == goal;
                    let inside = |c: Pos| scored(g_score@, c);
                    assert forall|a: Pos, b: Pos|
                        inside(a) && #[trigger] adjacent(a, b) && map.passable(b) implies inside(
                            b,
                        ) by {
                        assert(!in_open(open@, a));
                    }
                    assert(inside(w[0]));
                    lemma_closed_holds_walk(map, inside, w);
                    assert(inside(goal));
                    assert(!in_open(open@, goal));
                }
            }
            return VecDeque::new();
        }
        let ghost open0 = open@;
        let ghost sum0 = sum(g_score@);
        let best = cheapest(&open);
        let current = open.remove(best);
        let cur = current.position;
        proof {
            assert(scored(g_score@, open0[best as int].position));
            assert forall|c: Pos| #[trigger]
                in_open(open0, c) && c != cur implies in_open(open@, c) by {
                let i = choose|i: int| 0 <= i < open0.len() && (#[trigger] open0[i]).position == c;
                if i < best {
                    assert(open@[i] == open0[i]);
                } else {
                    assert(i != best);
                    assert(open@[i - 1] == open0[i]);
                }
            }
        }
        if cur.0 == goal.0 && cur.1 == goal.1 {
            let mut path: VecDeque<Pos> = VecDeque::new();
            let mut node = goal;
            while node.0 != start.0 || node.1 != start.1
                invariant
                    map.wf(),
                    g_score@.len() == MAP_SIZE * MAP_SIZE,
                    came_from@.len() == MAP_SIZE * MAP_SIZE,
                    scored(g_score@, node),
                    forall|c: Pos|
                        #[trigger] scored(g_score@, c) && c != start ==> {
                            let p = came_from@[idx(c)];
                            &&& scored(g_score@, p)
                            &&& adjacent(p, c)
                            &&& g_score@[idx(p)] < g_score@[idx(c)]
                            &&& map.passable(c)
                        },
                    is_route(map, node, path@),
                    path@.len() > 0 ==> path@.last() == goal,
                    path@.len() == 0 ==> node == goal,
                    g_score@[idx(start)] == 0,
                    in_bounds(start),
                    forall|i: int|
                        0 <= i < path@.len() ==> g_score@[idx(node)] < g_score@[idx(
                            #[trigger] path@[i],
                        )],
                    forall|i: int, j: int|
                        0 <= i < j < path@.len() ==> g_score@[idx(#[trigger] path@[i])]
                            < g_score@[idx(#[trigger] path@[j])],
                decreases g_score@[idx(node)],
            {
                let ghost before = path@;
                let ghost gn = g_score@[idx(node)];
                path.push_front(node);
                proof {
                    assert(node != start);
                    assert forall|i: int, j: int| 0 <= i < j < path@.len() implies g_score@[idx(
                        #[trigger] path@[i],
                    )] < g_score@[idx(#[trigger] path@[j])] by {
                        if i > 0 {
                            assert(path@[i] == before[i - 1]);
                        }
                        assert(path@[j] == before[j - 1]);
                    }
                    assert forall|i: int| 0 <= i < path@.len() implies gn <= g_score@[idx(
                        #[trigger] path@[i],
                    )] by {
                        if i > 0 {
                            assert(path@[i] == before[i - 1]);
                        }
                    }
                    assert forall|i: int| 0 <= i < path@.len() implies map.passable(
                        #[trigger] path@[i],
                    ) by {
                        if i > 0 {
                            assert(path@[i] == before[i - 1]);
                        }
                    }
                    assert forall|i: int| 0 <= i < path@.len() - 1 implies adjacent(
                        #[trigger] path@[i],
                        path@[i + 1],
                    ) by {
                        if i > 0 {
                            assert(path@[i] == before[i - 1] && path@[i + 1] == before[i]);
                        }
                    }
                }
                let ni = index_of(node);
                node = came_from[ni];
            }
            proof {
                assert(node == start);
                lemma_route_connects(map, start, path@);
                assert forall|i: int| 0 <= i < path@.len() implies #[trigger] path@[i] != start by {
                    assert(map.passable(path@[i]));
                }
                assert forall|i: int, j: int| 0 <= i < j < path@.len() implies #[trigger] path@[i]
                    != #[trigger] path@[j] by {
                    assert(map.passable(path@[i]) && map.passable(path@[j]));
                }
            }
            return path;
        }
        let ghost g1 = g_score@;
        let ghost open1 = open@;
        let ci = index_of(cur);
        let mut k: usize = 0;
        while k < 9
            invariant
                map.wf(),
                map.passable(start),
                start != goal,
                in_bounds(goal),
                in_bounds(cur),
                cur != goal,
                ci as int == idx(cur),
                k <= 9,
                g_score@.len() == MAP_SIZE * MAP_SIZE,
                came_from@.len() == MAP_SIZE * MAP_SIZE,
                g_score@[idx(start)] == 0,
                in_bounds(start),
                scored(g_score@, cur),
                count_scored(g_score@) <= MAP_SIZE * MAP_SIZE,
                sum(g_score@) + open@.len() <= sum0 + open1.len(),
                sum(g_score@) <= sum0,
                open1.len() + 1 == open0.len(),
                open@.len() >= open1.len(),
                forall|i: int| 0 <= i < open1.len() ==> open@[i] == open1[i],
                forall|c: Pos| #[trigger] in_open(open0, c) && c != cur ==> in_open(open1, c),
                forall|c: Pos| #[trigger]
                    scored(g_score@, c) ==> g_score@[idx(c)] < count_scored(g_score@),
                forall|c: Pos|
                    #[trigger] scored(g_score@, c) && c != start ==> {
                        let p = came_from@[idx(c)];
                        &&& scored(g_score@, p)
                        &&& adjacent(p, c)
                        &&& g_score@[idx(p)] < g_score@[idx(c)]
                        &&& map.passable(c)
                    },
                forall|i: int| 0 <= i < open@.len() ==> scored(g_score@, #[trigger] open@[i].position),
                forall|c: Pos|
                    #[trigger] scored(g_score@, c) && c != cur ==> in_open(open@, c) || (c != goal
                        && forall|d: Pos|
                        #[trigger] adjacent(c, d) && map.passable(d) ==> scored(g_score@, d)),
                forall|j: int|
                    0 <= j < k && (#[trigger] neighbor_spec(cur, j)).is_some() && map.passable(
                        neighbor_spec(cur, j).unwrap(),
                    ) ==> scored(g_score@, neighbor_spec(cur, j).unwrap()),
            decreases 9 - k,
        {
            if let Some(nb) = neighbor(cur, k) {
                proof {
                    lemma_neighbor_is_adjacent(cur, k as int);
                }
                if map.is_valid_position(nb.0, nb.1) {
                    let tentative = g_score[ci] + 1;
                    let ni = index_of(nb);
                    if g_score[ni] == UNSCORED || tentative < g_score[ni] {
                        let ghost gb = g_score@;
                        let ghost ob = open@;
                        proof {
                            lemma_idx_injective(cur, nb);
                            if gb[ni as int] >= UNSCORED {
                                lemma_count_scored_bound(gb, ni as int);
                            }
                            lemma_count_scored_set(gb, ni as int, tentative);
                            lemma_sum_update(gb, ni as int, tentative);
                        }
                        came_from[ni] = cur;
                        g_score[ni] = tentative;
                        let h = manhattan_distance(nb, goal);
                        open.push(Node { position: nb, g_cost: tentative, f_cost: tentative + h });
                        proof {
                            assert forall|c: Pos| #[trigger] scored(g_score@, c) implies (c == nb
                                || scored(gb, c)) && (c != nb ==> g_score@[idx(c)] == gb[idx(c)]) by {
                                if c != nb {
                                    lemma_idx_injective(c, nb);
                                }
                            }
                            assert forall|c: Pos| scored(gb, c) implies #[trigger] scored(g_score@, c) by {
                                if c != nb {
                                    lemma_idx_injective(c, nb);
                                }
                            }
                            assert forall|c: Pos| #[trigger] in_open(ob, c) implies in_open(open@, c) by {
                                let i = choose|i: int| 0 <= i < ob.len() && (#[trigger] ob[i]).position == c;
                                assert(open@[i] == ob[i]);
                            }
                            assert(open@[open@.len() - 1].position == nb);
                            assert(in_open(open@, nb));
                            assert(gb[ci as int] == gb[idx(cur)]);
                            assert(scored(gb, cur));
                            assert(gb[idx(cur)] < count_scored(gb));
                            assert(tentative == gb[idx(cur)] + 1);
                            if gb[ni as int] >= UNSCORED {
                                assert(count_scored(g_score@) == count_scored(gb) + 1);
                            } else {
                                assert(scored(gb, nb));
                                assert(gb[idx(nb)] < count_scored(gb));
                                assert(count_scored(g_score@) == count_scored(gb));
                            }
                            assert(tentative < count_scored(g_score@));
                            assert(count_scored(g_score@) >= count_scored(gb));
                            assert forall|c: Pos| #[trigger] scored(g_score@, c) implies g_score@[idx(
                                c,
                            )] < count_scored(g_score@) by {
                                if c != nb {
                                    lemma_idx_injective(c, nb);
                                    assert(scored(gb, c));
                                } else {
                                    assert(g_score@[idx(c)] == tentative);
                                }
                            }
                        }
                    }
                }
            }
            k = k + 1;
        }
        proof {
            assert forall|d: Pos| #[trigger] adjacent(cur, d) && map.passable(d) implies scored(g_score@, d) by {
                lemma_adjacent_is_neighbor(cur, d);
                let j = 3 * (d.1 + 1 - cur.1) + (d.0 + 1 - cur.0);
                assert(neighbor_spec(cur, j) == Some(d));
            }
            lemma_sum_nonneg(g_score@);
        }
    }
}

} // verus!
