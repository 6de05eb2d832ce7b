use vstd::prelude::*;
use vstd::set_lib::{lemma_int_range, lemma_len_subset, set_int_range};
use std::collections::VecDeque;

use crate::grid::{lemma_neighbor_rank, Grid};

verus! {

/// The result of a breadth-first search over the grid from the target cell
/// (the base) through the walkable cells: for each cell reached, the number
/// of steps to the target and the next cell on a shortest way there.
pub struct FlowField {
    pub parent: Vec<Option<usize>>,
    pub distance: Vec<Option<usize>>,
}

/// Cell `i` was reached by the search.
pub open spec fn reached(distance: Seq<Option<usize>>, i: int) -> bool {
    distance[i] is Some
}

/// Number of steps from cell `i` to the target.
pub open spec fn dist(distance: Seq<Option<usize>>, i: int) -> int {
    distance[i]->Some_0 as int
}

/// Every walkable neighbour of `i` is reached, at most one step further.
pub open spec fn closed_at(grid: Grid, walkable: Seq<bool>, distance: Seq<Option<usize>>, i: int) -> bool {
    forall|j: int|
        0 <= j < grid.len() && #[trigger] grid.is_neighbor(i, j) && walkable[j] ==> reached(distance, j)
            && dist(distance, j) <= dist(distance, i) + 1
}

/// A reached cell other than the target is walkable, and its parent is a
/// reached neighbour one step closer to the target.
pub open spec fn parent_ok(
    grid: Grid,
    walkable: Seq<bool>,
    parent: Seq<Option<usize>>,
    distance: Seq<Option<usize>>,
    target: int,
    i: int,
) -> bool {
    &&& !reached(distance, i) ==> parent[i] is None
    &&& (reached(distance, i) && i != target) ==> {
        &&& walkable[i]
        &&& parent[i] is Some
        &&& (parent[i]->Some_0 as int) < grid.len()
        &&& grid.is_neighbor(parent[i]->Some_0 as int, i)
        &&& reached(distance, parent[i]->Some_0 as int)
        &&& dist(distance, parent[i]->Some_0 as int) + 1 == dist(distance, i)
    }
}

/// Among the neighbours of `j` one step nearer the target, `j`'s parent is
/// the one the search meets first: no other has a lower rank.
pub open spec fn parent_is_earliest(grid: Grid, parent: Seq<Option<usize>>, distance: Seq<Option<usize>>, j: int) -> bool {
    forall|q: int|
        0 <= q < grid.len() && #[trigger] grid.is_neighbor(q, j) && reached(distance, q) && dist(distance, q) + 1 == dist(distance, j)
            ==> rank(grid, parent, distance, parent[j]->Some_0 as int) <= rank(grid, parent, distance, q)
}

/// Each walkable neighbour of `x` one step further from the target has a
/// parent that the search met no later than `x`.
pub open spec fn earliest_parent_at(
    grid: Grid,
    walkable: Seq<bool>,
    parent: Seq<Option<usize>>,
    distance: Seq<Option<usize>>,
    target: int,
    x: int,
) -> bool {
    forall|j: int|
        0 <= j < grid.len() && #[trigger] grid.is_neighbor(x, j) && walkable[j] && reached(distance, j) && j != target
            && dist(distance, j) == dist(distance, x) + 1 ==> rank(grid, parent, distance, parent[j]->Some_0 as int) <= rank(
            grid,
            parent,
            distance,
            x,
        )
}

impl FlowField {
    /// `self` is the breadth-first flow field of `grid` towards `target`
    /// through the cells marked in `walkable`: the target is at distance 0
    /// with no parent; every other reached cell is walkable and its parent is
    /// a neighbour one step closer; and the reached cells are closed under
    /// walkable neighbours, which makes each distance the length of a
    /// shortest walkable way to the target and the reached cells exactly
    /// those from which the target can be walked to. Of the neighbours one
    /// step closer, a cell's parent is the one met first by the search, the
    /// cells being met in order of distance and, at one distance, of rank.
    pub open spec fn is_flow_field(self, grid: Grid, target: int, walkable: Seq<bool>) -> bool {
        &&& self.parent@.len() == grid.len()
        &&& self.distance@.len() == grid.len()
        &&& 0 <= target < grid.len()
        &&& self.distance@[target] == Some(0usize)
        &&& self.parent@[target] is None
        &&& forall|i: int| 0 <= i < grid.len() ==> #[trigger] parent_ok(grid, walkable, self.parent@, self.distance@, target, i)
        &&& forall|i: int| 0 <= i < grid.len() && reached(self.distance@, i) ==> #[trigger] closed_at(grid, walkable, self.distance@, i)
        &&& forall|j: int|
            0 <= j < grid.len() && reached(self.distance@, j) && j != target ==> #[trigger] parent_is_earliest(grid, self.parent@, self.distance@, j)
    }
}

impl FlowField {
    /// Each parent link goes from a reached cell to a reached cell exactly
    /// one step closer to the target, and every reached cell other than those
    /// at distance 0 has a parent: following parents always ends.
    pub open spec fn chains_well(self) -> bool {
        &&& self.parent@.len() == self.distance@.len()
        &&& forall|i: int|
            0 <= i < self.parent@.len() && (#[trigger] self.parent@[i]) is Some ==> {
                let p = self.parent@[i]->Some_0 as int;
                &&& p < self.parent@.len()
                &&& reached(self.distance@, i)
                &&& reached(self.distance@, p)
                &&& dist(self.distance@, p) + 1 == dist(self.distance@, i)
            }
        &&& forall|i: int|
            0 <= i < self.parent@.len() && reached(self.distance@, i) && dist(self.distance@, i) > 0
                ==> (#[trigger] self.parent@[i]) is Some
    }

    /// The cells met by following parents from `start`, `start` excluded:
    /// as many as `start`'s distance (none when `start` was not reached).
    pub open spec fn is_path_from(self, start: int, path: Seq<usize>) -> bool {
        &&& path.len() == (if reached(self.distance@, start) { dist(self.distance@, start) } else { 0 })
        &&& path.len() > 0 ==> self.parent@[start] == Some(path[0])
        &&& forall|k: int| 0 <= k < path.len() - 1 ==> self.parent@[#[trigger] path[k] as int] == Some(path[k + 1])
        &&& forall|k: int| 0 <= k < path.len() ==> reached(self.distance@, #[trigger] path[k] as int)
            && dist(self.distance@, path[k] as int) == dist(self.distance@, start) - k - 1
    }
}

/// A breadth-first flow field has well-founded parent chains.
pub proof fn lemma_flow_field_chains_well(field: FlowField, grid: Grid, target: int, walkable: Seq<bool>)
    requires
        field.is_flow_field(grid, target, walkable),
    ensures
        field.chains_well(),
{
    assert forall|i: int| 0 <= i < field.parent@.len() && (#[trigger] field.parent@[i]) is Some implies {
        let p = field.parent@[i]->Some_0 as int;
        &&& p < field.parent@.len()
        &&& reached(field.distance@, i)
        &&& reached(field.distance@, p)
        &&& dist(field.distance@, p) + 1 == dist(field.distance@, i)
    } by {
        assert(parent_ok(grid, walkable, field.parent@, field.distance@, target, i));
    }
    assert forall|i: int| 0 <= i < field.parent@.len() && reached(field.distance@, i) && dist(field.distance@, i) > 0
        implies (#[trigger] field.parent@[i]) is Some by {
        assert(parent_ok(grid, walkable, field.parent@, field.distance@, target, i));
    }
}

/// The way from `start` to the target along parent links, `start` left out:
/// the first cell is `start`'s parent, each next one the parent of the one
/// before, and the last one is at distance 0 (the target).
pub fn trace_path(field: &FlowField, start: usize) -> (path: Vec<usize>)
    requires
        field.chains_well(),
        start < field.parent@.len(),
    ensures
        field.is_path_from(start as int, path@),
{
    let mut path: Vec<usize> = Vec::new();
    let mut cur = start;
    let ghost d0 = if reached(field.distance@, start as int) { dist(field.distance@, start as int) } else { 0 };
    while field.parent[cur].is_some()
        invariant
            field.chains_well(),
            cur < field.parent@.len(),
            path@.len() == 0 ==> cur == start,
            path@.len() > 0 ==> cur == path@[path@.len() - 1] && field.parent@[start as int] == Some(path@[0]),
            field.parent@[cur as int] is Some ==> reached(field.distance@, cur as int),
            reached(field.distance@, cur as int) ==> dist(field.distance@, cur as int) == d0 - path@.len(),
            !reached(field.distance@, cur as int) ==> path@.len() == 0 && d0 == 0,
            d0 == (if reached(field.distance@, start as int) { dist(field.distance@, start as int) } else { 0 }),
            forall|k: int| 0 <= k < path@.len() - 1 ==> field.parent@[#[trigger] path@[k] as int] == Some(path@[k + 1]),
            forall|k: int| 0 <= k < path@.len() ==> reached(field.distance@, #[trigger] path@[k] as int)
                && dist(field.distance@, path@[k] as int) == d0 - k - 1,
        decreases (if reached(field.distance@, cur as int) { dist(field.distance@, cur as int) } else { 0 }),
    {
        let next = field.parent[cur].unwrap();
        proof {
            assert(field.parent@[cur as int] is Some);
        }
        path.push(next);
        cur = next;
    }
    proof {
        if reached(field.distance@, cur as int) && dist(field.distance@, cur as int) > 0 {
            assert(field.parent@[cur as int] is Some);
        }
    }
    path
}

impl FlowField {
    /// Whether cell `index` was reached, i.e. the target can be walked to
    /// from it.
    pub fn is_reached(&self, index: usize) -> (r: bool)
        requires
            index < self.distance@.len(),
        ensures
            r == reached(self.distance@, index as int),
    {
        self.distance[index].is_some()
    }
}

/// A walk that starts at the target and steps from cell to neighbouring
/// walkable cell.
pub open spec fn is_walk_from_target(grid: Grid, target: int, walkable: Seq<bool>, walk: Seq<int>) -> bool {
    &&& walk.len() >= 1
    &&& walk[0] == target
    &&& forall|k: int|
        0 < k < walk.len() ==> 0 <= #[trigger] walk[k] < grid.len() && walkable[walk[k]] && grid.is_neighbor(walk[k - 1], walk[k])
}

/// Distances are shortest: the last cell of any walk from the target
/// through walkable cells is reached, at a distance no greater than the
/// number of steps of the walk.
pub proof fn lemma_flow_field_shortest(field: FlowField, grid: Grid, target: int, walkable: Seq<bool>, walk: Seq<int>)
    requires
        field.is_flow_field(grid, target, walkable),
        is_walk_from_target(grid, target, walkable, walk),
    ensures
        reached(field.distance@, walk.last()),
        dist(field.distance@, walk.last()) <= walk.len() - 1,
    decreases walk.len(),
{
    if walk.len() > 1 {
        let prefix = walk.drop_last();
        assert(is_walk_from_target(grid, target, walkable, prefix)) by {
            assert forall|k: int| 0 < k < prefix.len() implies 0 <= #[trigger] prefix[k] < grid.len() && walkable[prefix[k]]
                && grid.is_neighbor(prefix[k - 1], prefix[k]) by {
                assert(prefix[k] == walk[k] && prefix[k - 1] == walk[k - 1]);
            }
        }
        lemma_flow_field_shortest(field, grid, target, walkable, prefix);
        let i = prefix.last();
        let j = walk.last();
        assert(i == walk[walk.len() - 2]);
        assert(0 <= i < grid.len()) by {
            if walk.len() > 2 {
                assert(0 <= walk[walk.len() - 2] < grid.len());
            }
        }
        assert(closed_at(grid, walkable, field.distance@, i));
        assert(0 <= walk[walk.len() - 1] < grid.len() && walkable[j] && grid.is_neighbor(i, j));
    }
}

/// `waypoint` is what the search along `path` from `start` yields: the cell
/// nearest the end of the path that can be seen from `start`, the cells
/// being tried from the end backwards; `None` when none can be seen.
pub open spec fn is_waypoint<F: Fn(usize, usize) -> bool>(
    start: usize,
    path: Seq<usize>,
    line_of_sight: F,
    waypoint: Option<usize>,
) -> bool {
    &&& waypoint matches Some(c) ==> exists|k: int|
        0 <= k < path.len() && path[k] == c && line_of_sight.ensures((start, path[k]), true)
            && forall|m: int| k < m < path.len() ==> line_of_sight.ensures((start, #[trigger] path[m]), false)
    &&& waypoint is None ==> forall|m: int| 0 <= m < path.len() ==> line_of_sight.ensures((start, #[trigger] path[m]), false)
}

/// `waypoint` is the waypoint found along the path from cell `start`.
pub open spec fn is_waypoint_of<F: Fn(usize, usize) -> bool>(field: FlowField, start: int, line_of_sight: F, waypoint: Option<usize>) -> bool {
    exists|path: Seq<usize>| field.is_path_from(start, path) && is_waypoint(start as usize, path, line_of_sight, waypoint)
}

/// Following parents from a cell gives a single path.
pub proof fn lemma_path_unique(field: FlowField, start: int, p1: Seq<usize>, p2: Seq<usize>)
    requires
        field.is_path_from(start, p1),
        field.is_path_from(start, p2),
    ensures
        p1 == p2,
{
    assert forall|k: int| 0 <= k < p1.len() implies p1[k] == p2[k] by {
        lemma_path_prefix_equal(field, start, p1, p2, k);
    }
    assert(p1 =~= p2);
}

proof fn lemma_path_prefix_equal(field: FlowField, start: int, p1: Seq<usize>, p2: Seq<usize>, k: int)
    requires
        field.is_path_from(start, p1),
        field.is_path_from(start, p2),
        0 <= k < p1.len(),
    ensures
        p1[k] == p2[k],
    decreases k,
{
    if k > 0 {
        lemma_path_prefix_equal(field, start, p1, p2, k - 1);
        assert(field.parent@[p1[k - 1] as int] == Some(p1[k]));
        assert(field.parent@[p2[k - 1] as int] == Some(p2[k]));
    }
}

/// For every cell, the waypoint that an enemy standing there heads for:
/// the cell farthest along its way to the target (the target side first)
/// that `line_of_sight(start, cell)` accepts; `None` for a cell with no way
/// to the target, or with no such cell in sight. `line_of_sight` is only
/// ever asked about two different cells, so it need only accept those.
pub fn waypoints<F: Fn(usize, usize) -> bool>(field: &FlowField, line_of_sight: F) -> (r: Vec<Option<usize>>)
    requires
        field.chains_well(),
        forall|a: usize, b: usize| a != b ==> line_of_sight.requires((a, b)),
    ensures
        r@.len() == field.parent@.len(),
        forall|s: int| 0 <= s < r@.len() ==> is_waypoint_of(*field, s, line_of_sight, #[trigger] r@[s]),
{
    let n = field.parent.len();
    let mut r: Vec<Option<usize>> = Vec::new();
    let mut start: usize = 0;
    while start < n
        invariant
            field.chains_well(),
            n == field.parent@.len(),
            forall|a: usize, b: usize| a != b ==> line_of_sight.requires((a, b)),
            start <= n,
            r@.len() == start,
            forall|s: int| 0 <= s < r@.len() ==> is_waypoint_of(*field, s, line_of_sight, #[trigger] r@[s]),
        decreases n - start,
    {
        let path = trace_path(field, start);
        let mut k = path.len();
        let mut found: Option<usize> = None;
        while k > 0
            invariant_except_break
                found is None,
            invariant
                k <= path@.len(),
                field.is_path_from(start as int, path@),
                forall|a: usize, b: usize| a != b ==> line_of_sight.requires((a, b)),
                forall|m: int| k <= m < path@.len() ==> line_of_sight.ensures((start, #[trigger] path@[m]), false),
            ensures
                is_waypoint(start, path@, line_of_sight, found),
            decreases k,
        {
            let c = path[k - 1];
            proof {
                assert(reached(field.distance@, c as int));
                assert(reached(field.distance@, start as int));
                assert(dist(field.distance@, c as int) < dist(field.distance@, start as int));
            }
            if line_of_sight(start, c) {
                found = Some(c);
                proof {
                    assert(path@[k - 1] == c);
                    assert(is_waypoint(start, path@, line_of_sight, found));
                }
                break;
            }
            k = k - 1;
        }
        proof {
            assert(is_waypoint(start, path@, line_of_sight, found));
        }
        let ghost old_r = r@;
        r.push(found);
        proof {
            assert(r@[start as int] == found);
            assert forall|s: int| 0 <= s < r@.len() implies is_waypoint_of(*field, s, line_of_sight, #[trigger] r@[s]) by {
                if s == start {
                    assert(field.is_path_from(s, path@) && is_waypoint(s as usize, path@, line_of_sight, r@[s]));
                } else {
                    assert(r@[s] == old_r[s]);
                }
            }
        }
        start = start + 1;
    }
    r
}

/// Order in which the search meets the cells at one distance from the
/// target: the target has rank 0, and a cell met from its parent gets four
/// times the parent's rank plus its position among the parent's
/// neighbours. Cells nearer the target are met first; at one distance,
/// lower ranks first.
pub open spec fn rank(grid: Grid, parent: Seq<Option<usize>>, distance: Seq<Option<usize>>, i: int) -> int
    decreases (if 0 <= i < distance.len() && reached(distance, i) { dist(distance, i) } else { 0 }),
{
    if 0 <= i < distance.len() && reached(distance, i) && 0 <= i < parent.len() && parent[i] is Some {
        let p = parent[i]->Some_0 as int;
        if 0 <= p < distance.len() && reached(distance, p) && dist(distance, p) < dist(distance, i) {
            4 * rank(grid, parent, distance, p) + grid.neighbor_rank(p, i)
        } else {
            0
        }
    } else {
        0
    }
}

/// Cell `i` is met by the search before cell `j`.
pub open spec fn met_before(grid: Grid, parent: Seq<Option<usize>>, distance: Seq<Option<usize>>, i: int, j: int) -> bool {
    ||| dist(distance, i) < dist(distance, j)
    ||| (dist(distance, i) == dist(distance, j) && rank(grid, parent, distance, i) < rank(grid, parent, distance, j))
}

/// Ranks depend only on the reached cells: changing the parent or distance of
/// cells not reached leaves the ranks of the reached ones as they were.
proof fn lemma_rank_frame(
    grid: Grid,
    p1: Seq<Option<usize>>,
    d1: Seq<Option<usize>>,
    p2: Seq<Option<usize>>,
    d2: Seq<Option<usize>>,
    i: int,
)
    requires
        p1.len() == d1.len(),
        p2.len() == d2.len(),
        d1.len() == d2.len(),
        forall|k: int| 0 <= k < d1.len() && reached(d1, k) ==> #[trigger] d2[k] == d1[k] && p2[k] == p1[k],
        forall|k: int|
            0 <= k < d1.len() && reached(d1, k) && (#[trigger] p1[k]) is Some ==> (p1[k]->Some_0 as int) < d1.len() && reached(d1, p1[k]->Some_0 as int),
        0 <= i < d1.len(),
        reached(d1, i),
    ensures
        rank(grid, p2, d2, i) == rank(grid, p1, d1, i),
    decreases dist(d1, i),
{
    assert(d2[i] == d1[i] && p2[i] == p1[i]);
    if p1[i] is Some {
        let p = p1[i]->Some_0 as int;
        assert(reached(d1, p));
        assert(d2[p] == d1[p]);
        if dist(d1, p) < dist(d1, i) {
            lemma_rank_frame(grid, p1, d1, p2, d2, p);
        }
    }
}

/// Breadth-first search from `target` over the grid's cells, stepping only
/// onto walkable cells (the target itself is always the start).
pub fn compute_flow_field(grid: &Grid, target: usize, walkable: &Vec<bool>) -> (field: FlowField)
    requires
        grid.wf(),
        target < grid.len(),
        walkable@.len() == grid.len(),
    ensures
        field.is_flow_field(*grid, target as int, walkable@),
        field.chains_well(),
{
    let n = grid.cell_count();
    let mut parent: Vec<Option<usize>> = Vec::new();
    let mut distance: Vec<Option<usize>> = Vec::new();
    let mut k: usize = 0;
    while k < n
        invariant
            k <= n,
            parent@.len() == k,
            distance@.len() == k,
            forall|i: int| 0 <= i < k ==> parent@[i] is None && distance@[i] is None,
        decreases n - k,
    {
        parent.push(None);
        distance.push(None);
        k = k + 1;
    }
    distance.set(target, Some(0));
    let mut queue: VecDeque<usize> = VecDeque::new();
    queue.push_back(target);
    let ghost mut seen: Set<int> = set![target as int];
    let ghost mut done: Set<int> = Set::empty();
    let ghost mut level: int = 0;
    let ghost t = target as int;
    proof {
        assert forall|i: int| seen.contains(i) <==> (0 <= i < n && reached(distance@, i)) by {}
        assert(seen.len() == 1) by {
            assert(seen =~= Set::<int>::empty().insert(t));
        }
        assert forall|i: int| 0 <= i < n implies #[trigger] parent_ok(*grid, walkable@, parent@, distance@, t, i) by {}
        assert(queue@[0] == target);
    }
    loop
        invariant
            grid.wf(),
            n == grid.len(),
            t == target,
            t < n,
            walkable@.len() == n,
            parent@.len() == n,
            distance@.len() == n,
            seen.finite(),
            seen.len() <= n,
            forall|i: int| seen.contains(i) <==> (0 <= i < n && reached(distance@, i)),
            distance@[t] == Some(0usize),
            parent@[t] is None,
            forall|i: int| 0 <= i < n ==> #[trigger] parent_ok(*grid, walkable@, parent@, distance@, t, i),
            forall|i: int| 0 <= i < n && #[trigger] reached(distance@, i) ==> dist(distance@, i) < seen.len() && dist(distance@, i) <= level + 1,
            forall|a: int| 0 <= a < queue@.len() ==> (#[trigger] queue@[a] as int) < n && reached(distance@, queue@[a] as int)
                && level <= dist(distance@, queue@[a] as int) <= level + 1,
            forall|a: int, b: int| 0 <= a < b < queue@.len() ==> met_before(*grid, parent@, distance@, #[trigger] queue@[a] as int, #[trigger] queue@[b] as int),
            forall|x: int, a: int| #[trigger] done.contains(x) && 0 <= a < queue@.len() ==> met_before(*grid, parent@, distance@, x, #[trigger] queue@[a] as int),
            forall|j: int| 0 <= j < n && #[trigger] reached(distance@, j) && j != t ==> done.contains(parent@[j]->Some_0 as int),
            forall|i: int| 0 <= i < n && reached(distance@, i) ==> #[trigger] done.contains(i) || queue@.contains(i as usize),
            forall|i: int| #[trigger] done.contains(i) ==> 0 <= i < n && reached(distance@, i) && closed_at(*grid, walkable@, distance@, i)
                && earliest_parent_at(*grid, walkable@, parent@, distance@, t, i),
        ensures
            parent@.len() == n,
            distance@.len() == n,
            distance@[t] == Some(0usize),
            parent@[t] is None,
            forall|i: int| 0 <= i < n ==> #[trigger] parent_ok(*grid, walkable@, parent@, distance@, t, i),
            forall|i: int| 0 <= i < n && reached(distance@, i) ==> #[trigger] closed_at(*grid, walkable@, distance@, i),
            forall|i: int| 0 <= i < n && reached(distance@, i) ==> #[trigger] earliest_parent_at(*grid, walkable@, parent@, distance@, t, i),
        decreases n - seen.len(), queue@.len(),
    {
        let ghost queue_before = queue@;
        let popped = queue.pop_front();
        match popped {
            None => {
                proof {
                    assert forall|i: int| 0 <= i < n && reached(distance@, i) implies #[trigger] closed_at(*grid, walkable@, distance@, i) by {
                        assert(!queue@.contains(i as usize));
                        assert(done.contains(i));
                    }
                    assert forall|i: int| 0 <= i < n && reached(distance@, i) implies #[trigger] earliest_parent_at(*grid, walkable@, parent@, distance@, t, i) by {
                        assert(!queue@.contains(i as usize));
                        assert(done.contains(i));
                    }
                }
                break;
            },
            Some(cur) => {
                let ghost qlen = queue@.len();
                let ghost seen0 = seen;
                let d = distance[cur].unwrap();
                proof {
                    assert(queue_before[0] == cur);
                    assert forall|a: int| 0 <= a < queue@.len() implies met_before(*grid, parent@, distance@, cur as int, #[trigger] queue@[a] as int) by {
                        assert(queue@[a] == queue_before[a + 1]);
                    }
                    assert forall|x: int, a: int| #[trigger] done.contains(x) && 0 <= a < queue@.len() implies met_before(*grid, parent@, distance@, x, #[trigger] queue@[a] as int) by {
                        assert(queue@[a] == queue_before[a + 1]);
                    }
                    assert forall|x: int| #[trigger] done.contains(x) implies met_before(*grid, parent@, distance@, x, cur as int) by {
                        assert(queue_before[0] == cur);
                    }
                    assert forall|a: int, b: int| 0 <= a < b < queue@.len() implies met_before(*grid, parent@, distance@, #[trigger] queue@[a] as int, #[trigger] queue@[b] as int) by {
                        assert(queue@[a] == queue_before[a + 1]);
                        assert(queue@[b] == queue_before[b + 1]);
                    }
                    assert(!done.contains(cur as int));
                    assert forall|i: int| 0 <= i < n && reached(distance@, i) implies #[trigger] done.contains(i) || queue@.contains(i as usize) || i == cur by {
                        if !done.contains(i) && i != cur {
                            assert(queue_before.contains(i as usize));
                            let a = choose|a: int| 0 <= a < queue_before.len() && queue_before[a] == i as usize;
                            assert(a > 0);
                            assert(queue@[a - 1] == i as usize);
                        }
                    }
                    assert forall|j: int| 0 <= j < n && #[trigger] parent@[j] == Some(cur) implies grid.neighbor_rank(cur as int, j) < 0 by {
                        assert(parent_ok(*grid, walkable@, parent@, distance@, t, j));
                        if reached(distance@, j) && j != t {
                            assert(done.contains(parent@[j]->Some_0 as int));
                        }
                    }
                    level = d as int;
                    assert forall|a: int| 0 <= a < queue@.len() implies level <= dist(distance@, #[trigger] queue@[a] as int) by {
                        assert(met_before(*grid, parent@, distance@, cur as int, queue@[a] as int));
                    }
                }
                let nbrs = grid.neighbor_indices(cur);
                let mut m: usize = 0;
                while m < nbrs.len()
                    invariant
                        grid.wf(),
                        n == grid.len(),
                        t == target,
                        t < n,
                        cur < n,
                        reached(distance@, cur as int),
                        d == dist(distance@, cur as int),
                        level == d,
                        !done.contains(cur as int),
                        m <= nbrs@.len(),
                        nbrs@.map_values(|j: usize| j as int) == grid.neighbors(cur as int),
                        forall|a: int| 0 <= a < nbrs@.len() ==> (nbrs@[a] as int) < n,
                        walkable@.len() == n,
                        parent@.len() == n,
                        distance@.len() == n,
                        seen.finite(),
                        seen.len() <= n,
                        seen0.len() <= seen.len(),
                        queue@.len() + seen0.len() == qlen + seen.len(),
                        forall|i: int| seen.contains(i) <==> (0 <= i < n && reached(distance@, i)),
                        distance@[t] == Some(0usize),
                        parent@[t] is None,
                        forall|i: int| 0 <= i < n ==> #[trigger] parent_ok(*grid, walkable@, parent@, distance@, t, i),
                        forall|i: int| 0 <= i < n && #[trigger] reached(distance@, i) ==> dist(distance@, i) < seen.len() && dist(distance@, i) <= level + 1,
                        forall|a: int| 0 <= a < queue@.len() ==> (#[trigger] queue@[a] as int) < n && reached(distance@, queue@[a] as int)
                            && level <= dist(distance@, queue@[a] as int) <= level + 1,
                        forall|a: int, b: int| 0 <= a < b < queue@.len() ==> met_before(*grid, parent@, distance@, #[trigger] queue@[a] as int, #[trigger] queue@[b] as int),
                        forall|x: int, a: int| #[trigger] done.contains(x) && 0 <= a < queue@.len() ==> met_before(*grid, parent@, distance@, x, #[trigger] queue@[a] as int),
                        forall|a: int| 0 <= a < queue@.len() ==> met_before(*grid, parent@, distance@, cur as int, #[trigger] queue@[a] as int),
                        forall|x: int| #[trigger] done.contains(x) ==> met_before(*grid, parent@, distance@, x, cur as int),
                        forall|j: int| 0 <= j < n && #[trigger] reached(distance@, j) && j != t ==> done.contains(parent@[j]->Some_0 as int) || parent@[j] == Some(cur),
                        forall|j: int| 0 <= j < n && #[trigger] parent@[j] == Some(cur) ==> grid.neighbor_rank(cur as int, j) < m,
                        forall|i: int| 0 <= i < n && reached(distance@, i) ==> #[trigger] done.contains(i) || queue@.contains(i as usize) || i == cur,
                        forall|i: int| #[trigger] done.contains(i) ==> 0 <= i < n && reached(distance@, i) && closed_at(*grid, walkable@, distance@, i)
                            && earliest_parent_at(*grid, walkable@, parent@, distance@, t, i),
                        forall|a: int| 0 <= a < m ==> walkable@[#[trigger] nbrs@[a] as int] ==> reached(distance@, nbrs@[a] as int) && dist(distance@, nbrs@[a] as int) <= d + 1,
                        forall|a: int| 0 <= a < m ==> (walkable@[#[trigger] nbrs@[a] as int] && nbrs@[a] != t && dist(distance@, nbrs@[a] as int) == d + 1)
                            ==> rank(*grid, parent@, distance@, parent@[nbrs@[a] as int]->Some_0 as int) <= rank(*grid, parent@, distance@, cur as int),
                    decreases nbrs@.len() - m,
                {
                    let j = nbrs[m];
                    let ghost dist_before = distance@;
                    let ghost parent_before = parent@;
                    proof {
                        assert(grid.neighbors(cur as int)[m as int] == j as int);
                        assert(grid.is_neighbor(cur as int, j as int));
                        lemma_neighbor_rank(*grid, cur as int, m as int);
                    }
                    if distance[j].is_none() && walkable[j] {
                        let ghost old_distance = distance@;
                        let ghost old_parent = parent@;
                        let ghost old_queue = queue@;
                        proof {
                            assert(!seen.contains(j as int));
                            lemma_int_range(0, n as int);
                            let s2 = seen.insert(j as int);
                            assert(s2.subset_of(set_int_range(0, n as int)));
                            lemma_len_subset(s2, set_int_range(0, n as int));
                        }
                        distance.set(j, Some(d + 1));
                        parent.set(j, Some(cur));
                        queue.push_back(j);
                        proof {
                            let seen_before = seen;
                            seen = seen.insert(j as int);
                            // ranks of the cells reached before are unchanged
                            assert forall|i: int| 0 <= i < n && reached(old_distance, i) implies #[trigger] rank(*grid, parent@, distance@, i)
                                == rank(*grid, old_parent, old_distance, i) by {
                                assert forall|k: int| 0 <= k < old_distance.len() && reached(old_distance, k) && (#[trigger] old_parent[k]) is Some
                                    implies (old_parent[k]->Some_0 as int) < old_distance.len() && reached(old_distance, old_parent[k]->Some_0 as int) by {
                                    assert(parent_ok(*grid, walkable@, old_parent, old_distance, t, k));
                                }
                                lemma_rank_frame(*grid, old_parent, old_distance, parent@, distance@, i);
                            }
                            assert(rank(*grid, parent@, distance@, j as int) == 4 * rank(*grid, parent@, distance@, cur as int) + m);
                            assert forall|i: int| 0 <= i < n && #[trigger] reached(distance@, i) implies dist(distance@, i) < seen.len() && dist(distance@, i) <= level + 1 by {
                                if i != j {
                                    assert(reached(old_distance, i));
                                    assert(dist(old_distance, i) < seen_before.len());
                                }
                            }
                            assert forall|i: int| 0 <= i < n implies #[trigger] parent_ok(*grid, walkable@, parent@, distance@, t, i) by {
                                if i != j {
                                    assert(parent_ok(*grid, walkable@, old_parent, old_distance, t, i));
                                    if reached(distance@, i) && i != t {
                                        let p = old_parent[i]->Some_0 as int;
                                        assert(p != j);
                                    }
                                }
                            }
                            assert forall|i: int| #[trigger] done.contains(i) implies 0 <= i < n && reached(distance@, i) && closed_at(*grid, walkable@, distance@, i)
                                && earliest_parent_at(*grid, walkable@, parent@, distance@, t, i) by {
                                assert(closed_at(*grid, walkable@, old_distance, i));
                                assert(earliest_parent_at(*grid, walkable@, old_parent, old_distance, t, i));
                                assert forall|jj: int| 0 <= jj < grid.len() && #[trigger] grid.is_neighbor(i, jj) && walkable@[jj] implies reached(distance@, jj)
                                    && dist(distance@, jj) <= dist(distance@, i) + 1 by {
                                    assert(reached(old_distance, jj));
                                }
                                assert forall|jj: int| 0 <= jj < grid.len() && #[trigger] grid.is_neighbor(i, jj) && walkable@[jj] && reached(distance@, jj) && jj != t
                                    && dist(distance@, jj) == dist(distance@, i) + 1 implies rank(*grid, parent@, distance@, parent@[jj]->Some_0 as int) <= rank(*grid, parent@, distance@, i) by {
                                    assert(reached(old_distance, jj));
                                    assert(parent_ok(*grid, walkable@, old_parent, old_distance, t, jj));
                                    let pj = old_parent[jj]->Some_0 as int;
                                    assert(rank(*grid, parent@, distance@, pj) == rank(*grid, old_parent, old_distance, pj));
                                    assert(rank(*grid, parent@, distance@, i) == rank(*grid, old_parent, old_distance, i));
                                }
                            }
                            assert forall|a: int| 0 <= a < queue@.len() implies (#[trigger] queue@[a] as int) < n && reached(distance@, queue@[a] as int)
                                && level <= dist(distance@, queue@[a] as int) <= level + 1 by {
                                if a < old_queue.len() {
                                    assert(queue@[a] == old_queue[a]);
                                }
                            }
                            // the queue stays ordered: `j` comes after every cell in it
                            assert forall|a: int| 0 <= a < old_queue.len() implies met_before(*grid, parent@, distance@, #[trigger] old_queue[a] as int, j as int) by {
                                let q = old_queue[a] as int;
                                assert(reached(old_distance, q));
                                if dist(old_distance, q) == d + 1 {
                                    assert(q != t);
                                    assert(parent_ok(*grid, walkable@, old_parent, old_distance, t, q));
                                    let pq = old_parent[q]->Some_0 as int;
                                    assert(rank(*grid, old_parent, old_distance, q) == 4 * rank(*grid, old_parent, old_distance, pq) + grid.neighbor_rank(pq, q));
                                    if old_parent[q] == Some(cur) {
                                        assert(grid.neighbor_rank(cur as int, q) < m);
                                    } else {
                                        assert(done.contains(pq));
                                        assert(met_before(*grid, old_parent, old_distance, pq, cur as int));
                                    }
                                    assert(rank(*grid, parent@, distance@, q) == rank(*grid, old_parent, old_distance, q));
                                    assert(rank(*grid, parent@, distance@, cur as int) == rank(*grid, old_parent, old_distance, cur as int));
                                }
                            }
                            assert forall|a: int, b: int| 0 <= a < b < queue@.len() implies met_before(*grid, parent@, distance@, #[trigger] queue@[a] as int, #[trigger] queue@[b] as int) by {
                                assert(queue@[a] == old_queue[a]);
                                assert(met_before(*grid, parent@, distance@, old_queue[a] as int, j as int));
                                if b < old_queue.len() {
                                    assert(queue@[b] == old_queue[b]);
                                    assert(met_before(*grid, old_parent, old_distance, old_queue[a] as int, old_queue[b] as int));
                                    assert(rank(*grid, parent@, distance@, old_queue[a] as int) == rank(*grid, old_parent, old_distance, old_queue[a] as int));
                                    assert(rank(*grid, parent@, distance@, old_queue[b] as int) == rank(*grid, old_parent, old_distance, old_queue[b] as int));
                                }
                            }
                            assert forall|x: int, a: int| #[trigger] done.contains(x) && 0 <= a < queue@.len() implies met_before(*grid, parent@, distance@, x, #[trigger] queue@[a] as int) by {
                                assert(met_before(*grid, old_parent, old_distance, x, cur as int));
                                assert(rank(*grid, parent@, distance@, x) == rank(*grid, old_parent, old_distance, x));
                                if a < old_queue.len() {
                                    assert(queue@[a] == old_queue[a]);
                                    assert(met_before(*grid, old_parent, old_distance, x, old_queue[a] as int));
                                    assert(rank(*grid, parent@, distance@, old_queue[a] as int) == rank(*grid, old_parent, old_distance, old_queue[a] as int));
                                }
                            }
                            assert forall|a: int| 0 <= a < queue@.len() implies met_before(*grid, parent@, distance@, cur as int, #[trigger] queue@[a] as int) by {
                                assert(rank(*grid, parent@, distance@, cur as int) == rank(*grid, old_parent, old_distance, cur as int));
                                if a < old_queue.len() {
                                    assert(queue@[a] == old_queue[a]);
                                    assert(met_before(*grid, old_parent, old_distance, cur as int, old_queue[a] as int));
                                    assert(rank(*grid, parent@, distance@, old_queue[a] as int) == rank(*grid, old_parent, old_distance, old_queue[a] as int));
                                }
                            }
                            assert forall|x: int| #[trigger] done.contains(x) implies met_before(*grid, parent@, distance@, x, cur as int) by {
                                assert(met_before(*grid, old_parent, old_distance, x, cur as int));
                                assert(rank(*grid, parent@, distance@, x) == rank(*grid, old_parent, old_distance, x));
                                assert(rank(*grid, parent@, distance@, cur as int) == rank(*grid, old_parent, old_distance, cur as int));
                            }
                            assert forall|jj: int| 0 <= jj < n && #[trigger] reached(distance@, jj) && jj != t implies done.contains(parent@[jj]->Some_0 as int) || parent@[jj] == Some(cur) by {
                                if jj != j {
                                    assert(reached(old_distance, jj));
                                }
                            }
                            assert forall|jj: int| 0 <= jj < n && #[trigger] parent@[jj] == Some(cur) implies grid.neighbor_rank(cur as int, jj) < m + 1 by {
                                if jj != j {
                                    assert(old_parent[jj] == Some(cur));
                                }
                            }
                            assert forall|i: int| 0 <= i < n && reached(distance@, i) implies #[trigger] done.contains(i) || queue@.contains(i as usize) || i == cur by {
                                if i == j {
                                    assert(queue@[queue@.len() - 1] == j);
                                } else {
                                    if old_queue.contains(i as usize) {
                                        let a = choose|a: int| 0 <= a < old_queue.len() && old_queue[a] == i as usize;
                                        assert(queue@[a] == i as usize);
                                    }
                                }
                            }
                            assert forall|a: int| 0 <= a < m implies ((walkable@[#[trigger] nbrs@[a] as int] && nbrs@[a] != t && dist(distance@, nbrs@[a] as int) == d + 1)
                                ==> rank(*grid, parent@, distance@, parent@[nbrs@[a] as int]->Some_0 as int) <= rank(*grid, parent@, distance@, cur as int)) by {
                                let q = nbrs@[a] as int;
                                if walkable@[q] && q != t && dist(distance@, q) == d + 1 {
                                    assert(reached(dist_before, q));
                                    assert(q != j);
                                    assert(parent_ok(*grid, walkable@, old_parent, old_distance, t, q));
                                    let pq = old_parent[q]->Some_0 as int;
                                    assert(rank(*grid, parent@, distance@, pq) == rank(*grid, old_parent, old_distance, pq));
                                    assert(rank(*grid, parent@, distance@, cur as int) == rank(*grid, old_parent, old_distance, cur as int));
                                }
                            }
                        }
                    }
                    proof {
                        if walkable@[j as int] {
                            if reached(dist_before, j as int) {
                                assert(distance@[j as int] == dist_before[j as int]);
                                assert(dist(dist_before, j as int) <= level + 1);
                            } else {
                                assert(distance@[j as int] == Some((d + 1) as usize));
                            }
                        }
                        assert forall|a: int| 0 <= a < m + 1 && walkable@[#[trigger] nbrs@[a] as int] implies reached(distance@, nbrs@[a] as int) && dist(distance@, nbrs@[a] as int) <= d + 1 by {
                            if a < m && walkable@[nbrs@[a] as int] {
                                assert(reached(dist_before, nbrs@[a] as int));
                            }
                        }
                        if walkable@[j as int] && j != t && reached(dist_before, j as int) && dist(dist_before, j as int) == d + 1 {
                            assert(parent@ == parent_before);
                            assert(distance@ == dist_before);
                            assert(parent_ok(*grid, walkable@, parent@, distance@, t, j as int));
                            let pj = parent@[j as int]->Some_0 as int;
                            if parent@[j as int] != Some(cur) {
                                assert(done.contains(pj));
                                assert(met_before(*grid, parent@, distance@, pj, cur as int));
                            }
                        }
                        assert forall|a: int| 0 <= a < m + 1 implies ((walkable@[#[trigger] nbrs@[a] as int] && nbrs@[a] != t && dist(distance@, nbrs@[a] as int) == d + 1)
                            ==> rank(*grid, parent@, distance@, parent@[nbrs@[a] as int]->Some_0 as int) <= rank(*grid, parent@, distance@, cur as int)) by {
                            if a == m {
                                assert(nbrs@[a] == j);
                            }
                        }
                    }
                    m = m + 1;
                }
                proof {
                    assert(closed_at(*grid, walkable@, distance@, cur as int)) by {
                        assert forall|jj: int| 0 <= jj < grid.len() && #[trigger] grid.is_neighbor(cur as int, jj) && walkable@[jj] implies reached(distance@, jj)
                            && dist(distance@, jj) <= dist(distance@, cur as int) + 1 by {
                            let s = grid.neighbors(cur as int);
                            let a = choose|a: int| 0 <= a < s.len() && s[a] == jj;
                            assert(nbrs@.map_values(|j: usize| j as int)[a] == jj);
                            assert(nbrs@[a] as int == jj);
                        }
                    }
                    assert(earliest_parent_at(*grid, walkable@, parent@, distance@, t, cur as int)) by {
                        assert forall|jj: int| 0 <= jj < grid.len() && #[trigger] grid.is_neighbor(cur as int, jj) && walkable@[jj] && reached(distance@, jj) && jj != t
                            && dist(distance@, jj) == dist(distance@, cur as int) + 1 implies rank(*grid, parent@, distance@, parent@[jj]->Some_0 as int)
                            <= rank(*grid, parent@, distance@, cur as int) by {
                            let s = grid.neighbors(cur as int);
                            let a = choose|a: int| 0 <= a < s.len() && s[a] == jj;
                            assert(nbrs@.map_values(|j: usize| j as int)[a] == jj);
                            assert(nbrs@[a] as int == jj);
                        }
                    }
                    done = done.insert(cur as int);
                    assert forall|x: int, a: int| #[trigger] done.contains(x) && 0 <= a < queue@.len() implies met_before(*grid, parent@, distance@, x, #[trigger] queue@[a] as int) by {
                        if x == cur {
                        }
                    }
                }
            },
        }
    }
    let field = FlowField { parent, distance };
    proof {
        assert forall|j: int| 0 <= j < n && reached(field.distance@, j) && j != t implies #[trigger] parent_is_earliest(*grid, field.parent@, field.distance@, j) by {
            assert forall|q: int| 0 <= q < grid.len() && #[trigger] grid.is_neighbor(q, j) && reached(field.distance@, q) && dist(field.distance@, q) + 1 == dist(field.distance@, j)
                implies rank(*grid, field.parent@, field.distance@, field.parent@[j]->Some_0 as int) <= rank(*grid, field.parent@, field.distance@, q) by {
                assert(earliest_parent_at(*grid, walkable@, field.parent@, field.distance@, t, q));
                assert(parent_ok(*grid, walkable@, field.parent@, field.distance@, t, j));
            }
        }
        lemma_flow_field_chains_well(field, *grid, target as int, walkable@);
    }
    field
}

/// Two different cells at one distance from the target have different
/// ranks: the search meets them one after the other.
pub proof fn lemma_rank_distinct(field: FlowField, grid: Grid, target: int, walkable: Seq<bool>, i: int, j: int)
    requires
        field.is_flow_field(grid, target, walkable),
        0 <= i < grid.len(),
        0 <= j < grid.len(),
        reached(field.distance@, i),
        reached(field.distance@, j),
        dist(field.distance@, i) == dist(field.distance@, j),
        i != j,
    ensures
        rank(grid, field.parent@, field.distance@, i) != rank(grid, field.parent@, field.distance@, j),
    decreases dist(field.distance@, i),
{
    let p = field.parent@;
    let d = field.distance@;
    assert(parent_ok(grid, walkable, p, d, target, i));
    assert(parent_ok(grid, walkable, p, d, target, j));
    if i == target {
        assert(dist(d, j) >= 1);
    } else if j == target {
        assert(dist(d, i) >= 1);
    } else {
        let pi = p[i]->Some_0 as int;
        let pj = p[j]->Some_0 as int;
        let a = lemma_neighbor_position(grid, pi, i);
        let b = lemma_neighbor_position(grid, pj, j);
        assert(rank(grid, p, d, i) == 4 * rank(grid, p, d, pi) + a);
        assert(rank(grid, p, d, j) == 4 * rank(grid, p, d, pj) + b);
        if pi == pj {
            assert(a != b);
        } else {
            lemma_rank_distinct(field, grid, target, walkable, pi, pj);
        }
    }
}

/// The position of neighbour `j` among the cells next to `i`: below 4, and
/// `j` is the neighbour at that position.
proof fn lemma_neighbor_position(grid: Grid, i: int, j: int) -> (a: int)
    requires
        0 <= i < grid.len(),
        grid.is_neighbor(i, j),
    ensures
        a == grid.neighbor_rank(i, j),
        0 <= a < 4,
        grid.neighbors(i)[a] == j,
{
    let k = choose|k: int| 0 <= k < grid.neighbors(i).len() && grid.neighbors(i)[k] == j;
    lemma_neighbor_rank(grid, i, k);
    k
}

/// A cell reached in one flow field is reached in any other one of the same
/// grid, target and walkable cells, and no further from the target.
proof fn lemma_dist_no_greater(f1: FlowField, f2: FlowField, grid: Grid, target: int, walkable: Seq<bool>, i: int)
    requires
        f1.is_flow_field(grid, target, walkable),
        f2.is_flow_field(grid, target, walkable),
        0 <= i < grid.len(),
        reached(f1.distance@, i),
    ensures
        reached(f2.distance@, i),
        dist(f2.distance@, i) <= dist(f1.distance@, i),
    decreases dist(f1.distance@, i),
{
    assert(parent_ok(grid, walkable, f1.parent@, f1.distance@, target, i));
    if i != target {
        let p = f1.parent@[i]->Some_0 as int;
        lemma_dist_no_greater(f1, f2, grid, target, walkable, p);
        assert(closed_at(grid, walkable, f2.distance@, p));
        assert(grid.is_neighbor(p, i));
    }
}

/// With the same distances, two flow fields give each reached cell the same
/// parent and the same rank.
proof fn lemma_parent_agrees(f1: FlowField, f2: FlowField, grid: Grid, target: int, walkable: Seq<bool>, i: int)
    requires
        f1.is_flow_field(grid, target, walkable),
        f2.is_flow_field(grid, target, walkable),
        f1.distance@ == f2.distance@,
        0 <= i < grid.len(),
        reached(f1.distance@, i),
    ensures
        f1.parent@[i] == f2.parent@[i],
        rank(grid, f1.parent@, f1.distance@, i) == rank(grid, f2.parent@, f2.distance@, i),
    decreases dist(f1.distance@, i),
{
    let d = f1.distance@;
    assert(parent_ok(grid, walkable, f1.parent@, d, target, i));
    assert(parent_ok(grid, walkable, f2.parent@, d, target, i));
    if i != target {
        let p1 = f1.parent@[i]->Some_0 as int;
        let p2 = f2.parent@[i]->Some_0 as int;
        lemma_parent_agrees(f1, f2, grid, target, walkable, p1);
        lemma_parent_agrees(f1, f2, grid, target, walkable, p2);
        assert(parent_is_earliest(grid, f1.parent@, d, i));
        assert(parent_is_earliest(grid, f2.parent@, d, i));
        assert(grid.is_neighbor(p1, i) && grid.is_neighbor(p2, i));
        assert(rank(grid, f1.parent@, d, p1) == rank(grid, f1.parent@, d, p2));
        if p1 != p2 {
            lemma_rank_distinct(f1, grid, target, walkable, p1, p2);
        }
    }
}

/// The flow field is determined by the grid, the target and the walkable
/// cells: any two flow fields of the same ones are equal, so the one that
/// `compute_flow_field` returns is the only one there is.
pub proof fn lemma_flow_field_unique(f1: FlowField, f2: FlowField, grid: Grid, target: int, walkable: Seq<bool>)
    requires
        f1.is_flow_field(grid, target, walkable),
        f2.is_flow_field(grid, target, walkable),
    ensures
        f1.distance@ == f2.distance@,
        f1.parent@ == f2.parent@,
{
    assert forall|i: int| 0 <= i < grid.len() implies f1.distance@[i] == f2.distance@[i] by {
        if reached(f1.distance@, i) {
            lemma_dist_no_greater(f1, f2, grid, target, walkable, i);
            lemma_dist_no_greater(f2, f1, grid, target, walkable, i);
        } else if reached(f2.distance@, i) {
            lemma_dist_no_greater(f2, f1, grid, target, walkable, i);
        }
    }
    assert(f1.distance@ =~= f2.distance@);
    assert forall|i: int| 0 <= i < grid.len() implies f1.parent@[i] == f2.parent@[i] by {
        if reached(f1.distance@, i) {
            lemma_parent_agrees(f1, f2, grid, target, walkable, i);
        } else {
            assert(parent_ok(grid, walkable, f1.parent@, f1.distance@, target, i));
            assert(parent_ok(grid, walkable, f2.parent@, f2.distance@, target, i));
        }
    }
    assert(f1.parent@ =~= f2.parent@);
}

} // verus!
