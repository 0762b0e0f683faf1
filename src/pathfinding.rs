use vstd::prelude::*;

use crate::geometry::GridPos;
use crate::navmesh::NavMesh;

verus! {

/// The search found no route.
#[derive(Clone, Copy, Debug, PartialEq, Eq, Structural)]
pub enum PathfindingError {
    NotFound,
}

/// Heuristic distances are kept in this many parts of a cell.
pub const HEURISTIC_SCALE: u128 = 1024;

/// Score of a node not reached yet.
pub const UNREACHED: u64 = 0xffff_ffff_ffff_ffff;

/// `r` is the integer square root of `n`.
pub open spec fn is_isqrt(n: int, r: int) -> bool {
    0 <= r && r * r <= n < (r + 1) * (r + 1)
}

/// The integer square root of `n`.
pub fn isqrt(n: u128) -> (r: u64)
    requires
        n < 0x40_0000_0000_0000_0000_0000,
    ensures
        is_isqrt(n as int, r as int),
{
    let mut lo: u128 = 0;
    let mut hi: u128 = 0x800_0000_0000;
    assert(hi * hi == 0x40_0000_0000_0000_0000_0000) by (nonlinear_arith)
        requires
            hi == 0x800_0000_0000u128,
    ;
    while hi - lo > 1
        invariant
            lo < hi <= 0x800_0000_0000,
            lo * lo <= n,
            n < hi * hi,
        decreases hi - lo,
    {
        let mid = lo + (hi - lo) / 2;
        assert(mid * mid <= 0x40_0000_0000_0000_0000_0000) by (nonlinear_arith)
            requires
                mid <= 0x800_0000_0000u128,
        ;
        if mid * mid <= n {
            lo = mid;
        } else {
            hi = mid;
        }
    }
    assert(hi == lo + 1);
    lo as u64
}

/// The squared distance between two cells, in squared cells.
pub open spec fn dist_sq(a: GridPos, b: GridPos) -> int {
    (a.x - b.x) * (a.x - b.x) + (a.y - b.y) * (a.y - b.y)
}

/// The straight-line distance from `a` to `b`, in `HEURISTIC_SCALE` parts of a
/// cell, rounded down.
pub fn heuristic(a: GridPos, b: GridPos) -> (r: u64)
    ensures
        is_isqrt(HEURISTIC_SCALE * HEURISTIC_SCALE * dist_sq(a, b), r as int),
{
    let dx: i64 = a.x as i64 - b.x as i64;
    let dy: i64 = a.y as i64 - b.y as i64;
    let ax: u128 = if dx < 0 {
        (-dx) as u128
    } else {
        dx as u128
    };
    let ay: u128 = if dy < 0 {
        (-dy) as u128
    } else {
        dy as u128
    };
    assert(ax * ax <= 0x1_0000_0000_0000_0000 && ay * ay <= 0x1_0000_0000_0000_0000) by (nonlinear_arith)
        requires
            ax <= 0x1_0000_0000u128,
            ay <= 0x1_0000_0000u128,
    ;
    let d2 = ax * ax + ay * ay;
    assert(d2 == dist_sq(a, b)) by (nonlinear_arith)
        requires
            d2 == ax * ax + ay * ay,
            ax == (if dx < 0 { -(dx as int) } else { dx as int }),
            ay == (if dy < 0 { -(dy as int) } else { dy as int }),
            dx == a.x - b.x,
            dy == a.y - b.y,
    ;
    isqrt(HEURISTIC_SCALE * HEURISTIC_SCALE * d2)
}

/// A sequence of node indices, each linked to the next.
pub open spec fn is_walk(mesh: &NavMesh, w: Seq<int>) -> bool {
    &&& w.len() >= 1
    &&& forall|k: int| 0 <= k < w.len() ==> 0 <= #[trigger] w[k] < mesh.tiles@.len()
    &&& forall|k: int| 0 <= k < w.len() - 1 ==> mesh.linked(#[trigger] w[k], w[k + 1])
}

pub open spec fn walk_positions(mesh: &NavMesh, w: Seq<int>) -> Seq<GridPos> {
    w.map_values(|i: int| mesh.tiles@[i].pos)
}

/// `i` is the first node of the mesh at `pos`.
pub open spec fn is_first_at(mesh: &NavMesh, i: int, pos: GridPos) -> bool {
    &&& 0 <= i < mesh.tiles@.len()
    &&& mesh.tiles@[i].pos == pos
    &&& forall|j: int| 0 <= j < i ==> (#[trigger] mesh.tiles@[j]).pos != pos
}

/// Some walk leads from node `from` to a node at `goal`.
pub open spec fn reaches(mesh: &NavMesh, from: int, goal: GridPos) -> bool {
    exists|w: Seq<int>| is_walk(mesh, w) && w[0] == from && mesh.tiles@[w.last()].pos == goal
}

/// A route from the first node at `start` to a node at `goal`.
pub open spec fn is_route(mesh: &NavMesh, start: GridPos, goal: GridPos, path: Seq<GridPos>) -> bool {
    exists|w: Seq<int>|
        #![trigger walk_positions(mesh, w)]
        is_walk(mesh, w) && w.no_duplicates() && is_first_at(mesh, w[0], start) && mesh.tiles@[w.last()].pos == goal
            && path == walk_positions(mesh, w)
}

/// The number of steps between two cells along the grid's axes.
pub open spec fn manhattan(a: GridPos, b: GridPos) -> int {
    (if a.x >= b.x { a.x - b.x } else { b.x - a.x }) + (if a.y >= b.y { a.y - b.y } else { b.y - a.y })
}

/// Every link of the mesh joins two cells at most one step apart, as in a
/// mesh built from a level.
pub open spec fn unit_links(mesh: &NavMesh) -> bool {
    forall|i: int, k: int|
        0 <= i < mesh.tiles@.len() && 0 <= k < mesh.tiles@[i].connections@.len() ==> manhattan(
            mesh.tiles@[i].pos,
            mesh.tiles@[#[trigger] mesh.tiles@[i].connections@[k] as int].pos,
        ) <= 1
}

/// No two nodes of the mesh share a cell.
pub open spec fn distinct_positions(mesh: &NavMesh) -> bool {
    forall|i: int, j: int|
        0 <= i < mesh.tiles@.len() && 0 <= j < mesh.tiles@.len() && i != j ==> (#[trigger] mesh.tiles@[i]).pos
            != (#[trigger] mesh.tiles@[j]).pos
}

/// No route from the first node at `start` to a node at `goal` has fewer cells than `path`.
pub open spec fn shortest(mesh: &NavMesh, start: GridPos, goal: GridPos, path: Seq<GridPos>) -> bool {
    forall|w: Seq<int>|
        #![trigger walk_positions(mesh, w)]
        is_walk(mesh, w) && is_first_at(mesh, w[0], start) && mesh.tiles@[w.last()].pos == goal ==> path.len()
            <= walk_positions(mesh, w).len()
}

/// The search's score of node `v`.
pub open spec fn score(g: Seq<u64>, h: Seq<u64>, v: int) -> int {
    g[v] * HEURISTIC_SCALE + h[v]
}

/// A goal is routable from `start`.
pub open spec fn routable(mesh: &NavMesh, start: GridPos, goal: GridPos) -> bool {
    exists|i: int| is_first_at(mesh, i, start) && reaches(mesh, i, goal)
}

pub open spec fn count_reached(g: Seq<u64>) -> nat
    decreases g.len(),
{
    if g.len() == 0 {
        0
    } else {
        count_reached(g.drop_last()) + if g.last() < UNREACHED {
            1nat
        } else {
            0nat
        }
    }
}

pub open spec fn sum_scores(g: Seq<u64>) -> nat
    decreases g.len(),
{
    if g.len() == 0 {
        0
    } else {
        sum_scores(g.drop_last()) + g.last() as nat
    }
}

proof fn lemma_count_bound(g: Seq<u64>)
    ensures
        count_reached(g) <= g.len(),
    decreases g.len(),
{
    if g.len() > 0 {
        lemma_count_bound(g.drop_last());
    }
}

proof fn lemma_lower_score(g: Seq<u64>, i: int, v: u64)
    requires
        0 <= i < g.len(),
        v < g[i],
    ensures
        sum_scores(g.update(i, v)) < sum_scores(g),
        g[i] < UNREACHED ==> count_reached(g.update(i, v)) == count_reached(g),
        g[i] == UNREACHED ==> count_reached(g.update(i, v)) == count_reached(g) + 1,
    decreases g.len(),
{
    let u = g.update(i, v);
    if i == g.len() - 1 {
        assert(u.drop_last() =~= g.drop_last());
    } else {
        assert(u.drop_last() =~= g.drop_last().update(i, v));
        lemma_lower_score(g.drop_last(), i, v);
    }
}

/// The node's scores are all known: the set of reached nodes is closed
/// under links once a node has left the open list, and no such node is at the goal.
spec fn expanded(mesh: &NavMesh, g: Seq<u64>, open: Seq<usize>, goal: GridPos) -> bool {
    forall|v: int|
        0 <= v < g.len() && #[trigger] g[v] < UNREACHED && !open.contains(v as usize) ==> {
            &&& mesh.tiles@[v].pos != goal
            &&& forall|k: int|
                0 <= k < mesh.tiles@[v].connections@.len() ==> g[mesh.tiles@[v].connections@[k] as int] < UNREACHED
                    && g[mesh.tiles@[v].connections@[k] as int] <= g[v] + 1
        }
}

/// Every reached node but the start was reached from a linked node of lower score.
spec fn parents(mesh: &NavMesh, g: Seq<u64>, came: Seq<usize>, s: int) -> bool {
    forall|v: int|
        0 <= v < g.len() && v != s && #[trigger] g[v] < UNREACHED ==> {
            &&& came[v] < g.len()
            &&& mesh.linked(came[v] as int, v)
            &&& g[came[v] as int] < g[v]
        }
}

proof fn lemma_walk_stays_reached(mesh: &NavMesh, g: Seq<u64>, w: Seq<int>, k: int)
    requires
        mesh.wf(),
        mesh.tiles@.len() <= usize::MAX,
        g.len() == mesh.tiles@.len(),
        is_walk(mesh, w),
        0 <= k < w.len(),
        g[w[0]] < UNREACHED,
        forall|v: int|
            0 <= v < g.len() && #[trigger] g[v] < UNREACHED ==> forall|m: int|
                0 <= m < mesh.tiles@[v].connections@.len() ==> g[mesh.tiles@[v].connections@[m] as int] < UNREACHED,
    ensures
        g[w[k]] < UNREACHED,
    decreases k,
{
    if k > 0 {
        lemma_walk_stays_reached(mesh, g, w, k - 1);
        assert(mesh.linked(w[k - 1], w[k]));
        let c = mesh.tiles@[w[k - 1]].connections@;
        let m = choose|m: int| 0 <= m < c.len() && c[m] == w[k] as usize;
        assert(0 <= w[k] < mesh.tiles@.len());
        assert(c[m] as int == w[k]);
        assert(g[c[m] as int] < UNREACHED);
    }
}

proof fn lemma_walk_frontier(mesh: &NavMesh, g: Seq<u64>, open: Seq<usize>, goal: GridPos, s: int, w: Seq<int>, m: int)
    requires
        mesh.wf(),
        mesh.tiles@.len() <= usize::MAX,
        g.len() == mesh.tiles@.len(),
        is_walk(mesh, w),
        w[0] == s,
        g[s] == 0,
        0 <= m < w.len(),
        expanded(mesh, g, open, goal),
    ensures
        (exists|k: int| 0 <= k <= m && open.contains(w[k] as usize) && g[w[k]] <= k) || (forall|j: int|
            0 <= j <= m ==> !open.contains(#[trigger] w[j] as usize) && g[w[j]] < UNREACHED && g[w[j]] <= j),
    decreases m,
{
    if m == 0 {
        if open.contains(w[0] as usize) {
            assert(0 <= 0 <= m && open.contains(w[0] as usize) && g[w[0]] <= 0);
        }
    } else {
        lemma_walk_frontier(mesh, g, open, goal, s, w, m - 1);
        if !(exists|k: int| 0 <= k <= m - 1 && open.contains(w[k] as usize) && g[w[k]] <= k) {
            let v = w[m - 1];
            assert(!open.contains(w[m - 1] as usize) && g[w[m - 1]] < UNREACHED && g[w[m - 1]] <= m - 1);
            assert(0 <= v < mesh.tiles@.len());
            assert(v as usize as int == v);
            assert(mesh.linked(w[m - 1], w[m]));
            let c = mesh.tiles@[v].connections@;
            let kk = choose|kk: int| 0 <= kk < c.len() && c[kk] == w[m] as usize;
            assert(0 <= w[m] < mesh.tiles@.len());
            assert(c[kk] as int == w[m]);
            assert(g[c[kk] as int] <= g[v] + 1);
            if open.contains(w[m] as usize) {
                assert(0 <= m <= m && open.contains(w[m] as usize) && g[w[m]] <= m);
            } else {
                assert forall|j: int| 0 <= j <= m implies !open.contains(#[trigger] w[j] as usize) && g[w[j]] < UNREACHED && g[w[j]]
                    <= j by {
                    if j < m {
                        assert(!open.contains(w[j] as usize) && g[w[j]] < UNREACHED && g[w[j]] <= j);
                    }
                }
            }
        }
    }
}

proof fn lemma_walk_manhattan(mesh: &NavMesh, w: Seq<int>, k: int)
    requires
        unit_links(mesh),
        mesh.tiles@.len() <= usize::MAX,
        is_walk(mesh, w),
        0 <= k < w.len(),
    ensures
        manhattan(mesh.tiles@[w[k]].pos, mesh.tiles@[w.last()].pos) <= w.len() - 1 - k,
    decreases w.len() - k,
{
    if k < w.len() - 1 {
        lemma_walk_manhattan(mesh, w, k + 1);
        assert(mesh.linked(w[k], w[k + 1]));
        let c = mesh.tiles@[w[k]].connections@;
        let kk = choose|kk: int| 0 <= kk < c.len() && c[kk] == w[k + 1] as usize;
        assert(0 <= w[k + 1] < mesh.tiles@.len());
        assert(c[kk] as int == w[k + 1]);
        assert(manhattan(mesh.tiles@[w[k]].pos, mesh.tiles@[c[kk] as int].pos) <= 1);
    }
}

proof fn lemma_h_bound(a: GridPos, b: GridPos, r: int)
    requires
        is_isqrt(HEURISTIC_SCALE * HEURISTIC_SCALE * dist_sq(a, b), r),
    ensures
        r <= HEURISTIC_SCALE * manhattan(a, b),
{
    let dx: int = if a.x >= b.x { a.x - b.x } else { b.x - a.x };
    let dy: int = if a.y >= b.y { a.y - b.y } else { b.y - a.y };
    assert(dist_sq(a, b) == dx * dx + dy * dy) by (nonlinear_arith)
        requires
            dx == (if a.x >= b.x { a.x - b.x } else { b.x - a.x }),
            dy == (if a.y >= b.y { a.y - b.y } else { b.y - a.y }),
    ;
    let m = dx + dy;
    assert(r <= 1024 * m) by (nonlinear_arith)
        requires
            dx >= 0,
            dy >= 0,
            m == dx + dy,
            r >= 0,
            r * r <= 1024 * 1024 * (dx * dx + dy * dy),
    ;
}

/// When the search takes a node off the open list, its score is at most the
/// length of any route to the goal: no route is shorter than the one it holds.
proof fn lemma_goal_pop_optimal(
    mesh: &NavMesh,
    g: Seq<u64>,
    h: Seq<u64>,
    open: Seq<usize>,
    goal: GridPos,
    s: int,
    bi: int,
    w: Seq<int>,
)
    requires
        mesh.wf(),
        unit_links(mesh),
        mesh.tiles@.len() <= usize::MAX,
        g.len() == mesh.tiles@.len(),
        h.len() == mesh.tiles@.len(),
        forall|v: int| 0 <= v < h.len() ==> is_isqrt(HEURISTIC_SCALE * HEURISTIC_SCALE * dist_sq(#[trigger] mesh.tiles@[v].pos, goal), h[v] as int),
        forall|k: int| 0 <= k < open.len() ==> #[trigger] open[k] < g.len(),
        0 <= bi < open.len(),
        forall|k: int| 0 <= k < open.len() ==> score(g, h, open[bi] as int) <= #[trigger] score(g, h, open[k] as int),
        expanded(mesh, g, open, goal),
        is_walk(mesh, w),
        w[0] == s,
        g[s] == 0,
        mesh.tiles@[w.last()].pos == goal,
    ensures
        g[open[bi] as int] + 1 <= w.len(),
{
    let last = w.len() - 1;
    lemma_walk_frontier(mesh, g, open, goal, s, w, last);
    if exists|k: int| 0 <= k <= last && open.contains(w[k] as usize) && g[w[k]] <= k {
        let k = choose|k: int| 0 <= k <= last && open.contains(w[k] as usize) && g[w[k]] <= k;
        let v = w[k];
        let kk = choose|kk: int| 0 <= kk < open.len() && open[kk] == v as usize;
        assert(0 <= v < mesh.tiles@.len());
        assert(open[kk] as int == v);
        lemma_walk_manhattan(mesh, w, k);
        lemma_h_bound(mesh.tiles@[v].pos, goal, h[v] as int);
        assert(score(g, h, v) <= 1024 * last);
        assert(score(g, h, open[bi] as int) <= score(g, h, v));
    } else {
        assert(!open.contains(w[last] as usize) && g[w[last]] < UNREACHED);
        assert(0 <= w[last] < mesh.tiles@.len());
        assert(mesh.tiles@[w[last]].pos != goal);
    }
}

fn contains_index(v: &Vec<usize>, x: usize) -> (r: bool)
    ensures
        r == v@.contains(x),
{
    let mut i: usize = 0;
    while i < v.len()
        invariant
            i <= v@.len(),
            forall|j: int| 0 <= j < i ==> v@[j] != x,
        decreases v@.len() - i,
    {
        if v[i] == x {
            assert(v@[i as int] == x);
            return true;
        }
        i += 1;
    }
    false
}

/// The position in `open` of the entry with the lowest score
/// `g * HEURISTIC_SCALE + h`, the earliest on ties.
fn lowest_score(open: &Vec<usize>, g: &Vec<u64>, h: &Vec<u64>) -> (r: usize)
    requires
        open@.len() > 0,
        g@.len() == h@.len(),
        forall|k: int| 0 <= k < open@.len() ==> #[trigger] open@[k] < g@.len(),
    ensures
        r < open@.len(),
        forall|k: int| 0 <= k < open@.len() ==> score(g@, h@, open@[r as int] as int) <= #[trigger] score(g@, h@, open@[k] as int),
        forall|k: int| 0 <= k < r ==> score(g@, h@, open@[r as int] as int) < #[trigger] score(g@, h@, open@[k] as int),
{
    let mut best: usize = 0;
    let mut best_f: u128 = (g[open[0]] as u128) * HEURISTIC_SCALE + h[open[0]] as u128;
    let mut i: usize = 1;
    while i < open.len()
        invariant
            best < open@.len(),
            1 <= i <= open@.len(),
            g@.len() == h@.len(),
            forall|k: int| 0 <= k < open@.len() ==> #[trigger] open@[k] < g@.len(),
            best_f == score(g@, h@, open@[best as int] as int),
            forall|k: int| 0 <= k < i ==> best_f <= #[trigger] score(g@, h@, open@[k] as int),
            forall|k: int| 0 <= k < best ==> best_f < #[trigger] score(g@, h@, open@[k] as int),
        decreases open@.len() - i,
    {
        let f: u128 = (g[open[i]] as u128) * HEURISTIC_SCALE + h[open[i]] as u128;
        if f < best_f {
            best = i;
            best_f = f;
        }
        i += 1;
    }
    best
}

/// `open` ordered by score, entries of equal score kept in their order: the
/// earliest entry of lowest score goes first, then the earliest of the rest.
fn sort_by_score(open: &Vec<usize>, g: &Vec<u64>, h: &Vec<u64>) -> (sorted: Vec<usize>)
    requires
        g@.len() == h@.len(),
        forall|k: int| 0 <= k < open@.len() ==> #[trigger] open@[k] < g@.len(),
    ensures
        sorted@.len() == open@.len(),
        forall|x: usize| sorted@.contains(x) <==> open@.contains(x),
        forall|a: int, b: int|
            0 <= a < b < sorted@.len() ==> score(g@, h@, #[trigger] sorted@[a] as int) <= score(g@, h@, #[trigger] sorted@[b] as int),
{
    let mut rem = open.clone();
    let mut out: Vec<usize> = Vec::new();
    assert(rem@ == open@);
    while rem.len() > 0
        invariant
            g@.len() == h@.len(),
            out@.len() + rem@.len() == open@.len(),
            forall|k: int| 0 <= k < rem@.len() ==> #[trigger] rem@[k] < g@.len(),
            forall|x: usize| open@.contains(x) <==> (out@.contains(x) || rem@.contains(x)),
            forall|a: int, b: int|
                0 <= a < b < out@.len() ==> score(g@, h@, #[trigger] out@[a] as int) <= score(g@, h@, #[trigger] out@[b] as int),
            forall|a: int, b: int|
                0 <= a < out@.len() && 0 <= b < rem@.len() ==> score(g@, h@, #[trigger] out@[a] as int) <= score(
                    g@,
                    h@,
                    #[trigger] rem@[b] as int,
                ),
        decreases rem@.len(),
    {
        let k = lowest_score(&rem, g, h);
        let ghost rem0 = rem@;
        let ghost out0 = out@;
        let x = rem.remove(k);
        out.push(x);
        proof {
            assert forall|y: usize| open@.contains(y) <==> (out@.contains(y) || rem@.contains(y)) by {
                if rem0.contains(y) {
                    let j = choose|j: int| 0 <= j < rem0.len() && rem0[j] == y;
                    if j < k {
                        assert(rem@[j] == y);
                    } else if j > k {
                        assert(rem@[j - 1] == y);
                    } else {
                        assert(out@[out0.len() as int] == y);
                    }
                }
                if out0.contains(y) {
                    let j = choose|j: int| 0 <= j < out0.len() && out0[j] == y;
                    assert(out@[j] == y);
                }
                if out@.contains(y) {
                    let j = choose|j: int| 0 <= j < out@.len() && out@[j] == y;
                    if j < out0.len() {
                        assert(out0[j] == y);
                    } else {
                        assert(rem0[k as int] == y);
                    }
                }
                if rem@.contains(y) {
                    let j = choose|j: int| 0 <= j < rem@.len() && rem@[j] == y;
                    if j < k {
                        assert(rem0[j] == y);
                    } else {
                        assert(rem0[j + 1] == y);
                    }
                }
            }
            assert forall|m: int| 0 <= m < rem@.len() implies #[trigger] rem@[m] < g@.len() by {
                if m < k {
                    assert(rem@[m] == rem0[m]);
                } else {
                    assert(rem@[m] == rem0[m + 1]);
                }
            }
            assert forall|a: int, b: int|
                0 <= a < out@.len() && 0 <= b < rem@.len() implies score(g@, h@, #[trigger] out@[a] as int) <= score(
                g@,
                h@,
                #[trigger] rem@[b] as int,
            ) by {
                let b0 = if b < k { b } else { b + 1 };
                assert(rem@[b] == rem0[b0]);
                if a < out0.len() {
                    assert(out@[a] == out0[a]);
                } else {
                    assert(out@[a] == rem0[k as int]);
                }
            }
            assert forall|a: int, b: int|
                0 <= a < b < out@.len() implies score(g@, h@, #[trigger] out@[a] as int) <= score(g@, h@, #[trigger] out@[b] as int) by {
                if b == out0.len() {
                    assert(out@[b] == rem0[k as int]);
                    assert(out@[a] == out0[a]);
                } else {
                    assert(out@[a] == out0[a]);
                    assert(out@[b] == out0[b]);
                }
            }
        }
    }
    proof {
        assert forall|x: usize| out@.contains(x) <==> open@.contains(x) by {
            if rem@.contains(x) {
                let j = choose|j: int| 0 <= j < rem@.len() && rem@[j] == x;
            }
        }
    }
    out
}

/// A* search over the mesh from the first node at `start_pos` to a node at
/// `end_pos`, with unit link costs and the straight-line heuristic. Each
/// round the open list is ordered by score, keeping the order of equal
/// scores, and its first entry is taken out by moving the last entry into
/// its place. On success the route runs from the start cell to
/// the goal cell, both included.
#[verifier::rlimit(80)]
pub fn astar_pathfind(start_pos: GridPos, end_pos: GridPos, navmesh: &NavMesh) -> (r: Result<Vec<GridPos>, PathfindingError>)
    requires
        navmesh.wf(),
        navmesh.tiles@.len() < usize::MAX,
    ensures
        r.is_ok() == routable(navmesh, start_pos, end_pos),
        r.is_ok() ==> is_route(navmesh, start_pos, end_pos, r.unwrap()@),
        r.is_ok() && unit_links(navmesh) ==> shortest(navmesh, start_pos, end_pos, r.unwrap()@),
        r.is_ok() && distinct_positions(navmesh) ==> r.unwrap()@.no_duplicates(),
        r.is_ok() && start_pos == end_pos ==> r.unwrap()@ == seq![start_pos],
        r.is_err() ==> r == Err::<Vec<GridPos>, PathfindingError>(PathfindingError::NotFound),
{
    let s = match navmesh.get_tile_index_by_pos(start_pos) {
        Some(i) => i,
        None => {
            proof {
                assert forall|i: int| !is_first_at(navmesh, i, start_pos) by {
                    if is_first_at(navmesh, i, start_pos) {
                        assert(navmesh.positions()[i] == start_pos);
                    }
                }
            }
            return Err(PathfindingError::NotFound);
        },
    };
    let n = navmesh.tiles.len();
    let mut g: Vec<u64> = Vec::new();
    let mut h: Vec<u64> = Vec::new();
    let mut came: Vec<usize> = Vec::new();
    let mut i: usize = 0;
    while i < n
        invariant
            n == navmesh.tiles@.len(),
            i <= n,
            g@.len() == i,
            h@.len() == i,
            came@.len() == i,
            forall|v: int| 0 <= v < i ==> #[trigger] g@[v] == UNREACHED,
            forall|v: int| 0 <= v < i ==> is_isqrt(HEURISTIC_SCALE * HEURISTIC_SCALE * dist_sq(#[trigger] navmesh.tiles@[v].pos, end_pos), h@[v] as int),
        decreases n - i,
    {
        g.push(UNREACHED);
        h.push(heuristic(navmesh.tiles[i].pos, end_pos));
        came.push(0);
        i += 1;
    }
    let ghost g_init = g@;
    g.set(s, 0);
    let mut open: Vec<usize> = Vec::new();
    open.push(s);
    proof {
        lemma_lower_score(g_init, s as int, 0);
        assert(g@ =~= g_init.update(s as int, 0));
        assert forall|v: int| 0 <= v < g@.len() && #[trigger] g@[v] < UNREACHED implies v == s by {}
        assert(open@[0] == s);
    }
    while open.len() > 0
        invariant
            navmesh.wf(),
            n == navmesh.tiles@.len(),
            n < usize::MAX,
            s < n,
            is_first_at(navmesh, s as int, start_pos),
            g@.len() == n,
            h@.len() == n,
            came@.len() == n,
            g@[s as int] == 0,
            forall|v: int| 0 <= v < n ==> is_isqrt(HEURISTIC_SCALE * HEURISTIC_SCALE * dist_sq(#[trigger] navmesh.tiles@[v].pos, end_pos), h@[v] as int),
            start_pos == end_pos ==> open@ == seq![s],
            forall|k: int| 0 <= k < open@.len() ==> #[trigger] open@[k] < n && g@[open@[k] as int] < UNREACHED,
            expanded(navmesh, g@, open@, end_pos),
            parents(navmesh, g@, came@, s as int),
            forall|v: int| 0 <= v < n && #[trigger] g@[v] < UNREACHED ==> g@[v] < count_reached(g@),
        decreases sum_scores(g@), open@.len(),
    {
        proof {
            lemma_count_bound(g@);
        }
        let ghost sum0 = sum_scores(g@);
        let ghost open0 = open@;
        let sorted = sort_by_score(&open, &g, &h);
        open = sorted;
        let ghost open_s = open@;
        let current = open.swap_remove(0);
        proof {
            assert(open_s[0] == current);
            assert(open_s.contains(current));
            assert forall|x: usize| open_s.contains(x) implies open@.contains(x) || x == current by {
                let j = choose|j: int| 0 <= j < open_s.len() && open_s[j] == x;
                if j != 0 {
                    if j < open_s.len() - 1 {
                        assert(open@[j] == x);
                    } else {
                        assert(open@[0] == x);
                    }
                }
            }
            assert forall|m: int| 0 <= m < open@.len() implies open_s.contains(#[trigger] open@[m]) by {
                if m == 0 {
                    assert(open@[0] == open_s[open_s.len() - 1]);
                } else {
                    assert(open@[m] == open_s[m]);
                }
            }
            assert forall|m: int| 0 <= m < open_s.len() implies #[trigger] open_s[m] < n && g@[open_s[m] as int] < UNREACHED by {
                assert(open0.contains(open_s[m]));
                let j = choose|j: int| 0 <= j < open0.len() && open0[j] == open_s[m];
            }
        }
        if navmesh.tiles[current].pos == end_pos {
            let path = rebuild_path(navmesh, &g, &came, s, current);
            proof {
                if start_pos == end_pos {
                    assert(open0[0] == s);
                    assert(open_s.contains(open_s[0]));
                    assert(open0.contains(open_s[0]));
                }
                if unit_links(navmesh) {
                    assert(expanded(navmesh, g@, open_s, end_pos)) by {
                        assert forall|v: int| 0 <= v < g@.len() && #[trigger] g@[v] < UNREACHED && !open_s.contains(v as usize) implies !open0.contains(
                            v as usize) by {}
                    }
                    assert forall|w: Seq<int>|
                        #![trigger walk_positions(navmesh, w)]
                        is_walk(navmesh, w) && is_first_at(navmesh, w[0], start_pos) && navmesh.tiles@[w.last()].pos == end_pos implies path@.len()
                            <= walk_positions(navmesh, w).len() by {
                        assert(w[0] == s) by {
                            if w[0] < s {
                                assert(navmesh.tiles@[w[0]].pos != start_pos);
                            }
                            if s < w[0] {
                                assert(navmesh.tiles@[s as int].pos != start_pos);
                            }
                        }
                        lemma_goal_pop_optimal(navmesh, g@, h@, open_s, end_pos, s as int, 0, w);
                    }
                }
            }
            return Ok(path);
        }
        let gc = g[current];
        let tentative = gc + 1;
        proof {
            assert forall|v: int|
                0 <= v < g@.len() && v != current && #[trigger] g@[v] < UNREACHED && !open@.contains(v as usize) implies !open0.contains(
                v as usize) by {
                if open0.contains(v as usize) {
                    assert(open_s.contains(v as usize));
                }
            }
            assert forall|m: int| 0 <= m < open@.len() implies #[trigger] open@[m] < n && g@[open@[m] as int] < UNREACHED by {
                assert(open_s.contains(open@[m]));
                let j = choose|j: int| 0 <= j < open_s.len() && open_s[j] == open@[m];
            }
        }
        let conns = &navmesh.tiles[current].connections;
        let mut k: usize = 0;
        while k < conns.len()
            invariant
                navmesh.wf(),
                n == navmesh.tiles@.len(),
                n < usize::MAX,
                s < n,
                current < n,
                current != s || gc == 0,
                *conns == navmesh.tiles@[current as int].connections,
                k <= conns@.len(),
                g@.len() == n,
                h@.len() == n,
                came@.len() == n,
                g@[s as int] == 0,
                g@[current as int] == gc,
                gc < UNREACHED,
                tentative == gc + 1,
                navmesh.tiles@[current as int].pos != end_pos,
                forall|m: int| 0 <= m < open@.len() ==> #[trigger] open@[m] < n && g@[open@[m] as int] < UNREACHED,
                forall|v: int|
                    0 <= v < g@.len() && v != current && #[trigger] g@[v] < UNREACHED && !open@.contains(v as usize) ==> {
                        &&& navmesh.tiles@[v].pos != end_pos
                        &&& forall|m: int|
                            0 <= m < navmesh.tiles@[v].connections@.len() ==> g@[navmesh.tiles@[v].connections@[m] as int]
                                < UNREACHED && g@[navmesh.tiles@[v].connections@[m] as int] <= g@[v] + 1
                    },
                forall|m: int| 0 <= m < k ==> g@[#[trigger] conns@[m] as int] < UNREACHED && g@[conns@[m] as int] <= gc + 1,
                parents(navmesh, g@, came@, s as int),
                forall|v: int| 0 <= v < n && #[trigger] g@[v] < UNREACHED ==> g@[v] < count_reached(g@),
                count_reached(g@) <= n,
                sum_scores(g@) < sum0 || (sum_scores(g@) == sum0 && open@.len() == open0.len() - 1),
            decreases conns@.len() - k,
        {
            let nb = conns[k];
            let ghost g0 = g@;
            let ghost open1 = open@;
            if tentative < g[nb] {
                proof {
                    lemma_lower_score(g@, nb as int, tentative);
                    assert(navmesh.tiles@[current as int].connections@[k as int] == nb);
                }
                came.set(nb, current);
                g.set(nb, tentative);
                if !contains_index(&open, nb) {
                    open.push(nb);
                }
                proof {
                    lemma_count_bound(g@);
                    if !open1.contains(nb) {
                        assert(open@[open1.len() as int] == nb);
                    }
                    assert(open@.contains(nb));
                    assert forall|v: int|
                        0 <= v < g@.len() && v != current && #[trigger] g@[v] < UNREACHED && !open@.contains(v as usize) implies {
                        &&& navmesh.tiles@[v].pos != end_pos
                        &&& forall|m: int|
                            0 <= m < navmesh.tiles@[v].connections@.len() ==> g@[navmesh.tiles@[v].connections@[m] as int]
                                < UNREACHED && g@[navmesh.tiles@[v].connections@[m] as int] <= g@[v] + 1
                    } by {
                        assert(v != nb);
                        assert(g0[v] < UNREACHED);
                        if open1.contains(v as usize) {
                            let j = choose|j: int| 0 <= j < open1.len() && open1[j] == v as usize;
                            assert(open@[j] == v as usize);
                        }
                        assert forall|m: int| 0 <= m < navmesh.tiles@[v].connections@.len() implies g@[navmesh.tiles@[v].connections@[m] as int]
                            < UNREACHED && g@[navmesh.tiles@[v].connections@[m] as int] <= g@[v] + 1 by {
                            assert(g0[navmesh.tiles@[v].connections@[m] as int] < UNREACHED && g0[navmesh.tiles@[v].connections@[m] as int] <= g0[v] + 1);
                        }
                    }
                    assert forall|m: int| 0 <= m < open@.len() implies #[trigger] open@[m] < n && g@[open@[m] as int] < UNREACHED by {
                        if m < open1.len() {
                            assert(open@[m] == open1[m]);
                            assert(g0[open1[m] as int] < UNREACHED);
                        }
                    }
                    assert forall|m: int| 0 <= m < k + 1 implies g@[#[trigger] conns@[m] as int] < UNREACHED && g@[conns@[m] as int] <= gc + 1 by {
                        if m < k {
                            assert(g0[conns@[m] as int] < UNREACHED && g0[conns@[m] as int] <= gc + 1);
                        }
                    }
                    assert forall|v: int| 0 <= v < g@.len() && v != s && #[trigger] g@[v] < UNREACHED implies {
                        &&& came@[v] < g@.len()
                        &&& navmesh.linked(came@[v] as int, v)
                        &&& g@[came@[v] as int] < g@[v]
                    } by {
                        if v == nb {
                            assert(conns@[k as int] == nb);
                            assert(navmesh.tiles@[current as int].connections@.contains(nb));
                        } else {
                            assert(g0[v] < UNREACHED);
                        }
                    }
                }
            }
            k += 1;
        }
        proof {
            assert forall|v: int| 0 <= v < g@.len() && #[trigger] g@[v] < UNREACHED && !open@.contains(v as usize) implies {
                &&& navmesh.tiles@[v].pos != end_pos
                &&& forall|m: int|
                    0 <= m < navmesh.tiles@[v].connections@.len() ==> g@[navmesh.tiles@[v].connections@[m] as int] < UNREACHED && g@[navmesh.tiles@[v].connections@[m] as int] <= g@[v] + 1
            } by {
                if v == current {
                    assert forall|m: int| 0 <= m < navmesh.tiles@[v].connections@.len() implies g@[navmesh.tiles@[v].connections@[m] as int]
                        < UNREACHED && g@[navmesh.tiles@[v].connections@[m] as int] <= g@[v] + 1 by {
                        assert(g@[conns@[m] as int] < UNREACHED && g@[conns@[m] as int] <= gc + 1);
                    }
                }
            }
        }
    }
    proof {
        assert(open@.len() == 0);
        assert forall|i: int| is_first_at(navmesh, i, start_pos) implies !reaches(navmesh, i, end_pos) by {
            assert(i == s) by {
                if i < s {
                    assert(navmesh.tiles@[i].pos != start_pos);
                }
                if s < i {
                    assert(navmesh.tiles@[s as int].pos != start_pos);
                }
            }
            assert forall|w: Seq<int>| is_walk(navmesh, w) && w[0] == i implies navmesh.tiles@[w.last()].pos != end_pos by {
                assert forall|v: int| 0 <= v < g@.len() && #[trigger] g@[v] < UNREACHED implies forall|m: int|
                    0 <= m < navmesh.tiles@[v].connections@.len() ==> g@[navmesh.tiles@[v].connections@[m] as int]
                        < UNREACHED && g@[navmesh.tiles@[v].connections@[m] as int] <= g@[v] + 1 by {
                    assert(!open@.contains(v as usize));
                }
                lemma_walk_stays_reached(navmesh, g@, w, w.len() - 1);
                assert(!open@.contains(w.last() as usize));
            }
        }
    }
    Err(PathfindingError::NotFound)
}

/// Follows the recorded links back from `goal_index` to the start node.
fn rebuild_path(navmesh: &NavMesh, g: &Vec<u64>, came: &Vec<usize>, s: usize, goal_index: usize) -> (path: Vec<GridPos>)
    requires
        navmesh.wf(),
        navmesh.tiles@.len() < usize::MAX,
        g@.len() == navmesh.tiles@.len(),
        came@.len() == navmesh.tiles@.len(),
        s < navmesh.tiles@.len(),
        g@[s as int] == 0,
        goal_index < navmesh.tiles@.len(),
        g@[goal_index as int] < UNREACHED,
        parents(navmesh, g@, came@, s as int),
    ensures
        exists|w: Seq<int>|
            #![trigger walk_positions(navmesh, w)]
            is_walk(navmesh, w) && w.no_duplicates() && w[0] == s && w.last() == goal_index && path@ == walk_positions(
                navmesh,
                w,
            ) && w.len() <= g@[goal_index as int] + 1,
        goal_index == s ==> path@ == seq![navmesh.tiles@[s as int].pos],
        distinct_positions(navmesh) ==> path@.no_duplicates(),
{
    let mut path: Vec<GridPos> = Vec::new();
    path.push(navmesh.tiles[goal_index].pos);
    let mut c = goal_index;
    let ghost mut w: Seq<int> = seq![goal_index as int];
    assert(path@ =~= walk_positions(navmesh, w));
    while c != s
        invariant
            navmesh.wf(),
            navmesh.tiles@.len() < usize::MAX,
            g@.len() == navmesh.tiles@.len(),
            came@.len() == navmesh.tiles@.len(),
            s < navmesh.tiles@.len(),
            c < navmesh.tiles@.len(),
            g@[s as int] == 0,
            g@[c as int] < UNREACHED,
            parents(navmesh, g@, came@, s as int),
            is_walk(navmesh, w),
            w[0] == c,
            w.last() == goal_index,
            path@ == walk_positions(navmesh, w),
            forall|a: int, b: int| 0 <= a < b < w.len() ==> g@[#[trigger] w[a]] < g@[#[trigger] w[b]],
            w.len() + g@[c as int] <= g@[goal_index as int] + 1,
            goal_index == s ==> w == seq![s as int],
        decreases g@[c as int],
    {
        let p = came[c];
        let ghost w2 = seq![p as int] + w;
        path.insert(0, navmesh.tiles[p].pos);
        proof {
            assert(w2[0] == p as int);
            assert(w2.last() == w.last());
            assert forall|k: int| 0 <= k < w2.len() - 1 implies navmesh.linked(#[trigger] w2[k], w2[k + 1]) by {
                if k > 0 {
                    assert(w2[k] == w[k - 1]);
                    assert(w2[k + 1] == w[k]);
                }
            }
            assert forall|k: int| 0 <= k < w2.len() implies 0 <= #[trigger] w2[k] < navmesh.tiles@.len() by {
                if k > 0 {
                    assert(w2[k] == w[k - 1]);
                }
            }
            assert forall|a: int, b: int| 0 <= a < b < w2.len() implies g@[#[trigger] w2[a]] < g@[#[trigger] w2[b]] by {
                if a == 0 {
                    assert(w2[b] == w[b - 1]);
                    if b > 1 {
                        assert(g@[w[0]] < g@[w[b - 1]]);
                    }
                } else {
                    assert(w2[a] == w[a - 1]);
                    assert(w2[b] == w[b - 1]);
                }
            }
            assert(path@ =~= walk_positions(navmesh, w2));
            w = w2;
        }
        c = p;
    }
    proof {
        assert(w.no_duplicates()) by {
            assert forall|a: int, b: int| 0 <= a < w.len() && 0 <= b < w.len() && a != b implies w[a] != w[b] by {
                if a < b {
                    assert(g@[w[a]] < g@[w[b]]);
                } else {
                    assert(g@[w[b]] < g@[w[a]]);
                }
            }
        }
        if distinct_positions(navmesh) {
            assert forall|a: int, b: int| 0 <= a < path@.len() && 0 <= b < path@.len() && a != b implies path@[a] != path@[b] by {
                assert(path@[a] == navmesh.tiles@[w[a]].pos);
                assert(path@[b] == navmesh.tiles@[w[b]].pos);
                assert(w[a] != w[b]);
            }
        }
        if goal_index == s {
            assert(path@ =~= seq![navmesh.tiles@[s as int].pos]);
        }
    }
    path
}

} // verus!
