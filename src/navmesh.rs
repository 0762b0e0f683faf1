use vstd::prelude::*;

use crate::geometry::GridPos;
use crate::resources::{EffectiveTileType, LevelResource, Tile, TilesAround};

verus! {

/// A walkable cell and the indices of the nodes it leads to.
#[derive(Debug)]
pub struct NavTile {
    pub pos: GridPos,
    pub connections: Vec<usize>,
}

/// The walkability graph of a level: one node per cell that is not a blocker.
#[derive(Debug)]
pub struct NavMesh {
    pub tiles: Vec<NavTile>,
}

/// `a` comes before `b` in row-major order, bottom row first.
pub open spec fn row_major_before(a: GridPos, b: GridPos) -> bool {
    a.y < b.y || (a.y == b.y && a.x < b.x)
}

/// A cell of the level that gets a node.
pub open spec fn walkable(level: &LevelResource, p: GridPos) -> bool {
    level.spec_in_bounds(p) && level.spec_at(p).behaviour != EffectiveTileType::Blocker
}

/// The neighbours a node may lead to, by the behaviour of its own cell and
/// in the order they are tried.
pub open spec fn neighbour_candidates(t: TilesAround) -> Seq<Tile> {
    match t.on.behaviour {
        EffectiveTileType::Empty => seq![t.below, t.left, t.right],
        EffectiveTileType::Rope => seq![t.left, t.right, t.below],
        EffectiveTileType::Ladder => seq![t.left, t.right, t.above, t.below],
        EffectiveTileType::Blocker => seq![],
    }
}

/// The positions of the walkable candidates, in order.
pub open spec fn linked_positions(level: &LevelResource, cands: Seq<Tile>) -> Seq<GridPos>
    decreases cands.len(),
{
    if cands.len() == 0 {
        seq![]
    } else {
        let prev = linked_positions(level, cands.drop_last());
        if walkable(level, cands.last().pos) && cands.last().behaviour != EffectiveTileType::Blocker {
            prev.push(cands.last().pos)
        } else {
            prev
        }
    }
}

proof fn lemma_linked_from_candidates(level: &LevelResource, cands: Seq<Tile>, k: int)
    requires
        0 <= k < linked_positions(level, cands).len(),
    ensures
        exists|m: int| 0 <= m < cands.len() && (#[trigger] cands[m]).pos == linked_positions(level, cands)[k],
    decreases cands.len(),
{
    let prev = linked_positions(level, cands.drop_last());
    if k < prev.len() {
        lemma_linked_from_candidates(level, cands.drop_last(), k);
        let m = choose|m: int| 0 <= m < cands.drop_last().len() && (#[trigger] cands.drop_last()[m]).pos == prev[k];
        assert(cands[m] == cands.drop_last()[m]);
    } else {
        assert(cands[cands.len() - 1].pos == linked_positions(level, cands)[k]);
    }
}

/// A mesh built from a level links only neighbouring cells, and gives each
/// cell one node.
proof fn lemma_mesh_shape(level: &LevelResource, r: &NavMesh)
    requires
        level.wf(),
        level.spec_width() < i32::MAX,
        level.spec_height() < i32::MAX,
        forall|p: GridPos| r.positions().contains(p) <==> walkable(level, p),
        forall|i: int, j: int|
            0 <= i < j < r.tiles@.len() ==> row_major_before(#[trigger] r.tiles@[i].pos, #[trigger] r.tiles@[j].pos),
        forall|i: int|
            0 <= i < r.tiles@.len() ==> (#[trigger] r.tiles@[i]).connections@.map_values(|j: usize| r.tiles@[j as int].pos)
                == linked_positions(level, neighbour_candidates(level.spec_around(r.tiles@[i].pos))),
        r.wf(),
    ensures
        crate::pathfinding::unit_links(r),
        crate::pathfinding::distinct_positions(r),
{
            assert forall|a: int, k: int|
                0 <= a < r.tiles@.len() && 0 <= k < r.tiles@[a].connections@.len() implies crate::pathfinding::manhattan(
                r.tiles@[a].pos,
                r.tiles@[#[trigger] r.tiles@[a].connections@[k] as int].pos,
            ) <= 1 by {
                let p = r.tiles@[a].pos;
                let c = r.tiles@[a].connections@;
                let cands = neighbour_candidates(level.spec_around(p));
                assert(r.positions()[a] == p);
                assert(r.positions().contains(p));
                assert(walkable(level, p));
                assert(c.map_values(|j: usize| r.tiles@[j as int].pos)[k] == r.tiles@[c[k] as int].pos);
                lemma_linked_from_candidates(level, cands, k);
                let m = choose|m: int| 0 <= m < cands.len() && (#[trigger] cands[m]).pos == linked_positions(level, cands)[k];
                let t = level.spec_around(p);
                assert(crate::pathfinding::manhattan(p, t.left.pos) == 1);
                assert(crate::pathfinding::manhattan(p, t.right.pos) == 1);
                assert(crate::pathfinding::manhattan(p, t.above.pos) == 1);
                assert(crate::pathfinding::manhattan(p, t.below.pos) == 1);
                assert(cands[m].pos == t.left.pos || cands[m].pos == t.right.pos || cands[m].pos == t.above.pos
                    || cands[m].pos == t.below.pos);
            }
            assert forall|a: int, b: int|
                0 <= a < r.tiles@.len() && 0 <= b < r.tiles@.len() && a != b implies (#[trigger] r.tiles@[a]).pos
                    != (#[trigger] r.tiles@[b]).pos by {
                if a < b {
                    assert(row_major_before(r.tiles@[a].pos, r.tiles@[b].pos));
                } else {
                    assert(row_major_before(r.tiles@[b].pos, r.tiles@[a].pos));
                }
            }
}

impl NavMesh {
    pub open spec fn positions(&self) -> Seq<GridPos> {
        self.tiles@.map_values(|t: NavTile| t.pos)
    }

    /// Every connection names a node of the mesh.
    pub open spec fn wf(&self) -> bool {
        forall|i: int, k: int|
            0 <= i < self.tiles@.len() && 0 <= k < self.tiles@[i].connections@.len() ==> #[trigger] self.tiles@[i].connections@[k]
                < self.tiles@.len()
    }

    /// The node `j` is a neighbour of node `i`.
    pub open spec fn linked(&self, i: int, j: int) -> bool {
        0 <= i < self.tiles@.len() && self.tiles@[i].connections@.contains(j as usize)
    }

    /// Builds the mesh of a level: nodes in row-major order, bottom row first;
    /// a node leads to each neighbour that `neighbour_candidates` lists and
    /// that is a walkable cell of the level.
    ///
    /// The mesh is a snapshot of the grid as it stands: cells that burns open
    /// or close later do not change it. Guards path over the level as it was
    /// loaded; call this again on the current grid to follow the burns.
    pub fn from_level(level: &LevelResource) -> (r: NavMesh)
        requires
            level.wf(),
            level.spec_width() < i32::MAX,
            level.spec_height() < i32::MAX,
        ensures
            r.wf(),
            forall|p: GridPos| r.positions().contains(p) <==> walkable(level, p),
            forall|i: int, j: int|
                0 <= i < j < r.tiles@.len() ==> row_major_before(#[trigger] r.tiles@[i].pos, #[trigger] r.tiles@[j].pos),
            forall|i: int|
                0 <= i < r.tiles@.len() ==> (#[trigger] r.tiles@[i]).connections@.map_values(|j: usize| r.tiles@[j as int].pos)
                    == linked_positions(level, neighbour_candidates(level.spec_around(r.tiles@[i].pos))),
            crate::pathfinding::unit_links(&r),
            crate::pathfinding::distinct_positions(&r),
    {
        let w = level.width();
        let h = level.height();
        let mut positions: Vec<GridPos> = Vec::new();
        let mut y: i32 = 0;
        while y < h
            invariant
                level.wf(),
                w == level.spec_width(),
                h == level.spec_height(),
                0 <= y <= h,
                w >= 0,
                forall|p: GridPos| positions@.contains(p) <==> (walkable(level, p) && p.y < y),
                forall|i: int, j: int|
                    0 <= i < j < positions@.len() ==> row_major_before(#[trigger] positions@[i], #[trigger] positions@[j]),
                forall|i: int| 0 <= i < positions@.len() ==> (#[trigger] positions@[i]).y < y,
            decreases h - y,
        {
            let mut x: i32 = 0;
            while x < w
                invariant
                    level.wf(),
                    w == level.spec_width(),
                    h == level.spec_height(),
                    0 <= y < h,
                    0 <= x <= w,
                    forall|p: GridPos| positions@.contains(p) <==> (walkable(level, p) && (p.y < y || (p.y == y && p.x < x))),
                    forall|i: int, j: int|
                        0 <= i < j < positions@.len() ==> row_major_before(#[trigger] positions@[i], #[trigger] positions@[j]),
                    forall|i: int| 0 <= i < positions@.len() ==> row_major_before(#[trigger] positions@[i], GridPos { x, y }),
                decreases w - x,
            {
                let pos = GridPos::new(x, y);
                let tile = level.at(pos);
                let ghost before = positions@;
                if tile.behaviour != EffectiveTileType::Blocker {
                    positions.push(pos);
                }
                proof {
                    assert forall|p: GridPos| positions@.contains(p) <==> (walkable(level, p) && (p.y < y || (p.y == y
                        && p.x < x + 1))) by {
                        if positions@.contains(p) {
                            let j = choose|j: int| 0 <= j < positions@.len() && positions@[j] == p;
                            if j < before.len() {
                                assert(before.contains(p));
                            }
                        }
                        if walkable(level, p) && (p.y < y || (p.y == y && p.x < x)) {
                            assert(before.contains(p));
                            let j = choose|j: int| 0 <= j < before.len() && before[j] == p;
                            assert(positions@[j] == p);
                        }
                        if p == pos && walkable(level, p) {
                            assert(positions@[before.len() as int] == p);
                        }
                    }
                }
                x += 1;
            }
            proof {
                assert forall|p: GridPos| positions@.contains(p) <==> (walkable(level, p) && p.y < y + 1) by {
                    if walkable(level, p) && p.y == y {
                        assert(p.x < w);
                    }
                }
            }
            y += 1;
        }
        let n = positions.len();
        let mut tiles: Vec<NavTile> = Vec::new();
        let mut i: usize = 0;
        while i < n
            invariant
                level.wf(),
                n == positions@.len(),
                i <= n,
                tiles@.len() == i,
                forall|p: GridPos| positions@.contains(p) <==> walkable(level, p),
                forall|a: int, b: int| 0 <= a < b < positions@.len() ==> row_major_before(#[trigger] positions@[a], #[trigger] positions@[b]),
                forall|p: GridPos| walkable(level, p) ==> LevelResource::spec_queryable(p),
                forall|a: int| 0 <= a < i ==> (#[trigger] tiles@[a]).pos == positions@[a],
                forall|a: int, k: int|
                    0 <= a < i && 0 <= k < tiles@[a].connections@.len() ==> #[trigger] tiles@[a].connections@[k] < n,
                forall|a: int|
                    0 <= a < i ==> (#[trigger] tiles@[a]).connections@.map_values(|j: usize| positions@[j as int])
                        == linked_positions(level, neighbour_candidates(level.spec_around(positions@[a]))),
            decreases n - i,
        {
            let pos = positions[i];
            assert(positions@.contains(pos));
            let around = level.around(pos);
            let connections = link_candidates(level, &positions, &around);
            tiles.push(NavTile { pos, connections });
            i += 1;
        }
        let r = NavMesh { tiles };
        proof {
            assert(r.positions() =~= positions@);
            assert forall|a: int|
                0 <= a < r.tiles@.len() implies (#[trigger] r.tiles@[a]).connections@.map_values(|j: usize| r.tiles@[j as int].pos)
                    == linked_positions(level, neighbour_candidates(level.spec_around(r.tiles@[a].pos))) by {
                let c = r.tiles@[a].connections@;
                assert(c.map_values(|j: usize| r.tiles@[j as int].pos) =~= c.map_values(|j: usize| positions@[j as int]));
            }
            lemma_mesh_shape(level, &r);
        }
        r
    }

    /// The first node at `pos`.
    pub fn get_tile_index_by_pos(&self, pos: GridPos) -> (r: Option<usize>)
        ensures
            r.is_some() ==> r.unwrap() < self.tiles@.len() && self.tiles@[r.unwrap() as int].pos == pos,
            r.is_some() ==> forall|j: int| 0 <= j < r.unwrap() ==> (#[trigger] self.tiles@[j]).pos != pos,
            r.is_none() <==> !self.positions().contains(pos),
    {
        let mut i: usize = 0;
        while i < self.tiles.len()
            invariant
                i <= self.tiles@.len(),
                forall|j: int| 0 <= j < i ==> (#[trigger] self.tiles@[j]).pos != pos,
            decreases self.tiles@.len() - i,
        {
            if self.tiles[i].pos == pos {
                assert(self.positions()[i as int] == pos);
                return Some(i);
            }
            i += 1;
        }
        proof {
            if self.positions().contains(pos) {
                let j = choose|j: int| 0 <= j < self.positions().len() && self.positions()[j] == pos;
                assert(self.tiles@[j].pos == pos);
            }
        }
        None
    }

    /// The node with index `index`, if there is one.
    pub fn get_tile_by_index(&self, index: usize) -> (r: Option<&NavTile>)
        ensures
            r.is_some() == (index < self.tiles@.len()),
            r.is_some() ==> *r.unwrap() == self.tiles@[index as int],
    {
        if index < self.tiles.len() {
            return Some(&self.tiles[index]);
        }
        None
    }
}

/// The index of `pos` in `positions`, which holds it.
fn position_index(positions: &Vec<GridPos>, pos: GridPos) -> (r: usize)
    requires
        positions@.contains(pos),
    ensures
        r < positions@.len(),
        positions@[r as int] == pos,
{
    let mut i: usize = 0;
    while i < positions.len()
        invariant
            i <= positions@.len(),
            positions@.contains(pos),
            forall|j: int| 0 <= j < i ==> positions@[j] != pos,
        decreases positions@.len() - i,
    {
        if positions[i] == pos {
            return i;
        }
        i += 1;
    }
    proof {
        let j = choose|j: int| 0 <= j < positions@.len() && positions@[j] == pos;
        assert(positions@[j] != pos);
    }
    0
}

/// The connections of one node, as indices into `positions`.
fn link_candidates(level: &LevelResource, positions: &Vec<GridPos>, around: &TilesAround) -> (r: Vec<usize>)
    requires
        level.wf(),
        forall|p: GridPos| positions@.contains(p) <==> walkable(level, p),
    ensures
        forall|k: int| 0 <= k < r@.len() ==> #[trigger] r@[k] < positions@.len(),
        r@.map_values(|j: usize| positions@[j as int]) == linked_positions(level, neighbour_candidates(*around)),
{
    let cands: Vec<Tile> = match around.on.behaviour {
        EffectiveTileType::Empty => vec![around.below, around.left, around.right],
        EffectiveTileType::Rope => vec![around.left, around.right, around.below],
        EffectiveTileType::Ladder => vec![around.left, around.right, around.above, around.below],
        EffectiveTileType::Blocker => Vec::new(),
    };
    assert(cands@ =~= neighbour_candidates(*around));
    let mut r: Vec<usize> = Vec::new();
    let mut k: usize = 0;
    while k < cands.len()
        invariant
            level.wf(),
            k <= cands@.len(),
            forall|p: GridPos| positions@.contains(p) <==> walkable(level, p),
            forall|m: int| 0 <= m < r@.len() ==> #[trigger] r@[m] < positions@.len(),
            r@.map_values(|j: usize| positions@[j as int]) == linked_positions(level, cands@.subrange(0, k as int)),
        decreases cands@.len() - k,
    {
        let c = cands[k];
        let ghost sub = cands@.subrange(0, k as int + 1);
        assert(sub.drop_last() =~= cands@.subrange(0, k as int));
        assert(sub.last() == c);
        if c.behaviour != EffectiveTileType::Blocker && level.in_bounds(c.pos) {
            let b = level.at(c.pos);
            if b.behaviour != EffectiveTileType::Blocker {
                assert(walkable(level, c.pos));
                let j = position_index(positions, c.pos);
                r.push(j);
            }
        }
        assert(r@.map_values(|j: usize| positions@[j as int]) =~= linked_positions(level, sub));
        k += 1;
    }
    assert(cands@.subrange(0, cands@.len() as int) =~= cands@);
    r
}

} // verus!
