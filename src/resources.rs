use vstd::prelude::*;
use rand::Rng;

use crate::geometry::GridPos;
use crate::level_asset::{LevelDataAsset, TileType};
use crate::level_asset::LevelTile as DocTile;

verus! {

/// How a cell of the grid behaves for movement.
#[derive(Clone, Copy, Debug, PartialEq, Eq, Structural)]
pub enum EffectiveTileType {
    Empty,
    Blocker,
    Ladder,
    Rope,
}

impl Default for EffectiveTileType {
    fn default() -> (r: EffectiveTileType)
        ensures
            r == EffectiveTileType::Empty,
    {
        EffectiveTileType::Empty
    }
}

/// What one cell of the grid holds: its behaviour and the entity standing for it.
#[derive(Clone, Copy, Debug, PartialEq, Eq, Structural)]
pub struct LevelTile {
    pub entity: Option<u64>,
    pub behaviour: EffectiveTileType,
}

pub open spec fn tile_none() -> LevelTile {
    LevelTile { entity: None, behaviour: EffectiveTileType::Empty }
}

pub open spec fn tile_blocker() -> LevelTile {
    LevelTile { entity: None, behaviour: EffectiveTileType::Blocker }
}

/// A cell as seen from a position: what it holds and where it is.
#[derive(Clone, Copy, Debug, PartialEq, Eq, Structural)]
pub struct Tile {
    pub entity: Option<u64>,
    pub pos: GridPos,
    pub behaviour: EffectiveTileType,
}

impl Tile {
    pub open spec fn spec_new(pos: GridPos, tile: LevelTile) -> Tile {
        Tile { entity: tile.entity, pos, behaviour: tile.behaviour }
    }

    pub fn new(pos: GridPos, tile: &LevelTile) -> (r: Tile)
        ensures
            r == Tile::spec_new(pos, *tile),
    {
        Tile { entity: tile.entity, pos, behaviour: tile.behaviour }
    }
}

/// The cell a position stands in and its six neighbours that movement looks at.
#[derive(Clone, Copy, Debug, PartialEq, Eq, Structural)]
pub struct TilesAround {
    pub above: Tile,
    pub below: Tile,
    pub on: Tile,
    pub left: Tile,
    pub right: Tile,
    pub below_left: Tile,
    pub below_right: Tile,
}

/// The behaviour a document tag gives its cell.
pub open spec fn effective_of(t: TileType) -> EffectiveTileType {
    match t {
        TileType::Brick | TileType::SolidBrick => EffectiveTileType::Blocker,
        TileType::Ladder => EffectiveTileType::Ladder,
        TileType::Rope => EffectiveTileType::Rope,
        _ => EffectiveTileType::Empty,
    }
}

fn effective_of_exec(t: TileType) -> (r: EffectiveTileType)
    ensures
        r == effective_of(t),
{
    match t {
        TileType::Brick | TileType::SolidBrick => EffectiveTileType::Blocker,
        TileType::Ladder => EffectiveTileType::Ladder,
        TileType::Rope => EffectiveTileType::Rope,
        _ => EffectiveTileType::Empty,
    }
}

/// The behaviour that the last tile a document gives at `pos` sets, `None` if it gives none.
pub open spec fn doc_kind(tiles: Seq<DocTile>, pos: GridPos) -> EffectiveTileType
    decreases tiles.len(),
{
    if tiles.len() == 0 {
        EffectiveTileType::Empty
    } else if tiles.last().position == pos {
        effective_of(tiles.last().behaviour)
    } else {
        doc_kind(tiles.drop_last(), pos)
    }
}

/// Whether a document tags the cell `pos` at all.
pub open spec fn doc_occupies(tiles: Seq<DocTile>, pos: GridPos) -> bool {
    exists|j: int| 0 <= j < tiles.len() && (#[trigger] tiles[j]).position == pos
}

pub open spec fn in_rect(width: int, height: int, pos: GridPos) -> bool {
    0 <= pos.x < width && 0 <= pos.y < height
}

/// The number of treasure tags a document places inside a `width` by `height` rectangle.
pub open spec fn gold_count(tiles: Seq<DocTile>, width: int, height: int) -> nat
    decreases tiles.len(),
{
    if tiles.len() == 0 {
        0
    } else {
        gold_count(tiles.drop_last(), width, height) + if tiles.last().behaviour == TileType::Gold
            && in_rect(width, height, tiles.last().position) {
            1nat
        } else {
            0nat
        }
    }
}

/// The cells where a guard may reappear: the second row from the top, minus
/// every cell that the document tags.
pub open spec fn is_respawn_cell(tiles: Seq<DocTile>, width: int, height: int, pos: GridPos) -> bool {
    &&& height >= 2
    &&& pos.y == height - 2
    &&& 0 <= pos.x < width
    &&& !doc_occupies(tiles, pos)
}

pub open spec fn spec_index(width: int, pos: GridPos) -> int {
    pos.y * width + pos.x
}

proof fn lemma_index_in_range(width: int, height: int, pos: GridPos)
    requires
        in_rect(width, height, pos),
    ensures
        0 <= spec_index(width, pos) < width * height,
{
    assert(0 <= pos.y * width + pos.x < width * height) by (nonlinear_arith)
        requires
            0 <= pos.x < width,
            0 <= pos.y < height,
    ;
}

proof fn lemma_index_injective(width: int, height: int, p: GridPos, q: GridPos)
    requires
        in_rect(width, height, p),
        in_rect(width, height, q),
        spec_index(width, p) == spec_index(width, q),
    ensures
        p == q,
{
    let (px, py, qx, qy) = (p.x as int, p.y as int, q.x as int, q.y as int);
    assert(py == qy && px == qx) by (nonlinear_arith)
        requires
            0 <= px < width,
            0 <= qx < width,
            py >= 0,
            qy >= 0,
            py * width + px == qy * width + qx,
    ;
}

/// The grid of one level: a base behaviour and entity per cell, a layer of
/// temporary blockers, the treasure count and the cells where guards reappear.
pub struct LevelResource {
    tiles: Vec<LevelTile>,
    width: i32,
    height: i32,
    treasures: u32,
    respawns: Vec<GridPos>,
    overrides: Vec<GridPos>,
}

impl LevelResource {
    pub closed spec fn spec_width(&self) -> int {
        self.width as int
    }

    pub closed spec fn spec_height(&self) -> int {
        self.height as int
    }

    pub open spec fn spec_in_bounds(&self, pos: GridPos) -> bool {
        in_rect(self.spec_width(), self.spec_height(), pos)
    }

    /// The base content of an in-bounds cell, overrides left aside.
    pub closed spec fn spec_base(&self, pos: GridPos) -> LevelTile {
        self.tiles@[spec_index(self.width as int, pos)]
    }

    /// Whether a temporary blocker stands on a cell.
    pub closed spec fn spec_overridden(&self, pos: GridPos) -> bool {
        self.overrides@.contains(pos)
    }

    pub closed spec fn spec_treasures(&self) -> nat {
        self.treasures as nat
    }

    pub closed spec fn spec_respawns(&self) -> Seq<GridPos> {
        self.respawns@
    }

    pub closed spec fn wf(&self) -> bool {
        &&& self.width >= 0
        &&& self.height >= 0
        &&& self.tiles@.len() == self.width * self.height
        &&& self.overrides@.no_duplicates()
        &&& forall|i: int| 0 <= i < self.overrides@.len() ==> in_rect(self.width as int, self.height as int, #[trigger] self.overrides@[i])
        &&& forall|i: int| 0 <= i < self.respawns@.len() ==> in_rect(self.width as int, self.height as int, #[trigger] self.respawns@[i])
    }

    /// What a query at `pos` reads: open sky above the grid, solid wall
    /// elsewhere outside it, a blocker where an override stands, else the base content.
    pub open spec fn spec_at(&self, pos: GridPos) -> LevelTile {
        if !self.spec_in_bounds(pos) {
            if pos.y >= self.spec_height() {
                tile_none()
            } else {
                tile_blocker()
            }
        } else if self.spec_overridden(pos) {
            tile_blocker()
        } else {
            self.spec_base(pos)
        }
    }

    pub open spec fn spec_tile(&self, pos: GridPos) -> Tile {
        Tile::spec_new(pos, self.spec_at(pos))
    }

    pub open spec fn spec_around(&self, pos: GridPos) -> TilesAround {
        TilesAround {
            above: self.spec_tile(GridPos { x: pos.x, y: (pos.y + 1) as i32 }),
            below: self.spec_tile(GridPos { x: pos.x, y: (pos.y - 1) as i32 }),
            left: self.spec_tile(GridPos { x: (pos.x - 1) as i32, y: pos.y }),
            right: self.spec_tile(GridPos { x: (pos.x + 1) as i32, y: pos.y }),
            on: self.spec_tile(pos),
            below_left: self.spec_tile(GridPos { x: (pos.x - 1) as i32, y: (pos.y - 1) as i32 }),
            below_right: self.spec_tile(GridPos { x: (pos.x + 1) as i32, y: (pos.y - 1) as i32 }),
        }
    }

    /// Positions whose neighbours are all representable.
    pub open spec fn spec_queryable(pos: GridPos) -> bool {
        i32::MIN < pos.x < i32::MAX && i32::MIN < pos.y < i32::MAX
    }

    /// Everything but the base content of the cell `pos` is as in `other`.
    pub open spec fn same_except_base(&self, other: &LevelResource, pos: GridPos) -> bool {
        &&& self.wf()
        &&& self.spec_width() == other.spec_width()
        &&& self.spec_height() == other.spec_height()
        &&& self.spec_treasures() == other.spec_treasures()
        &&& self.spec_respawns() == other.spec_respawns()
        &&& forall|q: GridPos| #[trigger] self.spec_overridden(q) == other.spec_overridden(q)
        &&& forall|q: GridPos| q != pos && self.spec_in_bounds(q) ==> #[trigger] self.spec_base(q) == other.spec_base(q)
    }

    /// Builds the grid of a level document. Tags outside the rectangle are ignored;
    /// within it the last tag of a cell decides its behaviour.
    pub fn from_asset(level_asset: &LevelDataAsset) -> (r: LevelResource)
        requires
            level_asset.width >= 0,
            level_asset.height >= 0,
            level_asset.width * level_asset.height <= usize::MAX,
            level_asset.tiles@.len() <= u32::MAX,
        ensures
            r.wf(),
            r.spec_width() == level_asset.width,
            r.spec_height() == level_asset.height,
            r.spec_treasures() == gold_count(level_asset.tiles@, level_asset.width as int, level_asset.height as int),
            forall|q: GridPos| #[trigger] r.spec_in_bounds(q) ==> r.spec_base(q) == (LevelTile {
                entity: None,
                behaviour: doc_kind(level_asset.tiles@, q),
            }),
            forall|q: GridPos| !(#[trigger] r.spec_overridden(q)),
            forall|q: GridPos| #[trigger] r.spec_respawns().contains(q) <==> is_respawn_cell(
                level_asset.tiles@,
                level_asset.width as int,
                level_asset.height as int,
                q,
            ),
            forall|a: int, b: int|
                0 <= a < b < r.spec_respawns().len() ==> (#[trigger] r.spec_respawns()[a]).x < (#[trigger] r.spec_respawns()[b]).x,
    {
        let w = level_asset.width;
        let h = level_asset.height;
        let ghost wi = w as int;
        let ghost hi = h as int;
        let ghost doc = level_asset.tiles@;
        let size: usize = (w as usize) * (h as usize);
        let mut tiles: Vec<LevelTile> = Vec::new();
        let mut k: usize = 0;
        while k < size
            invariant
                k <= size,
                tiles@.len() == k,
                forall|j: int| 0 <= j < k ==> #[trigger] tiles@[j] == tile_none(),
            decreases size - k,
        {
            tiles.push(LevelTile { entity: None, behaviour: EffectiveTileType::Empty });
            k += 1;
        }
        let mut respawns: Vec<GridPos> = Vec::new();
        if h >= 2 {
            let mut x: i32 = 0;
            while x < w
                invariant
                    0 <= x <= w,
                    h >= 2,
                    forall|q: GridPos| #[trigger] respawns@.contains(q) <==> (q.y == h - 2 && 0 <= q.x < x),
                    forall|j: int| 0 <= j < respawns@.len() ==> in_rect(w as int, h as int, #[trigger] respawns@[j]),
                    forall|j: int| 0 <= j < respawns@.len() ==> (#[trigger] respawns@[j]).x < x,
                    forall|a: int, b: int| 0 <= a < b < respawns@.len() ==> (#[trigger] respawns@[a]).x < (#[trigger] respawns@[b]).x,
                decreases w - x,
            {
                let ghost before = respawns@;
                respawns.push(GridPos::new(x, h - 2));
                assert forall|q: GridPos| #[trigger] respawns@.contains(q) <==> (q.y == h - 2 && 0 <= q.x < x + 1) by {
                    if q.y == h - 2 && q.x == x {
                        assert(respawns@[before.len() as int] == q);
                    }
                    if respawns@.contains(q) {
                        let j = choose|j: int| 0 <= j < respawns@.len() && respawns@[j] == q;
                        if j < before.len() {
                            assert(before.contains(q));
                        }
                    }
                    if q.y == h - 2 && 0 <= q.x < x {
                        assert(before.contains(q));
                        let j = choose|j: int| 0 <= j < before.len() && before[j] == q;
                        assert(respawns@[j] == q);
                    }
                }
                x += 1;
            }
        }
        let mut treasures: u32 = 0;
        let n = level_asset.tiles.len();
        assert forall|q: GridPos| #[trigger] in_rect(wi, hi, q) implies tiles@[spec_index(wi, q)] == (LevelTile {
            entity: None,
            behaviour: doc_kind(doc.subrange(0, 0), q),
        }) by {
            lemma_index_in_range(wi, hi, q);
        }
        assert forall|q: GridPos| #[trigger] respawns@.contains(q) <==> is_respawn_cell(doc.subrange(0, 0), wi, hi, q) by {
            if h >= 2 && q.y == h - 2 && 0 <= q.x < w {
                assert(respawns@.contains(q));
            }
        }
        let mut i: usize = 0;
        while i < n
            invariant
                w == level_asset.width,
                h == level_asset.height,
                wi == w,
                hi == h,
                w >= 0,
                h >= 0,
                size == w * h,
                doc == level_asset.tiles@,
                n == doc.len(),
                n <= u32::MAX,
                i <= n,
                tiles@.len() == size,
                treasures == gold_count(doc.subrange(0, i as int), wi, hi),
                treasures <= i,
                forall|q: GridPos| #[trigger] in_rect(wi, hi, q) ==> tiles@[spec_index(wi, q)] == (LevelTile {
                    entity: None,
                    behaviour: doc_kind(doc.subrange(0, i as int), q),
                }),
                forall|j: int| 0 <= j < respawns@.len() ==> in_rect(wi, hi, #[trigger] respawns@[j]),
                forall|q: GridPos| #[trigger] respawns@.contains(q) <==> is_respawn_cell(doc.subrange(0, i as int), wi, hi, q),
                forall|a: int, b: int| 0 <= a < b < respawns@.len() ==> (#[trigger] respawns@[a]).x < (#[trigger] respawns@[b]).x,
            decreases n - i,
        {
            let tile = level_asset.tiles[i];
            let pos = tile.position;
            let ghost pre = doc.subrange(0, i as int);
            let ghost next = doc.subrange(0, i as int + 1);
            assert(next.drop_last() =~= pre);
            assert(next.last() == tile);
            if 0 <= pos.x && pos.x < w && 0 <= pos.y && pos.y < h {
                proof {
                    lemma_index_in_range(wi, hi, pos);
                }
                let index: usize = (pos.y as usize) * (w as usize) + (pos.x as usize);
                let kind = effective_of_exec(tile.behaviour);
                tiles.set(index, LevelTile { entity: None, behaviour: kind });
                assert forall|q: GridPos| #[trigger] in_rect(wi, hi, q) implies tiles@[spec_index(wi, q)] == (
                LevelTile { entity: None, behaviour: doc_kind(next, q) }) by {
                    lemma_index_in_range(wi, hi, q);
                    if q != pos && spec_index(wi, q) == index as int {
                        lemma_index_injective(wi, hi, q, pos);
                    }
                }
                if tile.behaviour == TileType::Gold {
                    treasures += 1;
                }
            } else {
                assert forall|q: GridPos| #[trigger] in_rect(wi, hi, q) implies tiles@[spec_index(wi, q)] == (
                LevelTile { entity: None, behaviour: doc_kind(next, q) }) by {
                    assert(q != pos);
                }
            }
            let ghost before = respawns@;
            let mut kept: Vec<GridPos> = Vec::new();
            let mut j: usize = 0;
            while j < respawns.len()
                invariant
                    j <= respawns@.len(),
                    respawns@ == before,
                    forall|m: int| 0 <= m < kept@.len() ==> in_rect(wi, hi, #[trigger] kept@[m]),
                    forall|m: int| 0 <= m < before.len() ==> in_rect(wi, hi, #[trigger] before[m]),
                    forall|q: GridPos| #[trigger] kept@.contains(q) <==> (q != pos && before.subrange(0, j as int).contains(q)),
                    forall|a: int, b: int| 0 <= a < b < before.len() ==> (#[trigger] before[a]).x < (#[trigger] before[b]).x,
                    forall|a: int, b: int| 0 <= a < b < kept@.len() ==> (#[trigger] kept@[a]).x < (#[trigger] kept@[b]).x,
                    forall|m: int, t: int| 0 <= m < kept@.len() && j <= t < before.len() ==> (#[trigger] kept@[m]).x < (#[trigger] before[t]).x,
                decreases respawns@.len() - j,
            {
                let p = respawns[j];
                let ghost kept0 = kept@;
                if p != pos {
                    kept.push(p);
                }
                assert forall|q: GridPos| #[trigger] kept@.contains(q) <==> (q != pos && before.subrange(0, j as int + 1).contains(q)) by {
                    let s0 = before.subrange(0, j as int);
                    let s1 = before.subrange(0, j as int + 1);
                    assert(s1 =~= s0.push(p));
                    if kept@.contains(q) {
                        let m = choose|m: int| 0 <= m < kept@.len() && kept@[m] == q;
                        if m < kept0.len() {
                            assert(kept0[m] == q);
                            assert(kept0.contains(q));
                            let m3 = choose|m3: int| 0 <= m3 < s0.len() && s0[m3] == q;
                            assert(s1[m3] == q);
                        } else {
                            assert(q == p);
                            assert(s1[j as int] == q);
                        }
                        assert(s1.contains(q));
                    }
                    if q != pos && s1.contains(q) {
                        let m = choose|m: int| 0 <= m < s1.len() && s1[m] == q;
                        if m < s0.len() {
                            assert(s0.contains(q));
                            assert(kept0.contains(q));
                            let m2 = choose|m2: int| 0 <= m2 < kept0.len() && kept0[m2] == q;
                            assert(kept@[m2] == q);
                        } else {
                            assert(kept@[kept0.len() as int] == q);
                        }
                    }
                }
                j += 1;
            }
            assert(before.subrange(0, before.len() as int) =~= before);
            respawns = kept;
            assert forall|q: GridPos| #[trigger] respawns@.contains(q) <==> is_respawn_cell(next, wi, hi, q) by {
                if doc_occupies(next, q) && q != pos {
                    let m = choose|m: int| 0 <= m < next.len() && (#[trigger] next[m]).position == q;
                    assert(pre[m] == next[m]);
                }
                if doc_occupies(pre, q) {
                    let m = choose|m: int| 0 <= m < pre.len() && (#[trigger] pre[m]).position == q;
                    assert(next[m] == pre[m]);
                }
                if q == pos {
                    assert(next[i as int].position == q);
                }
            }
            i += 1;
        }
        assert(doc.subrange(0, n as int) =~= doc);
        LevelResource { tiles, width: w, height: h, treasures, respawns, overrides: Vec::new() }
    }

    fn is_in_bounds(&self, pos: GridPos) -> (r: bool)
        ensures
            r == self.spec_in_bounds(pos),
    {
        pos.x >= 0 && pos.x < self.width && pos.y >= 0 && pos.y < self.height
    }

    /// Whether `pos` lies inside the grid.
    pub fn in_bounds(&self, pos: GridPos) -> (r: bool)
        ensures
            r == self.spec_in_bounds(pos),
    {
        self.is_in_bounds(pos)
    }

    pub fn width(&self) -> (r: i32)
        ensures
            r == self.spec_width(),
            self.wf() ==> r >= 0,
    {
        self.width
    }

    pub fn height(&self) -> (r: i32)
        ensures
            r == self.spec_height(),
            self.wf() ==> r >= 0,
    {
        self.height
    }

    fn to_index(&self, pos: GridPos) -> (r: usize)
        requires
            self.wf(),
            self.spec_in_bounds(pos),
        ensures
            r == spec_index(self.width as int, pos),
            r < self.tiles@.len(),
    {
        let len = self.tiles.len();
        proof {
            lemma_index_in_range(self.width as int, self.height as int, pos);
            assert(spec_index(self.width as int, pos) < len);
        }
        let row = (pos.y as usize) * (self.width as usize);
        row + (pos.x as usize)
    }

    fn is_overridden(&self, pos: GridPos) -> (r: bool)
        ensures
            r == self.spec_overridden(pos),
    {
        let mut i: usize = 0;
        while i < self.overrides.len()
            invariant
                i <= self.overrides@.len(),
                forall|j: int| 0 <= j < i ==> self.overrides@[j] != pos,
            decreases self.overrides@.len() - i,
        {
            if self.overrides[i] == pos {
                return true;
            }
            i += 1;
        }
        false
    }

    /// What the cell `pos` reads as.
    pub fn at(&self, pos: GridPos) -> (r: LevelTile)
        requires
            self.wf(),
        ensures
            r == self.spec_at(pos),
    {
        if !self.is_in_bounds(pos) {
            if pos.y >= self.height {
                return LevelTile { entity: None, behaviour: EffectiveTileType::Empty };
            }
            return LevelTile { entity: None, behaviour: EffectiveTileType::Blocker };
        }
        if self.is_overridden(pos) {
            LevelTile { entity: None, behaviour: EffectiveTileType::Blocker }
        } else {
            self.tiles[self.to_index(pos)]
        }
    }

    fn tile(&self, pos: GridPos) -> (r: Tile)
        requires
            self.wf(),
        ensures
            r == self.spec_tile(pos),
    {
        let t = self.at(pos);
        Tile::new(pos, &t)
    }

    /// The cell at `pos` and its neighbours, read afresh from the grid.
    pub fn around(&self, pos: GridPos) -> (r: TilesAround)
        requires
            self.wf(),
            LevelResource::spec_queryable(pos),
        ensures
            r == self.spec_around(pos),
    {
        TilesAround {
            above: self.tile(pos.offset(0, 1)),
            below: self.tile(pos.offset(0, -1)),
            left: self.tile(pos.offset(-1, 0)),
            right: self.tile(pos.offset(1, 0)),
            on: self.tile(pos),
            below_left: self.tile(pos.offset(-1, -1)),
            below_right: self.tile(pos.offset(1, -1)),
        }
    }

    /// Changes the base behaviour of an in-bounds cell; other positions are ignored.
    pub fn set(&mut self, pos: GridPos, effective_tile: EffectiveTileType)
        requires
            old(self).wf(),
        ensures
            final(self).same_except_base(old(self), pos),
            old(self).spec_in_bounds(pos) ==> final(self).spec_base(pos) == (LevelTile {
                entity: old(self).spec_base(pos).entity,
                behaviour: effective_tile,
            }),
            !old(self).spec_in_bounds(pos) ==> final(self).spec_base(pos) == old(self).spec_base(pos),
    {
        if self.is_in_bounds(pos) {
            let index = self.to_index(pos);
            let entity = self.tiles[index].entity;
            self.tiles.set(index, LevelTile { entity, behaviour: effective_tile });
            proof {
                assert forall|q: GridPos| q != pos && self.spec_in_bounds(q) implies #[trigger] self.spec_base(q)
                    == old(self).spec_base(q) by {
                    lemma_index_in_range(self.width as int, self.height as int, q);
                    if spec_index(self.width as int, q) == index as int {
                        lemma_index_injective(self.width as int, self.height as int, q, pos);
                    }
                }
            }
        }
    }

    /// Records the entity that stands for an in-bounds cell; other positions are ignored.
    pub fn set_entity(&mut self, pos: GridPos, entity: u64)
        requires
            old(self).wf(),
        ensures
            final(self).same_except_base(old(self), pos),
            old(self).spec_in_bounds(pos) ==> final(self).spec_base(pos) == (LevelTile {
                entity: Some(entity),
                behaviour: old(self).spec_base(pos).behaviour,
            }),
            !old(self).spec_in_bounds(pos) ==> final(self).spec_base(pos) == old(self).spec_base(pos),
    {
        if self.is_in_bounds(pos) {
            let index = self.to_index(pos);
            let behaviour = self.tiles[index].behaviour;
            self.tiles.set(index, LevelTile { entity: Some(entity), behaviour });
            proof {
                assert forall|q: GridPos| q != pos && self.spec_in_bounds(q) implies #[trigger] self.spec_base(q)
                    == old(self).spec_base(q) by {
                    lemma_index_in_range(self.width as int, self.height as int, q);
                    if spec_index(self.width as int, q) == index as int {
                        lemma_index_injective(self.width as int, self.height as int, q, pos);
                    }
                }
            }
        }
    }

    /// Puts a temporary blocker on an in-bounds cell; it reads as a blocker,
    /// whatever `_effective_tile` says, until it is reset.
    pub fn set_override(&mut self, pos: GridPos, _effective_tile: EffectiveTileType)
        requires
            old(self).wf(),
        ensures
            final(self).wf(),
            final(self).spec_width() == old(self).spec_width(),
            final(self).spec_height() == old(self).spec_height(),
            final(self).spec_treasures() == old(self).spec_treasures(),
            final(self).spec_respawns() == old(self).spec_respawns(),
            forall|q: GridPos| final(self).spec_in_bounds(q) ==> #[trigger] final(self).spec_base(q) == old(self).spec_base(q),
            forall|q: GridPos| #[trigger] final(self).spec_overridden(q) == (old(self).spec_overridden(q)
                || (q == pos && old(self).spec_in_bounds(pos))),
    {
        if self.is_in_bounds(pos) && !self.is_overridden(pos) {
            self.overrides.push(pos);
            proof {
                assert forall|q: GridPos| #[trigger] self.spec_overridden(q) == (old(self).spec_overridden(q) || q == pos) by {
                    let n = old(self).overrides@.len() as int;
                    if self.overrides@.contains(q) && q != pos {
                        let j = choose|j: int| 0 <= j < self.overrides@.len() && self.overrides@[j] == q;
                        assert(j < n);
                        assert(old(self).overrides@[j] == q);
                    }
                    if old(self).overrides@.contains(q) {
                        let j = choose|j: int| 0 <= j < n && old(self).overrides@[j] == q;
                        assert(self.overrides@[j] == q);
                    }
                    if q == pos {
                        assert(self.overrides@[n] == q);
                    }
                }
            }
        }
    }

    /// Takes the temporary blocker off a cell, if one stands there.
    pub fn reset_override(&mut self, pos: GridPos)
        requires
            old(self).wf(),
        ensures
            final(self).wf(),
            final(self).spec_width() == old(self).spec_width(),
            final(self).spec_height() == old(self).spec_height(),
            final(self).spec_treasures() == old(self).spec_treasures(),
            final(self).spec_respawns() == old(self).spec_respawns(),
            forall|q: GridPos| final(self).spec_in_bounds(q) ==> #[trigger] final(self).spec_base(q) == old(self).spec_base(q),
            forall|q: GridPos| #[trigger] final(self).spec_overridden(q) == (old(self).spec_overridden(q) && q != pos),
    {
        let mut i: usize = 0;
        while i < self.overrides.len()
            invariant
                *self == *old(self),
                self.wf(),
                i <= self.overrides@.len(),
                forall|j: int| 0 <= j < i ==> self.overrides@[j] != pos,
            decreases self.overrides@.len() - i,
        {
            if self.overrides[i] == pos {
                let ghost before = self.overrides@;
                self.overrides.remove(i);
                proof {
                    assert forall|q: GridPos| #[trigger] self.spec_overridden(q) == (old(self).spec_overridden(q) && q != pos) by {
                        if self.overrides@.contains(q) {
                            let j = choose|j: int| 0 <= j < self.overrides@.len() && self.overrides@[j] == q;
                            if j < i {
                                assert(before[j] == q);
                            } else {
                                assert(before[j + 1] == q);
                                assert(j + 1 != i);
                            }
                        }
                        if before.contains(q) && q != pos {
                            let j = choose|j: int| 0 <= j < before.len() && before[j] == q;
                            if j < i {
                                assert(self.overrides@[j] == q);
                            } else {
                                assert(j != i);
                                assert(self.overrides@[j - 1] == q);
                            }
                        }
                    }
                    assert forall|j: int| 0 <= j < self.overrides@.len() implies in_rect(self.width as int, self.height as int, #[trigger] self.overrides@[j]) by {
                        if j < i {
                            assert(self.overrides@[j] == before[j]);
                        } else {
                            assert(self.overrides@[j] == before[j + 1]);
                        }
                    }
                    assert(self.overrides@.no_duplicates()) by {
                        assert forall|a: int, b: int| 0 <= a < self.overrides@.len() && 0 <= b < self.overrides@.len() && a != b
                            implies self.overrides@[a] != self.overrides@[b] by {
                            let a2 = if a < i { a } else { a + 1 };
                            let b2 = if b < i { b } else { b + 1 };
                            assert(self.overrides@[a] == before[a2]);
                            assert(self.overrides@[b] == before[b2]);
                        }
                    }
                }
                return;
            }
            i += 1;
        }
    }

    pub fn treasure_count(&self) -> (r: u32)
        ensures
            r == self.spec_treasures(),
    {
        self.treasures
    }

    /// How many cells a guard may reappear in.
    pub fn respawn_count(&self) -> (r: usize)
        ensures
            r == self.spec_respawns().len(),
    {
        self.respawns.len()
    }

    /// The `index`-th cell where a guard may reappear.
    pub fn respawn_at(&self, index: usize) -> (r: GridPos)
        requires
            index < self.spec_respawns().len(),
        ensures
            r == self.spec_respawns()[index as int],
    {
        self.respawns[index]
    }

    /// A cell where a guard may reappear, chosen uniformly at random.
    pub fn get_random_respawn(&self) -> (r: GridPos)
        requires
            self.spec_respawns().len() > 0,
        ensures
            self.spec_respawns().contains(r),
    {
        let index = random_index(self.respawns.len());
        let r = self.respawn_at(index);
        assert(self.spec_respawns()[index as int] == r);
        r
    }
}

/// Relies on rand's `Rng::gen_range` over `thread_rng()`: a value of `0..n`,
/// which must not be empty.
#[verifier::external_body]
fn random_index(n: usize) -> (r: usize)
    requires
        n > 0,
    ensures
        r < n,
{
    rand::thread_rng().gen_range(0..n)
}

/// Outside the grid, cells above the top row read as open sky and all
/// others as solid.
pub proof fn lemma_at_out_of_bounds(level: &LevelResource, pos: GridPos)
    ensures
        pos.y >= level.spec_height() ==> level.spec_at(pos) == tile_none(),
        pos.y < level.spec_height() && !level.spec_in_bounds(pos) ==> level.spec_at(pos) == tile_blocker(),
{
}

/// Reading the neighbourhood of a cell twice, with no change to the grid in
/// between, gives the same result.
pub proof fn lemma_around_idempotent(level: &LevelResource, pos: GridPos, first: TilesAround, second: TilesAround)
    requires
        first == level.spec_around(pos),
        second == level.spec_around(pos),
    ensures
        first == second,
{
}

} // verus!
