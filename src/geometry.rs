use vstd::prelude::*;

verus! {

/// Width of one tile in world units; world units are thousandths of a pixel.
pub const TILE_SIZE_WIDTH: i64 = 20_000;

/// Height of one tile in world units.
pub const TILE_SIZE_HEIGHT: i64 = 22_000;

/// World coordinates (and grid offsets) stay within this magnitude.
pub const WORLD_LIMIT: i64 = 0x100_0000_0000;

/// A cell of the grid; `y` grows upward, the origin is the bottom-left cell.
#[derive(Clone, Copy, Debug, PartialEq, Eq, Hash, Structural)]
pub struct GridPos {
    pub x: i32,
    pub y: i32,
}

/// A point of the continuous world, in world units.
#[derive(Clone, Copy, Debug, PartialEq, Eq, Hash, Structural)]
pub struct WorldPos {
    pub x: i64,
    pub y: i64,
}

pub open spec fn in_world(v: int) -> bool {
    -WORLD_LIMIT <= v <= WORLD_LIMIT
}

/// Within three times the world's extent: where a point may stand in the
/// middle of a movement step, before it is brought back into the world.
pub open spec fn in_reach(v: int) -> bool {
    -3 * WORLD_LIMIT <= v <= 3 * WORLD_LIMIT
}

impl WorldPos {
    pub open spec fn in_world(self) -> bool {
        in_world(self.x as int) && in_world(self.y as int)
    }

    pub open spec fn in_reach(self) -> bool {
        in_reach(self.x as int) && in_reach(self.y as int)
    }
}

impl GridPos {
    pub fn new(x: i32, y: i32) -> (r: GridPos)
        ensures
            r.x == x,
            r.y == y,
    {
        GridPos { x, y }
    }

    /// The neighbouring cell at offset `(dx, dy)`, which must lie in `i32`.
    pub fn offset(self, dx: i32, dy: i32) -> (r: GridPos)
        requires
            i32::MIN <= self.x + dx <= i32::MAX,
            i32::MIN <= self.y + dy <= i32::MAX,
        ensures
            r.x == self.x + dx,
            r.y == self.y + dy,
    {
        GridPos { x: self.x + dx, y: self.y + dy }
    }
}

/// Rounds `d / t` to the nearest integer, halves away from zero.
pub open spec fn round_div(d: int, t: int) -> int
    recommends
        t > 0,
{
    if d >= 0 {
        (2 * d + t) / (2 * t)
    } else {
        -((t - 2 * d) / (2 * t))
    }
}

/// Grid placement of an entity: the world position of cell (0, 0) and the
/// cell the entity currently stands in.
#[derive(Clone, Copy, Debug, PartialEq, Eq, Structural)]
pub struct GridTransform {
    pub offset: WorldPos,
    pub translation: GridPos,
}

impl GridTransform {
    pub open spec fn wf(self) -> bool {
        self.offset.in_world()
    }

    pub open spec fn spec_to_world(self, pos: GridPos) -> WorldPos {
        WorldPos {
            x: (pos.x * TILE_SIZE_WIDTH + self.offset.x) as i64,
            y: (pos.y * TILE_SIZE_HEIGHT + self.offset.y) as i64,
        }
    }

    /// The cell whose centre is nearest to `pos`.
    pub open spec fn spec_cell_of(self, pos: WorldPos) -> GridPos {
        GridPos {
            x: round_div(pos.x - self.offset.x, TILE_SIZE_WIDTH as int) as i32,
            y: round_div(pos.y - self.offset.y, TILE_SIZE_HEIGHT as int) as i32,
        }
    }

    pub fn new(offset: WorldPos) -> (r: GridTransform)
        ensures
            r.offset == offset,
            r.translation == (GridPos { x: 0, y: 0 }),
    {
        GridTransform { offset, translation: GridPos { x: 0, y: 0 } }
    }

    /// World position of a cell.
    pub fn to_world(&self, pos: GridPos) -> (r: WorldPos)
        requires
            self.wf(),
        ensures
            r == self.spec_to_world(pos),
            r.x == pos.x * TILE_SIZE_WIDTH + self.offset.x,
            r.y == pos.y * TILE_SIZE_HEIGHT + self.offset.y,
    {
        let x = pos.x as i64 * TILE_SIZE_WIDTH + self.offset.x;
        let y = pos.y as i64 * TILE_SIZE_HEIGHT + self.offset.y;
        WorldPos { x, y }
    }

    /// The cell nearest to a world position.
    pub fn cell_of(&self, pos: WorldPos) -> (r: GridPos)
        requires
            self.wf(),
            pos.in_reach(),
        ensures
            r == self.spec_cell_of(pos),
    {
        GridPos {
            x: round_div_exec(pos.x - self.offset.x, TILE_SIZE_WIDTH) as i32,
            y: round_div_exec(pos.y - self.offset.y, TILE_SIZE_HEIGHT) as i32,
        }
    }

    /// `pos` moved onto the world position of its nearest cell.
    pub fn snap(&self, pos: WorldPos) -> (r: WorldPos)
        requires
            self.wf(),
            pos.in_reach(),
        ensures
            r == self.spec_to_world(self.spec_cell_of(pos)),
    {
        let c = self.cell_of(pos);
        self.to_world(c)
    }

    /// Recomputes the grid cell from the entity's world position.
    pub fn update(&mut self, pos: WorldPos)
        requires
            old(self).wf(),
            pos.in_world(),
        ensures
            final(self).offset == old(self).offset,
            final(self).translation == old(self).spec_cell_of(pos),
    {
        self.translation = self.cell_of(pos);
    }
}

fn round_div_exec(d: i64, t: i64) -> (r: i64)
    requires
        t == TILE_SIZE_WIDTH || t == TILE_SIZE_HEIGHT,
        -4 * WORLD_LIMIT <= d <= 4 * WORLD_LIMIT,
    ensures
        r == round_div(d as int, t as int),
        i32::MIN <= r <= i32::MAX,
{
    if d >= 0 {
        (2 * d + t) / (2 * t)
    } else {
        -((t - 2 * d) / (2 * t))
    }
}

} // verus!
