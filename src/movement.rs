use vstd::prelude::*;

use crate::geometry::{
    in_world, GridPos, GridTransform, WorldPos, TILE_SIZE_HEIGHT, TILE_SIZE_WIDTH, WORLD_LIMIT,
};
use crate::resources::{EffectiveTileType, Tile, TilesAround};

verus! {

/// Speed of a fall, in world units per second.
pub const FALL_SPEED: i64 = TILE_SIZE_HEIGHT * 7;

/// Speeds are at most this many world units per second.
pub const SPEED_LIMIT: i64 = 0x1_0000_0000;

/// The net intent on each axis: -1, 0 or 1 (`y` positive is up).
#[derive(Clone, Copy, Debug, PartialEq, Eq, Structural)]
pub struct Direction {
    pub x: i64,
    pub y: i64,
}

/// Per-entity movement state: the intents buffered for the next tick, the
/// fall in progress, the configured speeds and the last displacement.
#[derive(Clone, Copy, Debug)]
pub struct Movement {
    pub move_left: bool,
    pub move_right: bool,
    pub move_up: bool,
    pub move_down: bool,
    pub is_falling: bool,
    pub fall_direction: i64,
    pub start_fall_position: GridPos,
    pub horizontal_speed: i64,
    pub climb_speed: i64,
    pub velocity: WorldPos,
}

pub open spec fn abs(v: int) -> int {
    if v < 0 {
        -v
    } else {
        v
    }
}

pub open spec fn sign(v: int) -> int {
    if v > 0 {
        1
    } else if v < 0 {
        -1
    } else {
        0
    }
}

pub open spec fn min(a: int, b: int) -> int {
    if a <= b {
        a
    } else {
        b
    }
}

pub open spec fn clamp_world(v: int) -> int {
    if v < -WORLD_LIMIT {
        -WORLD_LIMIT as int
    } else if v > WORLD_LIMIT {
        WORLD_LIMIT as int
    } else {
        v
    }
}

/// How far `speed` world units per second carry in `dt_ms` milliseconds,
/// capped at the world's extent.
pub open spec fn tick_step(speed: int, dt_ms: int) -> int {
    min(speed * dt_ms / 1000, WORLD_LIMIT as int)
}

/// Two coordinates lie within `size` of each other.
pub open spec fn spec_overlapping(a: int, b: int, size: int) -> bool {
    abs(b - a) <= size
}

/// How far a point at `b` may move toward a cell at `a` before it touches it.
pub open spec fn contact_room(a: int, b: int, size: int) -> int {
    if abs(b - a) <= size {
        0
    } else {
        abs(b - a) - size
    }
}

/// The move from `current` toward `target`, at most `speed` long.
pub open spec fn spec_drift(target: int, current: int, speed: int) -> int {
    let d = target - current;
    if abs(d) < speed {
        d
    } else {
        speed * sign(d)
    }
}

impl Movement {
    pub open spec fn wf(&self) -> bool {
        0 <= self.horizontal_speed <= SPEED_LIMIT && 0 <= self.climb_speed <= SPEED_LIMIT
    }

    pub open spec fn spec_falling(&self) -> bool {
        self.is_falling
    }

    pub open spec fn spec_fall_direction(&self) -> int {
        self.fall_direction as int
    }

    pub open spec fn spec_fall_start(&self) -> GridPos {
        self.start_fall_position
    }

    /// The intent that the buffered flags add up to: opposite flags on one axis cancel.
    pub open spec fn spec_intent(&self) -> Direction {
        Direction {
            x: if self.move_left && !self.move_right {
                -1i64
            } else if self.move_right && !self.move_left {
                1i64
            } else {
                0i64
            },
            y: if self.move_up && !self.move_down {
                1i64
            } else if self.move_down && !self.move_up {
                -1i64
            } else {
                0i64
            },
        }
    }

    /// Same fall state and speeds, no intent buffered.
    pub open spec fn consumed_from(&self, other: &Movement) -> bool {
        &&& self.spec_intent() == (Direction { x: 0, y: 0 })
        &&& self.spec_falling() == other.spec_falling()
        &&& self.spec_fall_direction() == other.spec_fall_direction()
        &&& self.spec_fall_start() == other.spec_fall_start()
        &&& self.horizontal_speed == other.horizontal_speed
        &&& self.climb_speed == other.climb_speed
        &&& self.velocity == other.velocity
    }

    pub fn new(horizontal_speed: i64, climb_speed: i64) -> (r: Movement)
        ensures
            r.horizontal_speed == horizontal_speed,
            r.climb_speed == climb_speed,
            r.velocity == (WorldPos { x: 0, y: 0 }),
            r.spec_intent() == (Direction { x: 0, y: 0 }),
            !r.spec_falling(),
            r.spec_fall_direction() == 0,
            r.spec_fall_start() == (GridPos { x: 0, y: 0 }),
    {
        Movement {
            move_left: false,
            move_right: false,
            move_up: false,
            move_down: false,
            is_falling: false,
            fall_direction: 0,
            start_fall_position: GridPos { x: 0, y: 0 },
            horizontal_speed,
            climb_speed,
            velocity: WorldPos { x: 0, y: 0 },
        }
    }

    pub fn add_move_left(&mut self)
        ensures
            *final(self) == (Movement { move_left: true, ..*old(self) }),
    {
        self.move_left = true;
    }

    pub fn add_move_right(&mut self)
        ensures
            *final(self) == (Movement { move_right: true, ..*old(self) }),
    {
        self.move_right = true;
    }

    pub fn add_move_up(&mut self)
        ensures
            *final(self) == (Movement { move_up: true, ..*old(self) }),
    {
        self.move_up = true;
    }

    pub fn add_move_down(&mut self)
        ensures
            *final(self) == (Movement { move_down: true, ..*old(self) }),
    {
        self.move_down = true;
    }

    /// Begins a fall from the cell `start_pos`, drifting in `direction`.
    pub fn start_falling(&mut self, start_pos: GridPos, direction: i64)
        ensures
            *final(self) == (Movement {
                is_falling: true,
                start_fall_position: start_pos,
                fall_direction: direction,
                ..*old(self)
            }),
            final(self).spec_falling(),
            final(self).spec_fall_start() == start_pos,
            final(self).spec_fall_direction() == direction,
            final(self).spec_intent() == old(self).spec_intent(),
    {
        self.is_falling = true;
        self.start_fall_position = start_pos;
        self.fall_direction = direction;
    }

    pub fn is_falling(&self) -> (r: bool)
        ensures
            r == self.spec_falling(),
    {
        self.is_falling
    }

    pub fn get_fall_direction(&self) -> (r: i64)
        ensures
            r == self.spec_fall_direction(),
    {
        self.fall_direction
    }

    pub fn fall_start_pos(&self) -> (r: GridPos)
        ensures
            r == self.spec_fall_start(),
    {
        self.start_fall_position
    }

    pub fn stop_falling(&mut self)
        ensures
            *final(self) == (Movement { is_falling: false, ..*old(self) }),
            !final(self).spec_falling(),
            final(self).spec_fall_start() == old(self).spec_fall_start(),
            final(self).spec_intent() == old(self).spec_intent(),
    {
        self.is_falling = false;
    }

    /// Hands out the buffered intent and clears it.
    pub fn consume(&mut self) -> (r: Direction)
        ensures
            r == old(self).spec_intent(),
            final(self).consumed_from(old(self)),
            *final(self) == (Movement {
                move_left: false,
                move_right: false,
                move_up: false,
                move_down: false,
                ..*old(self)
            }),
    {
        let mut directions = Direction { x: 0, y: 0 };
        if self.move_left && !self.move_right {
            directions.x = -1;
        } else if self.move_right && !self.move_left {
            directions.x = 1;
        }
        if self.move_up && !self.move_down {
            directions.y = 1;
        } else if self.move_down && !self.move_up {
            directions.y = -1;
        }
        self.move_left = false;
        self.move_right = false;
        self.move_up = false;
        self.move_down = false;
        directions
    }
}

/// Bound on the coordinates handed to the small arithmetic helpers.
pub open spec fn small(v: int) -> bool {
    -0x1000_0000_0000_0000 <= v <= 0x1000_0000_0000_0000
}

pub open spec fn is_open_or_rope(t: Tile) -> bool {
    t.behaviour == EffectiveTileType::Empty || t.behaviour == EffectiveTileType::Rope
}

/// Standing where nothing holds the entity up.
pub open spec fn spec_should_start_falling(t: TilesAround) -> bool {
    if t.on.behaviour == EffectiveTileType::Ladder {
        false
    } else if t.below.behaviour == EffectiveTileType::Empty && t.on.behaviour != EffectiveTileType::Rope {
        true
    } else {
        t.on.behaviour == EffectiveTileType::Empty && t.below.behaviour == EffectiveTileType::Rope
    }
}

pub open spec fn spec_wants_to_drop_from_rope(dir: Direction, t: TilesAround) -> bool {
    dir.y < 0 && t.on.behaviour == EffectiveTileType::Rope && (t.below.behaviour == EffectiveTileType::Empty
        || t.below.behaviour == EffectiveTileType::Rope)
}

pub open spec fn spec_drop_from_ladder_bottom(dir: Direction, t: TilesAround) -> bool {
    dir.y < 0 && is_open_or_rope(t.on) && t.above.behaviour == EffectiveTileType::Ladder
}

pub open spec fn spec_mounts_ladder(dir: Direction, t: TilesAround) -> bool {
    dir.y > 0 && is_open_or_rope(t.on) && t.below.behaviour == EffectiveTileType::Ladder
}

pub open spec fn spec_climbs_up(dir: Direction, t: TilesAround) -> bool {
    dir.y > 0 && t.on.behaviour == EffectiveTileType::Ladder
}

pub open spec fn spec_climbs_down(dir: Direction, t: TilesAround) -> bool {
    dir.y < 0 && (t.on.behaviour == EffectiveTileType::Ladder || (is_open_or_rope(t.on) && t.below.behaviour
        == EffectiveTileType::Ladder))
}

/// The tick starts a fall from the entity's own cell.
pub open spec fn spec_falls_in_place(dir: Direction, t: TilesAround) -> bool {
    spec_should_start_falling(t) || spec_wants_to_drop_from_rope(dir, t)
}

/// The tick starts a fall of any kind.
pub open spec fn spec_starts_falling(dir: Direction, t: TilesAround) -> bool {
    spec_falls_in_place(dir, t) || spec_drop_from_ladder_bottom(dir, t)
}

pub open spec fn snap_x(grid: GridTransform, x: int, y: int) -> int {
    grid.spec_to_world(grid.spec_cell_of(WorldPos { x: x as i64, y: y as i64 })).x as int
}

pub open spec fn snap_y(grid: GridTransform, x: int, y: int) -> int {
    grid.spec_to_world(grid.spec_cell_of(WorldPos { x: x as i64, y: y as i64 })).y as int
}

/// Where the ladder and fall rules leave the entity, as `(x, y)`.
pub open spec fn vertical_phase(
    m: Movement,
    pos: WorldPos,
    grid: GridTransform,
    t: TilesAround,
    dir: Direction,
    dt_ms: int,
) -> (int, int) {
    let cs = tick_step(m.climb_speed as int, dt_ms);
    let hs = tick_step(m.horizontal_speed as int, dt_ms);
    let above_y = grid.spec_to_world(t.above.pos).y as int;
    let below_y = grid.spec_to_world(t.below.pos).y as int;
    let th = TILE_SIZE_HEIGHT as int;
    if spec_starts_falling(dir, t) {
        (pos.x as int, pos.y as int)
    } else if spec_mounts_ladder(dir, t) {
        (pos.x as int, pos.y + min(contact_room(above_y, pos.y as int, th), cs))
    } else if spec_climbs_up(dir, t) || spec_climbs_down(dir, t) {
        let dy = if spec_climbs_up(dir, t) {
            if t.above.behaviour == EffectiveTileType::Blocker {
                min(contact_room(above_y, pos.y as int, th), cs)
            } else {
                cs
            }
        } else {
            -(if t.below.behaviour == EffectiveTileType::Blocker {
                min(contact_room(below_y, pos.y as int, th), cs)
            } else {
                cs
            })
        };
        if dy != 0 {
            let y1 = pos.y + dy;
            (pos.x + spec_drift(snap_x(grid, pos.x as int, y1), pos.x as int, hs), y1)
        } else {
            (pos.x as int, pos.y as int)
        }
    } else {
        (pos.x as int, pos.y as int)
    }
}

/// Where the whole tick leaves the entity, before it is kept inside the world.
pub open spec fn raw_step(
    m: Movement,
    pos: WorldPos,
    grid: GridTransform,
    t: TilesAround,
    dir: Direction,
    dt_ms: int,
) -> (int, int) {
    let pv = vertical_phase(m, pos, grid, t, dir, dt_ms);
    if pv == (pos.x as int, pos.y as int) && dir.x != 0 {
        let hs = tick_step(m.horizontal_speed as int, dt_ms);
        let side = if dir.x > 0 {
            t.right
        } else {
            t.left
        };
        let side_x = grid.spec_to_world(side.pos).x as int;
        let dx = if side.behaviour == EffectiveTileType::Blocker {
            min(contact_room(side_x, pos.x as int, TILE_SIZE_WIDTH as int), hs) * sign(dir.x as int)
        } else {
            hs * sign(dir.x as int)
        };
        let x2 = pos.x + dx;
        let y2 = if t.on.behaviour != EffectiveTileType::Ladder {
            pos.y + spec_drift(snap_y(grid, x2, pos.y as int), pos.y as int, hs)
        } else {
            pos.y as int
        };
        (x2, y2)
    } else {
        pv
    }
}

/// The position after one movement tick.
pub open spec fn spec_step(
    m: Movement,
    pos: WorldPos,
    grid: GridTransform,
    t: TilesAround,
    dir: Direction,
    dt_ms: int,
) -> WorldPos {
    let p = raw_step(m, pos, grid, t, dir, dt_ms);
    WorldPos { x: clamp_world(p.0) as i64, y: clamp_world(p.1) as i64 }
}

/// Whether two coordinates lie within `size` of each other, and how far `b`
/// may move toward `a` before touching it.
pub fn is_range_overlapping(a: i64, b: i64, size: i64) -> (r: (bool, i64))
    requires
        small(a as int),
        small(b as int),
        0 <= size,
    ensures
        r.0 == spec_overlapping(a as int, b as int, size as int),
        r.1 == contact_room(a as int, b as int, size as int),
{
    let delta = if b >= a {
        b - a
    } else {
        a - b
    };
    if delta <= size {
        (true, 0)
    } else {
        (false, delta - size)
    }
}

pub fn useful_sign(num: i64) -> (r: i64)
    ensures
        r == sign(num as int),
{
    if num > 0 {
        1
    } else if num < 0 {
        -1
    } else {
        0
    }
}

/// The move from `current` toward `target`, at most `speed` long.
pub fn drift_towards(target: i64, current: i64, speed: i64) -> (r: i64)
    requires
        small(target as int),
        small(current as int),
        0 <= speed <= WORLD_LIMIT,
    ensures
        r == spec_drift(target as int, current as int, speed as int),
        abs(r as int) <= speed,
        abs(r as int) <= abs(target - current),
{
    let signed_distance_between = target - current;
    let direction = useful_sign(signed_distance_between);
    let distance = if signed_distance_between < 0 {
        -signed_distance_between
    } else {
        signed_distance_between
    };
    if distance < speed {
        signed_distance_between
    } else {
        speed * direction
    }
}

/// How far `speed` world units per second carry in `dt_ms` milliseconds.
pub fn tick_distance(speed: i64, dt_ms: u64) -> (r: i64)
    requires
        0 <= speed <= SPEED_LIMIT,
    ensures
        r == tick_step(speed as int, dt_ms as int),
        0 <= r <= WORLD_LIMIT,
{
    let s128 = speed as u128;
    let t128 = dt_ms as u128;
    assert(s128 * t128 <= 0x1_0000_0000u128 * 0x1_0000_0000_0000_0000u128) by (nonlinear_arith)
        requires
            0 <= s128 <= 0x1_0000_0000u128,
            0 <= t128 <= 0x1_0000_0000_0000_0000u128,
    ;
    let product: u128 = s128 * t128;
    let d = product / 1000;
    if d < WORLD_LIMIT as u128 {
        d as i64
    } else {
        WORLD_LIMIT
    }
}

fn clamp_to_world(v: i64) -> (r: i64)
    ensures
        r == clamp_world(v as int),
{
    if v < -WORLD_LIMIT {
        -WORLD_LIMIT
    } else if v > WORLD_LIMIT {
        WORLD_LIMIT
    } else {
        v
    }
}

/// The neighbour on the side that a horizontal intent points to.
pub fn get_horizontal_tile_from_sign(horizontal_direction: i64, tiles: &TilesAround) -> (r: Tile)
    ensures
        r == (if horizontal_direction > 0 {
            tiles.right
        } else {
            tiles.left
        }),
{
    if horizontal_direction > 0 {
        tiles.right
    } else {
        tiles.left
    }
}

pub fn should_start_falling(tiles: &TilesAround) -> (r: bool)
    ensures
        r == spec_should_start_falling(*tiles),
{
    if tiles.on.behaviour == EffectiveTileType::Ladder {
        false
    } else if tiles.below.behaviour == EffectiveTileType::Empty && tiles.on.behaviour != EffectiveTileType::Rope {
        true
    } else if tiles.on.behaviour == EffectiveTileType::Empty && tiles.below.behaviour == EffectiveTileType::Rope {
        true
    } else {
        false
    }
}

pub fn wants_to_drop_from_rope(desired_direction: Direction, tiles: &TilesAround) -> (r: bool)
    ensures
        r == spec_wants_to_drop_from_rope(desired_direction, *tiles),
{
    desired_direction.y < 0 && tiles.on.behaviour == EffectiveTileType::Rope && (tiles.below.behaviour
        == EffectiveTileType::Empty || tiles.below.behaviour == EffectiveTileType::Rope)
}

pub fn drop_from_ladder_bottom(desired_direction: Direction, tiles: &TilesAround) -> (r: bool)
    ensures
        r == spec_drop_from_ladder_bottom(desired_direction, *tiles),
{
    desired_direction.y < 0 && (tiles.on.behaviour == EffectiveTileType::Empty || tiles.on.behaviour
        == EffectiveTileType::Rope) && tiles.above.behaviour == EffectiveTileType::Ladder
}

/// The vertical move along a ladder: up when `up`, else down; held against
/// a blocking neighbour on that side.
fn ladder_move(
    position: WorldPos,
    grid: &GridTransform,
    tiles: &TilesAround,
    up: bool,
    climb: i64,
) -> (r: i64)
    requires
        grid.wf(),
        position.in_world(),
        0 <= climb <= WORLD_LIMIT,
    ensures
        r == (if up {
            if tiles.above.behaviour == EffectiveTileType::Blocker {
                min(contact_room(grid.spec_to_world(tiles.above.pos).y as int, position.y as int, TILE_SIZE_HEIGHT as int), climb as int)
            } else {
                climb as int
            }
        } else {
            -(if tiles.below.behaviour == EffectiveTileType::Blocker {
                min(contact_room(grid.spec_to_world(tiles.below.pos).y as int, position.y as int, TILE_SIZE_HEIGHT as int), climb as int)
            } else {
                climb as int
            })
        }),
{
    let side = if up {
        tiles.above
    } else {
        tiles.below
    };
    let mut desired = climb;
    if side.behaviour == EffectiveTileType::Blocker {
        let blocking_tile_y = grid.to_world(side.pos).y;
        let (_, movable_distance) = is_range_overlapping(blocking_tile_y, position.y, TILE_SIZE_HEIGHT);
        if movable_distance < desired {
            desired = movable_distance;
        }
    }
    if up {
        desired
    } else {
        -desired
    }
}

/// What one movement tick does to an entity's movement state `m0` and
/// position `pos0`, giving `m1` and `pos1`.
pub open spec fn movement_tick(
    m0: Movement,
    pos0: WorldPos,
    grid: GridTransform,
    tiles: TilesAround,
    dt_ms: int,
    m1: Movement,
    pos1: WorldPos,
) -> bool {
    let dir = m0.spec_intent();
    &&& pos1 == spec_step(m0, pos0, grid, tiles, dir, dt_ms)
    &&& pos1.in_world()
    &&& m1.spec_intent() == (Direction { x: 0, y: 0 })
    &&& m1.horizontal_speed == m0.horizontal_speed
    &&& m1.climb_speed == m0.climb_speed
    &&& m1.velocity == (WorldPos { x: (pos1.x - pos0.x) as i64, y: (pos1.y - pos0.y) as i64 })
    &&& if spec_falls_in_place(dir, tiles) {
        &&& m1.spec_falling()
        &&& m1.spec_fall_start() == grid.translation
        &&& m1.spec_fall_direction() == m0.velocity.x
    } else if spec_drop_from_ladder_bottom(dir, tiles) {
        &&& m1.spec_falling()
        &&& m1.spec_fall_start() == tiles.above.pos
        &&& m1.spec_fall_direction() == 0
    } else {
        &&& m1.spec_falling() == m0.spec_falling()
        &&& m1.spec_fall_start() == m0.spec_fall_start()
        &&& m1.spec_fall_direction() == m0.spec_fall_direction()
    }
}

/// One movement tick of an entity that is neither falling, stunned nor
/// killed: consumes its intent, may start a fall, and moves it by the first
/// ladder rule that applies, else sideways.
pub fn step_movement(
    movement: &mut Movement,
    position: &mut WorldPos,
    grid: &GridTransform,
    tiles: &TilesAround,
    dt_ms: u64,
)
    requires
        old(movement).wf(),
        grid.wf(),
        old(position).in_world(),
    ensures
        movement_tick(*old(movement), *old(position), *grid, *tiles, dt_ms as int, *final(movement), *final(position)),
{
    let ghost m0 = *movement;
    let start = *position;
    let previous_velocity = movement.velocity;
    let desired_direction = movement.consume();
    let climb = tick_distance(movement.climb_speed, dt_ms);
    let horizontal = tick_distance(movement.horizontal_speed, dt_ms);
    let mut x = start.x;
    let mut y = start.y;

    if should_start_falling(tiles) || wants_to_drop_from_rope(desired_direction, tiles) {
        movement.start_falling(grid.translation, previous_velocity.x);
    } else if drop_from_ladder_bottom(desired_direction, tiles) {
        movement.start_falling(tiles.above.pos, 0);
    } else if desired_direction.y > 0 && (tiles.on.behaviour == EffectiveTileType::Empty
        || tiles.on.behaviour == EffectiveTileType::Rope) && tiles.below.behaviour == EffectiveTileType::Ladder {
        let blocking_tile_y = grid.to_world(tiles.above.pos).y;
        let (_, movable_distance) = is_range_overlapping(blocking_tile_y, y, TILE_SIZE_HEIGHT);
        let desired = if movable_distance < climb {
            movable_distance
        } else {
            climb
        };
        y = y + desired;
    } else if (desired_direction.y > 0 && tiles.on.behaviour == EffectiveTileType::Ladder) || (
    desired_direction.y < 0 && (tiles.on.behaviour == EffectiveTileType::Ladder || ((tiles.on.behaviour
        == EffectiveTileType::Empty || tiles.on.behaviour == EffectiveTileType::Rope) && tiles.below.behaviour
        == EffectiveTileType::Ladder))) {
        let desired = ladder_move(start, grid, tiles, desired_direction.y > 0, climb);
        if desired != 0 {
            y = y + desired;
            let target = grid.snap(WorldPos { x, y });
            x = x + drift_towards(target.x, x, horizontal);
        }
    }

    if x == start.x && y == start.y && desired_direction.x != 0 {
        let relevant_tile = get_horizontal_tile_from_sign(desired_direction.x, tiles);
        let dir_sign = useful_sign(desired_direction.x);
        let mut desired = horizontal;
        if relevant_tile.behaviour == EffectiveTileType::Blocker {
            let blocking_tile_x = grid.to_world(relevant_tile.pos).x;
            let (_, movable_distance) = is_range_overlapping(blocking_tile_x, x, TILE_SIZE_WIDTH);
            if movable_distance < desired {
                desired = movable_distance;
            }
        }
        x = if dir_sign > 0 {
            x + desired
        } else {
            x - desired
        };
        if tiles.on.behaviour != EffectiveTileType::Ladder {
            let target = grid.snap(WorldPos { x, y });
            y = y + drift_towards(target.y, y, horizontal);
        }
    }

    let new_position = WorldPos { x: clamp_to_world(x), y: clamp_to_world(y) };
    movement.velocity = WorldPos { x: new_position.x - start.x, y: new_position.y - start.y };
    *position = new_position;
}

/// A move from `old` to `new` stays on the side of the cell centred at `b`
/// that it started on, at least `size` away from its centre.
pub open spec fn keeps_side(old: int, new: int, b: int, size: int) -> bool {
    &&& old <= b - size ==> new <= b - size
    &&& old >= b + size ==> new >= b + size
}

/// The neighbours in `t` are those of the cell `c`.
pub open spec fn neighbours_of(t: TilesAround, c: GridPos) -> bool {
    &&& t.on.pos == c
    &&& t.above.pos == (GridPos { x: c.x, y: (c.y + 1) as i32 })
    &&& t.below.pos == (GridPos { x: c.x, y: (c.y - 1) as i32 })
    &&& t.left.pos == (GridPos { x: (c.x - 1) as i32, y: c.y })
    &&& t.right.pos == (GridPos { x: (c.x + 1) as i32, y: c.y })
}

proof fn lemma_round_div_near(d: int, t: int)
    requires
        t == TILE_SIZE_WIDTH || t == TILE_SIZE_HEIGHT,
    ensures
        2 * abs(d - crate::geometry::round_div(d, t) * t) <= t,
{
    let k = crate::geometry::round_div(d, t);
    if d >= 0 {
        assert(2 * abs(d - k * t) <= t) by (nonlinear_arith)
            requires
                t > 0,
                d >= 0,
                k == (2 * d + t) / (2 * t),
        ;
    } else {
        assert(2 * abs(d - k * t) <= t) by (nonlinear_arith)
            requires
                t > 0,
                d < 0,
                k == -((t - 2 * d) / (2 * t)),
        ;
    }
}

proof fn lemma_drift_between(target: int, cur: int, speed: int)
    requires
        speed >= 0,
    ensures
        target >= cur ==> cur <= cur + spec_drift(target, cur, speed) <= target,
        target <= cur ==> target <= cur + spec_drift(target, cur, speed) <= cur,
        abs(spec_drift(target, cur, speed)) <= speed,
{
}

/// The displacement of one movement tick: at most one horizontal step
/// sideways, and at most the larger of the climb and horizontal steps
/// vertically.
pub proof fn lemma_step_displacement(m: Movement, pos: WorldPos, grid: GridTransform, t: TilesAround, dir: Direction, dt_ms: int)
    requires
        m.wf(),
        grid.wf(),
        pos.in_world(),
        dt_ms >= 0,
    ensures
        ({
            let p = spec_step(m, pos, grid, t, dir, dt_ms);
            let hs = tick_step(m.horizontal_speed as int, dt_ms);
            let cs = tick_step(m.climb_speed as int, dt_ms);
            &&& abs(p.x - pos.x) <= hs
            &&& abs(p.y - pos.y) <= hs || abs(p.y - pos.y) <= cs
        }),
{
    let hs = tick_step(m.horizontal_speed as int, dt_ms);
    let cs = tick_step(m.climb_speed as int, dt_ms);
    assert(hs >= 0 && cs >= 0) by (nonlinear_arith)
        requires
            hs == min(m.horizontal_speed * dt_ms / 1000, WORLD_LIMIT as int),
            cs == min(m.climb_speed * dt_ms / 1000, WORLD_LIMIT as int),
            m.horizontal_speed >= 0,
            m.climb_speed >= 0,
            dt_ms >= 0,
    ;
    let r = raw_step(m, pos, grid, t, dir, dt_ms);
    let pv = vertical_phase(m, pos, grid, t, dir, dt_ms);
    let th = TILE_SIZE_HEIGHT as int;
    let above_y = grid.spec_to_world(t.above.pos).y as int;
    let below_y = grid.spec_to_world(t.below.pos).y as int;
    assert(contact_room(above_y, pos.y as int, th) >= 0);
    assert(contact_room(below_y, pos.y as int, th) >= 0);
    if !spec_starts_falling(dir, t) && !spec_mounts_ladder(dir, t) && (spec_climbs_up(dir, t) || spec_climbs_down(dir, t)) {
        let dy = pv.1 - pos.y;
        if dy != 0 {
            lemma_drift_between(snap_x(grid, pos.x as int, pos.y + dy), pos.x as int, hs);
        }
    }
    if pv == (pos.x as int, pos.y as int) && dir.x != 0 {
        let side = if dir.x > 0 {
            t.right
        } else {
            t.left
        };
        let side_x = grid.spec_to_world(side.pos).x as int;
        assert(contact_room(side_x, pos.x as int, TILE_SIZE_WIDTH as int) >= 0);
        if dir.x > 0 {
            assert(sign(dir.x as int) == 1);
        } else {
            assert(sign(dir.x as int) == -1);
        }
        let x2 = r.0;
        if t.on.behaviour != EffectiveTileType::Ladder {
            lemma_drift_between(snap_y(grid, x2, pos.y as int), pos.y as int, hs);
        }
    }
}

proof fn lemma_clamp_keeps_side(old: int, raw: int, b: int, size: int)
    requires
        in_world(old),
        keeps_side(old, raw, b, size),
    ensures
        keeps_side(old, clamp_world(raw), b, size),
{
}

/// The world position of the cell an in-world point lies in is within half
/// a tile of it on each axis.
proof fn lemma_cell_centre_near(grid: GridTransform, pos: WorldPos)
    requires
        grid.wf(),
        pos.in_reach(),
    ensures
        ({
            let c = grid.spec_cell_of(pos);
            let w = grid.spec_to_world(c);
            &&& 2 * abs(pos.x - w.x) <= TILE_SIZE_WIDTH
            &&& 2 * abs(pos.y - w.y) <= TILE_SIZE_HEIGHT
            &&& -0x1000_0000 <= c.x <= 0x1000_0000
            &&& -0x1000_0000 <= c.y <= 0x1000_0000
            &&& w.x == c.x * TILE_SIZE_WIDTH + grid.offset.x
            &&& w.y == c.y * TILE_SIZE_HEIGHT + grid.offset.y
        }),
{
    let dx = pos.x - grid.offset.x;
    let dy = pos.y - grid.offset.y;
    lemma_round_div_near(dx, TILE_SIZE_WIDTH as int);
    lemma_round_div_near(dy, TILE_SIZE_HEIGHT as int);
    let kx = crate::geometry::round_div(dx, TILE_SIZE_WIDTH as int);
    let ky = crate::geometry::round_div(dy, TILE_SIZE_HEIGHT as int);
    assert(-0x1000_0000 <= kx <= 0x1000_0000) by (nonlinear_arith)
        requires
            2 * abs(dx - kx * 20000) <= 20000,
            -4 * WORLD_LIMIT <= dx <= 4 * WORLD_LIMIT,
    ;
    assert(-0x1000_0000 <= ky <= 0x1000_0000) by (nonlinear_arith)
        requires
            2 * abs(dy - ky * 22000) <= 22000,
            -4 * WORLD_LIMIT <= dy <= 4 * WORLD_LIMIT,
    ;
}

/// Moving by one tick never carries an entity into a blocking neighbour:
/// on each axis with a blocking neighbour, an entity that was at least a
/// tile away from it, on one side, still is, on the same side. The entity's
/// cell is the one its position rounds to, and `t` holds that cell's neighbours.
#[verifier::rlimit(60)]
pub proof fn lemma_step_no_penetration(
    m: Movement,
    pos: WorldPos,
    grid: GridTransform,
    t: TilesAround,
    dir: Direction,
    dt_ms: int,
)
    requires
        m.wf(),
        grid.wf(),
        pos.in_world(),
        dt_ms >= 0,
        grid.translation == grid.spec_cell_of(pos),
        neighbours_of(t, grid.translation),
    ensures
        ({
            let p = spec_step(m, pos, grid, t, dir, dt_ms);
            let th = TILE_SIZE_HEIGHT as int;
            let tw = TILE_SIZE_WIDTH as int;
            &&& t.above.behaviour == EffectiveTileType::Blocker ==> keeps_side(
                pos.y as int,
                p.y as int,
                grid.spec_to_world(t.above.pos).y as int,
                th,
            )
            &&& t.below.behaviour == EffectiveTileType::Blocker ==> keeps_side(
                pos.y as int,
                p.y as int,
                grid.spec_to_world(t.below.pos).y as int,
                th,
            )
            &&& t.left.behaviour == EffectiveTileType::Blocker ==> keeps_side(
                pos.x as int,
                p.x as int,
                grid.spec_to_world(t.left.pos).x as int,
                tw,
            )
            &&& t.right.behaviour == EffectiveTileType::Blocker ==> keeps_side(
                pos.x as int,
                p.x as int,
                grid.spec_to_world(t.right.pos).x as int,
                tw,
            )
        }),
{
    let th = TILE_SIZE_HEIGHT as int;
    let tw = TILE_SIZE_WIDTH as int;
    let hs = tick_step(m.horizontal_speed as int, dt_ms);
    let cs = tick_step(m.climb_speed as int, dt_ms);
    lemma_step_displacement(m, pos, grid, t, dir, dt_ms);
    assert(hs >= 0 && cs >= 0) by (nonlinear_arith)
        requires
            hs == min(m.horizontal_speed * dt_ms / 1000, WORLD_LIMIT as int),
            cs == min(m.climb_speed * dt_ms / 1000, WORLD_LIMIT as int),
            m.horizontal_speed >= 0,
            m.climb_speed >= 0,
            dt_ms >= 0,
    ;
    lemma_cell_centre_near(grid, pos);
    let c = grid.translation;
    let x0 = c.x * tw + grid.offset.x;
    let y0 = c.y * th + grid.offset.y;
    let above_y = grid.spec_to_world(t.above.pos).y as int;
    let below_y = grid.spec_to_world(t.below.pos).y as int;
    let left_x = grid.spec_to_world(t.left.pos).x as int;
    let right_x = grid.spec_to_world(t.right.pos).x as int;
    assert(above_y == y0 + th);
    assert(below_y == y0 - th);
    assert(left_x == x0 - tw);
    assert(right_x == x0 + tw);
    let r = raw_step(m, pos, grid, t, dir, dt_ms);
    let pv = vertical_phase(m, pos, grid, t, dir, dt_ms);
    // In the vertical phase, x only drifts toward the centre of its own column.
    if !spec_starts_falling(dir, t) && !spec_mounts_ladder(dir, t) && (spec_climbs_up(dir, t) || spec_climbs_down(dir, t)) {
        let dy = pv.1 - pos.y;
        if dy != 0 {
            let q = WorldPos { x: pos.x, y: (pos.y + dy) as i64 };
            assert(grid.spec_cell_of(q).x == c.x);
            assert(snap_x(grid, pos.x as int, pos.y + dy) == x0);
            lemma_drift_between(x0, pos.x as int, hs);
        }
    }
    // Sideways, y only drifts toward the centre of its own row.
    if pv == (pos.x as int, pos.y as int) && dir.x != 0 {
        let x2 = r.0;
        let side = if dir.x > 0 {
            t.right
        } else {
            t.left
        };
        let room = contact_room(grid.spec_to_world(side.pos).x as int, pos.x as int, tw);
        assert(room >= 0);
        if dir.x > 0 {
            assert(sign(dir.x as int) == 1);
        } else {
            assert(sign(dir.x as int) == -1);
        }
        assert(abs(x2 - pos.x) <= hs);
        if t.on.behaviour != EffectiveTileType::Ladder {
            let q = WorldPos { x: x2 as i64, y: pos.y };
            lemma_cell_centre_near(grid, q);
            assert(grid.spec_cell_of(q).y == c.y);
            assert(snap_y(grid, x2, pos.y as int) == y0);
            lemma_drift_between(y0, pos.y as int, hs);
        }
    }
    assert(keeps_side(pos.y as int, r.1, above_y, th) || t.above.behaviour != EffectiveTileType::Blocker);
    assert(keeps_side(pos.y as int, r.1, below_y, th) || t.below.behaviour != EffectiveTileType::Blocker);
    assert(keeps_side(pos.x as int, r.0, left_x, tw) || t.left.behaviour != EffectiveTileType::Blocker);
    assert(keeps_side(pos.x as int, r.0, right_x, tw) || t.right.behaviour != EffectiveTileType::Blocker);
    if t.above.behaviour == EffectiveTileType::Blocker {
        lemma_clamp_keeps_side(pos.y as int, r.1, above_y, th);
    }
    if t.below.behaviour == EffectiveTileType::Blocker {
        lemma_clamp_keeps_side(pos.y as int, r.1, below_y, th);
    }
    if t.left.behaviour == EffectiveTileType::Blocker {
        lemma_clamp_keeps_side(pos.x as int, r.0, left_x, tw);
    }
    if t.right.behaviour == EffectiveTileType::Blocker {
        lemma_clamp_keeps_side(pos.x as int, r.0, right_x, tw);
    }
}

/// A falling entity meets ground here: a blocker or ladder below, the rope
/// cell its fall began on, or (guards only) a cell that holds a burnable.
pub open spec fn spec_landing(m: Movement, t: TilesAround, in_hole: bool) -> bool {
    ||| t.below.behaviour == EffectiveTileType::Blocker
    ||| t.below.behaviour == EffectiveTileType::Ladder
    ||| (t.on.behaviour == EffectiveTileType::Rope && t.on.pos == m.spec_fall_start())
    ||| in_hole
}

/// The entity has come down onto the cell below it.
pub open spec fn spec_in_contact(pos: WorldPos, grid: GridTransform, t: TilesAround) -> bool {
    spec_overlapping(grid.spec_to_world(t.below.pos).y as int, pos.y as int, TILE_SIZE_HEIGHT as int)
}

/// The fall ends this tick.
pub open spec fn spec_lands(m: Movement, pos: WorldPos, grid: GridTransform, t: TilesAround, in_hole: bool) -> bool {
    spec_landing(m, t, in_hole) && spec_in_contact(pos, grid, t)
}

/// The position after one falling tick.
pub open spec fn spec_fall_step(
    m: Movement,
    pos: WorldPos,
    grid: GridTransform,
    t: TilesAround,
    in_hole: bool,
    dt_ms: int,
) -> WorldPos {
    let fall = tick_step(FALL_SPEED as int, dt_ms);
    let below_y = grid.spec_to_world(t.below.pos).y as int;
    let dy = if spec_lands(m, pos, grid, t, in_hole) {
        0
    } else if spec_landing(m, t, in_hole) {
        min(contact_room(below_y, pos.y as int, TILE_SIZE_HEIGHT as int), fall)
    } else {
        fall
    };
    let y1 = pos.y - dy;
    let x1 = pos.x + spec_drift(snap_x(grid, pos.x as int, y1), pos.x as int, fall);
    WorldPos { x: clamp_world(x1) as i64, y: clamp_world(y1) as i64 }
}

/// What one falling tick does to an entity's movement state `m0` and
/// position `pos0`, giving `m1`, `pos1`, and whether it was stunned.
pub open spec fn falling_tick(
    m0: Movement,
    pos0: WorldPos,
    grid: GridTransform,
    tiles: TilesAround,
    in_hole: bool,
    dt_ms: int,
    m1: Movement,
    pos1: WorldPos,
    stunned: bool,
) -> bool {
    &&& pos1 == spec_fall_step(m0, pos0, grid, tiles, in_hole, dt_ms)
    &&& pos1.in_world()
    &&& m1.spec_falling() == (m0.spec_falling() && !spec_lands(m0, pos0, grid, tiles, in_hole))
    &&& stunned == (spec_lands(m0, pos0, grid, tiles, in_hole) && in_hole)
    &&& m1.spec_intent() == (Direction { x: 0, y: 0 })
    &&& m1.spec_fall_start() == m0.spec_fall_start()
    &&& m1.spec_fall_direction() == m0.spec_fall_direction()
    &&& m1.horizontal_speed == m0.horizontal_speed
    &&& m1.climb_speed == m0.climb_speed
    &&& m1.velocity == (WorldPos { x: (pos1.x - pos0.x) as i64, y: (pos1.y - pos0.y) as i64 })
}

/// One tick of a falling entity: it drops at the fall speed, no further than
/// onto the cell below when that cell can hold it, drifting toward the centre
/// of its column. The fall ends exactly when it has come down onto a cell
/// that holds it; it returns whether it ended in a hole (`in_hole`), which
/// stuns a guard.
pub fn step_falling(
    movement: &mut Movement,
    position: &mut WorldPos,
    grid: &GridTransform,
    tiles: &TilesAround,
    in_hole: bool,
    dt_ms: u64,
) -> (stunned: bool)
    requires
        grid.wf(),
        old(position).in_world(),
    ensures
        falling_tick(*old(movement), *old(position), *grid, *tiles, in_hole, dt_ms as int, *final(movement), *final(position), stunned),
{
    let start = *position;
    movement.consume();
    let fall = tick_distance(FALL_SPEED, dt_ms);
    let mut desired_movement = fall;
    let mut stunned = false;
    if tiles.below.behaviour == EffectiveTileType::Blocker || tiles.below.behaviour == EffectiveTileType::Ladder
        || (tiles.on.behaviour == EffectiveTileType::Rope && tiles.on.pos == movement.fall_start_pos())
        || in_hole {
        let blocking_tile_y = grid.to_world(tiles.below.pos).y;
        let (is_overlapping, movable_distance) = is_range_overlapping(blocking_tile_y, start.y, TILE_SIZE_HEIGHT);
        if is_overlapping {
            desired_movement = 0;
            movement.stop_falling();
            stunned = in_hole;
        } else if movable_distance < desired_movement {
            desired_movement = movable_distance;
        }
    }
    let y = start.y - desired_movement;
    let target = grid.snap(WorldPos { x: start.x, y });
    let x = start.x + drift_towards(target.x, start.x, fall);
    let new_position = WorldPos { x: clamp_to_world(x), y: clamp_to_world(y) };
    movement.velocity = WorldPos { x: new_position.x - start.x, y: new_position.y - start.y };
    *position = new_position;
    stunned
}

} // verus!
