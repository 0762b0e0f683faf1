use vstd::prelude::*;

use crate::burn::{BurnState, Burnable};
use crate::geometry::{GridPos, GridTransform, WorldPos};
use crate::movement::Movement;
use crate::overlaps::Overlaps;
use crate::resources::{LevelResource, Tile};
use crate::world::Actor;

verus! {

/// A runner's burn lasts this long, in milliseconds (ten frames at 22 per second).
pub const RUNNER_BURN_NUMERATOR: u64 = 10_000;

pub const RUNNER_BURN_DENOMINATOR: u64 = 22;

/// The player character's burn intents and the burn in progress.
#[derive(Clone, Copy, Debug)]
pub struct Runner {
    pub wants_to_burn_left: bool,
    pub wants_to_burn_right: bool,
    pub burning_left: bool,
    pub burning_right: bool,
    pub burn_time: u64,
}

impl Runner {
    pub fn is_burning(&self) -> (r: bool)
        ensures
            r == (self.burning_left || self.burning_right),
    {
        self.burning_left || self.burning_right
    }
}

/// A destructible brick: its entity id, its cell, its burn state, and the
/// ids of the entities overlapping it.
#[derive(Clone, Debug)]
pub struct Brick {
    pub id: u64,
    pub cell: GridPos,
    pub burnable: Burnable,
    pub overlapping: Vec<u64>,
}

/// The index of the first brick with entity id `id`.
pub open spec fn is_first_brick(bricks: Seq<Brick>, id: u64, i: int) -> bool {
    &&& 0 <= i < bricks.len()
    &&& bricks[i].id == id
    &&& forall|j: int| 0 <= j < i ==> (#[trigger] bricks[j]).id != id
}

/// A burn can start on `tile`: it holds a brick that is not burning.
pub open spec fn can_burn(bricks: Seq<Brick>, tile: Tile) -> bool {
    tile.entity.is_some() && exists|i: int|
        is_first_brick(bricks, tile.entity.unwrap(), i) && bricks[i].burnable.burn_state == BurnState::NotBurning
}

/// `b1` is `b0` with a burn started on the first brick with id `id`.
pub open spec fn burn_started(b0: Seq<Brick>, b1: Seq<Brick>, id: u64) -> bool {
    &&& b1.len() == b0.len()
    &&& forall|j: int|
        0 <= j < b0.len() ==> {
            &&& (#[trigger] b1[j]).id == b0[j].id
            &&& b1[j].cell == b0[j].cell
            &&& b1[j].overlapping@ == b0[j].overlapping@
            &&& b1[j].burnable == if is_first_brick(b0, id, j) {
                Burnable { burn_state: BurnState::StartingBurn, burn_time: 0 }
            } else {
                b0[j].burnable
            }
        }
}

fn find_brick(bricks: &Vec<Brick>, id: u64) -> (r: Option<usize>)
    ensures
        r.is_some() ==> is_first_brick(bricks@, id, r.unwrap() as int),
        r.is_none() ==> forall|j: int| 0 <= j < bricks@.len() ==> (#[trigger] bricks@[j]).id != id,
{
    let mut i: usize = 0;
    while i < bricks.len()
        invariant
            i <= bricks@.len(),
            forall|j: int| 0 <= j < i ==> (#[trigger] bricks@[j]).id != id,
        decreases bricks@.len() - i,
    {
        if bricks[i].id == id {
            return Some(i);
        }
        i += 1;
    }
    None
}

/// Starts a burn of the brick that `tile` holds, if it holds one that is not
/// burning; returns whether it did.
pub fn start_burn(tile: &Tile, bricks: &mut Vec<Brick>) -> (r: bool)
    ensures
        r == can_burn(old(bricks)@, *tile),
        !r ==> *final(bricks) == *old(bricks),
        r ==> burn_started(old(bricks)@, final(bricks)@, tile.entity.unwrap()),
        final(bricks)@.len() == old(bricks)@.len(),
        forall|j: int|
            0 <= j < old(bricks)@.len() ==> {
                &&& (#[trigger] final(bricks)@[j]).id == old(bricks)@[j].id
                &&& final(bricks)@[j].cell == old(bricks)@[j].cell
                &&& final(bricks)@[j].overlapping@ == old(bricks)@[j].overlapping@
                &&& if r && is_first_brick(old(bricks)@, tile.entity.unwrap(), j) {
                    final(bricks)@[j].burnable == (Burnable { burn_state: BurnState::StartingBurn, burn_time: 0 })
                } else {
                    final(bricks)@[j].burnable == old(bricks)@[j].burnable
                }
            },
{
    match tile.entity {
        Some(ent) => {
            match find_brick(bricks, ent) {
                Some(i) => {
                    if !bricks[i].burnable.is_burning() {
                        let mut b = bricks[i].clone();
                        b.id = bricks[i].id;
                        b.cell = bricks[i].cell;
                        b.overlapping = bricks[i].overlapping.clone();
                        b.burnable = bricks[i].burnable;
                        b.burnable.start_burn();
                        bricks.set(i, b);
                        proof {
                            assert forall|j: int| is_first_brick(old(bricks)@, ent, j) implies j == i as int by {
                                if j < i {
                                    assert(old(bricks)@[j].id != ent);
                                }
                                if i < j {
                                    assert(old(bricks)@[i as int].id != ent);
                                }
                            }
                        }
                        return true;
                    }
                    proof {
                        assert forall|j: int| is_first_brick(old(bricks)@, ent, j) implies j == i as int by {
                            if j < i {
                                assert(old(bricks)@[j].id != ent);
                            }
                            if i < j {
                                assert(old(bricks)@[i as int].id != ent);
                            }
                        }
                    }
                    false
                },
                None => false,
            }
        },
        None => false,
    }
}

/// The burn decision of one runner that is not falling, standing in the cell
/// `grid.translation`. An idle runner that wants to burn left (else right)
/// starts a burn of the brick below on that side, if it can, lines up with
/// its column and returns the cell the fire shows in. A burning runner loses
/// its intents and its burn runs out after ten twenty-seconds of a second.
pub fn start_burns(
    runner: &mut Runner,
    movement: &mut Movement,
    position: &mut WorldPos,
    grid: &GridTransform,
    level: &LevelResource,
    bricks: &mut Vec<Brick>,
    dt_ms: u64,
) -> (fire: Option<GridPos>)
    requires
        level.wf(),
        grid.wf(),
        old(position).in_world(),
        LevelResource::spec_queryable(grid.translation),
    ensures
        final(bricks)@.len() == old(bricks)@.len(),
        ({
            let tiles = level.spec_around(grid.translation);
            let snapped = WorldPos { x: grid.spec_to_world(grid.spec_cell_of(*old(position))).x, y: old(position).y };
            if !old(runner).burning_left && !old(runner).burning_right {
                &&& *final(movement) == *old(movement)
                &&& if old(runner).wants_to_burn_left && can_burn(old(bricks)@, tiles.below_left) {
                    &&& fire == Some(tiles.left.pos)
                    &&& burn_started(old(bricks)@, final(bricks)@, tiles.below_left.entity.unwrap())
                    &&& *final(runner) == (Runner { burning_left: true, burn_time: 0, ..*old(runner) })
                    &&& *final(position) == snapped
                } else if old(runner).wants_to_burn_right && can_burn(old(bricks)@, tiles.below_right) {
                    &&& fire == Some(tiles.right.pos)
                    &&& burn_started(old(bricks)@, final(bricks)@, tiles.below_right.entity.unwrap())
                    &&& *final(runner) == (Runner { burning_right: true, burn_time: 0, ..*old(runner) })
                    &&& *final(position) == snapped
                } else {
                    &&& fire.is_none()
                    &&& *final(runner) == *old(runner)
                    &&& *final(position) == *old(position)
                    &&& final(bricks)@ == old(bricks)@
                }
            } else {
                let t = crate::burn::saturating_add(old(runner).burn_time as int, dt_ms as int);
                &&& fire.is_none()
                &&& *final(position) == *old(position)
                &&& final(bricks)@ == old(bricks)@
                &&& final(movement).consumed_from(old(movement))
                &&& *final(runner) == if t * RUNNER_BURN_DENOMINATOR >= RUNNER_BURN_NUMERATOR {
                    Runner { burning_left: false, burning_right: false, burn_time: 0, ..*old(runner) }
                } else {
                    Runner { burn_time: t as u64, ..*old(runner) }
                }
            }
        }),
{
    if !runner.is_burning() {
        let tiles = level.around(grid.translation);
        if runner.wants_to_burn_left && start_burn(&tiles.below_left, bricks) {
            runner.burning_left = true;
            runner.burn_time = 0;
            let snapped = grid.snap(*position);
            position.x = snapped.x;
            return Some(tiles.left.pos);
        } else if runner.wants_to_burn_right && start_burn(&tiles.below_right, bricks) {
            runner.burning_right = true;
            runner.burn_time = 0;
            let snapped = grid.snap(*position);
            position.x = snapped.x;
            return Some(tiles.right.pos);
        }
        None
    } else {
        movement.consume();
        runner.burn_time = runner.burn_time.saturating_add(dt_ms);
        if (runner.burn_time as u128) * (RUNNER_BURN_DENOMINATOR as u128) >= RUNNER_BURN_NUMERATOR as u128 {
            runner.burning_left = false;
            runner.burning_right = false;
            runner.burn_time = 0;
        }
        None
    }
}

/// A killed guard waits this long, in milliseconds, before it shows again
/// at its respawn cell.
pub const RESPAWN_SHOW_MS: u64 = 2000;

/// A killed guard takes part again this long after it was killed.
pub const RESPAWN_ACTIVE_MS: u64 = 2500;

/// Where a killed guard waits while it is away, in world units on each axis.
pub const PARKED_AT: i64 = -100_000;

/// A guard's way back after it was killed: the time since, and where it reappears.
#[derive(Clone, Copy, Debug)]
pub struct Respawnable {
    pub timer: u64,
    pub position: GridPos,
}

/// Takes a guard that has just been killed off the board: it picks a respawn
/// cell at random, leaves the overlap pass, is parked out of the way, is no
/// longer stunned, and the blocker it held in its hole is lifted.
pub fn start_guard_respawn(
    level: &mut LevelResource,
    guard: &mut Actor,
    respawn: &mut Respawnable,
    overlaps: &mut Overlaps,
)
    requires
        old(level).wf(),
        old(level).spec_respawns().len() > 0,
    ensures
        final(respawn).timer == 0,
        old(level).spec_respawns().contains(final(respawn).position),
        final(overlaps).is_active == false,
        final(overlaps).entities@ == old(overlaps).entities@,
        final(overlaps).width == old(overlaps).width,
        final(overlaps).height == old(overlaps).height,
        *final(guard) == (Actor { position: WorldPos { x: PARKED_AT, y: PARKED_AT }, stunned: false, ..*old(guard) }),
        final(level).wf(),
        final(level).spec_respawns() == old(level).spec_respawns(),
        forall|q: GridPos| final(level).spec_in_bounds(q) ==> #[trigger] final(level).spec_base(q) == old(level).spec_base(q),
        forall|q: GridPos| #[trigger] final(level).spec_overridden(q) == (old(level).spec_overridden(q) && q != old(guard).grid.translation),
{
    respawn.timer = 0;
    respawn.position = level.get_random_respawn();
    overlaps.is_active = false;
    guard.position = WorldPos { x: PARKED_AT, y: PARKED_AT };
    guard.stunned = false;
    level.reset_override(guard.grid.translation);
}

/// One tick of a killed guard's way back: after two seconds it shows at its
/// respawn cell, after two and a half it takes part again and is no longer killed.
pub fn respawn_guard(guard: &mut Actor, respawn: &mut Respawnable, overlaps: &mut Overlaps, dt_ms: u64)
    requires
        old(guard).grid.wf(),
    ensures
        ({
            let t = crate::burn::saturating_add(old(respawn).timer as int, dt_ms as int);
            if t > RESPAWN_ACTIVE_MS {
                &&& final(respawn).timer == 0
                &&& final(overlaps).is_active
                &&& *final(guard) == (Actor { killed: false, ..*old(guard) })
            } else if t > RESPAWN_SHOW_MS {
                &&& final(respawn).timer == t
                &&& final(overlaps).is_active == old(overlaps).is_active
                &&& *final(guard) == (Actor { position: old(guard).grid.spec_to_world(old(respawn).position), ..*old(guard) })
            } else {
                &&& final(respawn).timer == t
                &&& final(overlaps).is_active == old(overlaps).is_active
                &&& *final(guard) == *old(guard)
            }
        }),
        final(respawn).position == old(respawn).position,
        final(overlaps).entities@ == old(overlaps).entities@,
        final(overlaps).width == old(overlaps).width,
        final(overlaps).height == old(overlaps).height,
{
    respawn.timer = respawn.timer.saturating_add(dt_ms);
    if respawn.timer > RESPAWN_ACTIVE_MS {
        overlaps.is_active = true;
        respawn.timer = 0;
        guard.killed = false;
    } else if respawn.timer > RESPAWN_SHOW_MS {
        guard.position = guard.grid.to_world(respawn.position);
    }
}

} // verus!
