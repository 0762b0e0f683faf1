use vstd::prelude::*;

use crate::geometry::GridPos;
use crate::resources::{EffectiveTileType, LevelResource};

verus! {

/// A brick's burn burns this long, in milliseconds, before the hole opens.
pub const BURNING_MS: u64 = 500;

/// The hole stays open until this long after the burn started.
pub const BURNT_MS: u64 = 4500;

/// The brick is whole again this long after the burn started.
pub const REBUILT_MS: u64 = 5000;

/// The life of a destructible brick.
#[derive(Clone, Copy, Debug, PartialEq, Eq, Structural)]
pub enum BurnState {
    NotBurning,
    StartingBurn,
    Burning,
    Burnt,
    Rebuilding,
}

/// A destructible brick: its state and the time spent since its burn began,
/// in milliseconds.
#[derive(Clone, Copy, Debug)]
pub struct Burnable {
    pub burn_state: BurnState,
    pub burn_time: u64,
}

impl Default for Burnable {
    fn default() -> (r: Burnable)
        ensures
            r.burn_state == BurnState::NotBurning,
            r.burn_time == 0,
    {
        Burnable::new()
    }
}

/// What one tick does to a brick: its next state and clock, what its cell
/// becomes (if it changes) and whether whatever stands in it is killed.
pub struct BurnTick {
    pub state: BurnState,
    pub time: u64,
    pub cell: Option<EffectiveTileType>,
    pub kills: bool,
}

pub open spec fn saturating_add(a: int, b: int) -> int {
    if a + b > u64::MAX {
        u64::MAX as int
    } else {
        a + b
    }
}

/// The transition table of a brick for one tick of `dt_ms` milliseconds.
pub open spec fn spec_burn_tick(state: BurnState, time: u64, dt_ms: u64) -> BurnTick {
    let t = saturating_add(time as int, dt_ms as int) as u64;
    match state {
        BurnState::StartingBurn => BurnTick { state: BurnState::Burning, time: t, cell: None, kills: false },
        BurnState::Burning => if t > BURNING_MS {
            BurnTick { state: BurnState::Burnt, time: t, cell: Some(EffectiveTileType::Empty), kills: false }
        } else {
            BurnTick { state: BurnState::Burning, time: t, cell: None, kills: false }
        },
        BurnState::Burnt => if t > BURNT_MS {
            BurnTick { state: BurnState::Rebuilding, time: t, cell: Some(EffectiveTileType::Empty), kills: false }
        } else {
            BurnTick { state: BurnState::Burnt, time: t, cell: Some(EffectiveTileType::Empty), kills: false }
        },
        BurnState::Rebuilding => if t > REBUILT_MS {
            BurnTick { state: BurnState::NotBurning, time: t, cell: Some(EffectiveTileType::Blocker), kills: true }
        } else {
            BurnTick { state: BurnState::Rebuilding, time: t, cell: None, kills: false }
        },
        BurnState::NotBurning => BurnTick { state: BurnState::NotBurning, time: 0, cell: None, kills: false },
    }
}

impl Burnable {
    pub fn new() -> (r: Burnable)
        ensures
            r.burn_state == BurnState::NotBurning,
            r.burn_time == 0,
    {
        Burnable { burn_state: BurnState::NotBurning, burn_time: 0 }
    }

    /// Starts a burn of an idle brick; a brick already in its cycle is left alone.
    pub fn start_burn(&mut self)
        ensures
            old(self).burn_state == BurnState::NotBurning ==> final(self).burn_state == BurnState::StartingBurn
                && final(self).burn_time == 0,
            old(self).burn_state != BurnState::NotBurning ==> *final(self) == *old(self),
    {
        if self.burn_state == BurnState::NotBurning {
            self.burn_state = BurnState::StartingBurn;
            self.burn_time = 0;
        }
    }

    pub fn get_state(&self) -> (r: BurnState)
        ensures
            r == self.burn_state,
    {
        self.burn_state
    }

    pub fn set_state(&mut self, new_state: BurnState)
        ensures
            final(self).burn_state == new_state,
            final(self).burn_time == old(self).burn_time,
    {
        self.burn_state = new_state;
    }

    pub fn is_burning(&self) -> (r: bool)
        ensures
            r == (self.burn_state != BurnState::NotBurning),
    {
        self.burn_state != BurnState::NotBurning
    }

    /// Advances the brick by one tick and returns what the tick does.
    pub fn tick(&mut self, dt_ms: u64) -> (r: BurnTick)
        ensures
            r == spec_burn_tick(old(self).burn_state, old(self).burn_time, dt_ms),
            final(self).burn_state == r.state,
            final(self).burn_time == r.time,
    {
        let t = self.burn_time.saturating_add(dt_ms);
        let r = match self.burn_state {
            BurnState::StartingBurn => BurnTick { state: BurnState::Burning, time: t, cell: None, kills: false },
            BurnState::Burning => if t > BURNING_MS {
                BurnTick { state: BurnState::Burnt, time: t, cell: Some(EffectiveTileType::Empty), kills: false }
            } else {
                BurnTick { state: BurnState::Burning, time: t, cell: None, kills: false }
            },
            BurnState::Burnt => if t > BURNT_MS {
                BurnTick { state: BurnState::Rebuilding, time: t, cell: Some(EffectiveTileType::Empty), kills: false }
            } else {
                BurnTick { state: BurnState::Burnt, time: t, cell: Some(EffectiveTileType::Empty), kills: false }
            },
            BurnState::Rebuilding => if t > REBUILT_MS {
                BurnTick { state: BurnState::NotBurning, time: t, cell: Some(EffectiveTileType::Blocker), kills: true }
            } else {
                BurnTick { state: BurnState::Rebuilding, time: t, cell: None, kills: false }
            },
            BurnState::NotBurning => BurnTick { state: BurnState::NotBurning, time: 0, cell: None, kills: false },
        };
        self.burn_state = r.state;
        self.burn_time = r.time;
        r
    }
}

/// The order a brick's states come in.
pub open spec fn stage(s: BurnState) -> int {
    match s {
        BurnState::NotBurning => 0,
        BurnState::StartingBurn => 1,
        BurnState::Burning => 2,
        BurnState::Burnt => 3,
        BurnState::Rebuilding => 4,
    }
}

/// A tick moves a brick at most one state forward through its cycle, and
/// from the last state back to idle; it never goes back within the cycle.
pub proof fn lemma_burn_moves_forward(state: BurnState, time: u64, dt_ms: u64)
    ensures
        ({
            let next = spec_burn_tick(state, time, dt_ms).state;
            next == state || stage(next) == stage(state) + 1 || (state == BurnState::Rebuilding && next
                == BurnState::NotBurning)
        }),
{
}

/// A brick `k` ticks of `dt_ms` after its burn was started: its state, its
/// clock, the last behaviour written to its cell (if any), and whether the
/// last tick killed what stood in it.
pub open spec fn burn_run(dt_ms: u64, k: nat) -> (BurnState, u64, Option<EffectiveTileType>, bool)
    decreases k,
{
    if k == 0 {
        (BurnState::StartingBurn, 0, None, false)
    } else {
        let prev = burn_run(dt_ms, (k - 1) as nat);
        let r = spec_burn_tick(prev.0, prev.1, dt_ms);
        (r.state, r.time, if r.cell.is_some() {
            r.cell
        } else {
            prev.2
        }, r.kills)
    }
}

/// The life of a burn, ticked at a steady `dt_ms` of at most half a second:
/// after `k` ticks, at `t = k * dt_ms` milliseconds, the brick is burning up
/// to half a second with its cell untouched; then burnt, with its cell open,
/// up to four and a half seconds; then rebuilding, still open, up to five
/// seconds; on the first tick past five seconds it is idle again, its cell is
/// a blocker once more, and what stands in the cell is killed.
pub proof fn lemma_burn_lifecycle(dt_ms: u64, k: nat)
    requires
        0 < dt_ms <= BURNING_MS,
        k >= 1,
        (k - 1) * dt_ms <= REBUILT_MS,
    ensures
        ({
            let t = k * dt_ms;
            let r = burn_run(dt_ms, k);
            &&& t <= REBUILT_MS ==> r.1 == t && !r.3
            &&& t <= BURNING_MS ==> r.0 == BurnState::Burning && r.2.is_none()
            &&& BURNING_MS < t <= BURNT_MS ==> r.0 == BurnState::Burnt && r.2 == Some(EffectiveTileType::Empty)
            &&& BURNT_MS < t <= REBUILT_MS ==> r.0 == BurnState::Rebuilding && r.2 == Some(EffectiveTileType::Empty)
            &&& REBUILT_MS < t ==> r.0 == BurnState::NotBurning && r.2 == Some(EffectiveTileType::Blocker) && r.3
        }),
    decreases k,
{
    let d = dt_ms as int;
    if k == 1 {
        assert(k * dt_ms == d) by (nonlinear_arith)
            requires
                k == 1,
                d == dt_ms,
        ;
        assert(burn_run(dt_ms, 0) == (BurnState::StartingBurn, 0u64, None::<EffectiveTileType>, false));
    } else {
        let k1 = (k - 1) as nat;
        assert(k * dt_ms == k1 * dt_ms + d) by (nonlinear_arith)
            requires
                k == k1 + 1,
                d == dt_ms,
        ;
        assert((k1 - 1) * dt_ms <= k1 * dt_ms) by (nonlinear_arith)
            requires
                k1 >= 1,
                dt_ms > 0,
        ;
        lemma_burn_lifecycle(dt_ms, k1);
    }
}

/// One tick of a brick standing for the cell `cell`: advances its clock and
/// state, writes the cell's new behaviour into the grid, and returns whether
/// the entities overlapping the brick are killed (it has just closed).
pub fn apply_burnable(burnable: &mut Burnable, level: &mut LevelResource, cell: GridPos, dt_ms: u64) -> (kills: bool)
    requires
        old(level).wf(),
    ensures
        ({
            let r = spec_burn_tick(old(burnable).burn_state, old(burnable).burn_time, dt_ms);
            &&& final(burnable).burn_state == r.state
            &&& final(burnable).burn_time == r.time
            &&& kills == r.kills
            &&& final(level).same_except_base(old(level), cell)
            &&& match r.cell {
                Some(kind) => old(level).spec_in_bounds(cell) ==> final(level).spec_base(cell) == (
                crate::resources::LevelTile { entity: old(level).spec_base(cell).entity, behaviour: kind }),
                None => final(level).spec_base(cell) == old(level).spec_base(cell),
            }
            &&& !old(level).spec_in_bounds(cell) ==> final(level).spec_base(cell) == old(level).spec_base(cell)
        }),
{
    let r = burnable.tick(dt_ms);
    match r.cell {
        Some(kind) => level.set(cell, kind),
        None => {
            proof {
                assert(level.same_except_base(level, cell));
            }
        },
    }
    r.kills
}

} // verus!
