//! The per-tick passes over all entities. A tick runs them in this order:
//! grid cells, guard AI, burns, falling, movement, overlaps. Burns write the
//! grid before the falling and movement passes, so their changes are seen in
//! the same tick. Within a pass each entity reads the grid as it stood when
//! the pass began.
use vstd::prelude::*;

use crate::ai::{ai_tick, run_ai_guard, AiController};
use crate::burn::{apply_burnable, spec_burn_tick};
use crate::gameplay::Brick;
use crate::geometry::{GridPos, GridTransform, WorldPos};
use crate::movement::{falling_tick, movement_tick, step_falling, step_movement, Movement};
use crate::navmesh::NavMesh;
use crate::resources::{EffectiveTileType, LevelResource, LevelTile};

verus! {

/// A moving character: its id, movement state, world position and grid
/// placement, whether it is a runner (else a guard), and its tags.
#[derive(Clone, Copy, Debug)]
pub struct Actor {
    pub id: u64,
    pub movement: Movement,
    pub position: WorldPos,
    pub grid: GridTransform,
    pub is_runner: bool,
    pub stunned: bool,
    pub killed: bool,
}

impl Actor {
    pub open spec fn wf(&self) -> bool {
        &&& self.movement.wf()
        &&& self.grid.wf()
        &&& self.position.in_world()
        &&& LevelResource::spec_queryable(self.grid.translation)
    }
}

pub open spec fn actors_wf(actors: Seq<Actor>) -> bool {
    forall|i: int| 0 <= i < actors.len() ==> (#[trigger] actors[i]).wf()
}

/// Brings every actor's cell up to date with its position.
pub fn update_grid_transforms(actors: &mut Vec<Actor>)
    requires
        forall|i: int| 0 <= i < old(actors)@.len() ==> (#[trigger] old(actors)@[i]).grid.wf() && old(actors)@[i].position.in_world(),
    ensures
        final(actors)@.len() == old(actors)@.len(),
        forall|i: int|
            0 <= i < old(actors)@.len() ==> #[trigger] final(actors)@[i] == (Actor {
                grid: GridTransform {
                    translation: old(actors)@[i].grid.spec_cell_of(old(actors)@[i].position),
                    ..old(actors)@[i].grid
                },
                ..old(actors)@[i]
            }),
{
    let n = actors.len();
    let mut i: usize = 0;
    while i < n
        invariant
            n == actors@.len(),
            n == old(actors)@.len(),
            i <= n,
            forall|j: int| i <= j < n ==> #[trigger] actors@[j] == old(actors)@[j],
            forall|j: int| 0 <= j < n ==> (#[trigger] old(actors)@[j]).grid.wf() && old(actors)@[j].position.in_world(),
            forall|j: int|
                0 <= j < i ==> #[trigger] actors@[j] == (Actor {
                    grid: GridTransform {
                        translation: old(actors)@[j].grid.spec_cell_of(old(actors)@[j].position),
                        ..old(actors)@[j].grid
                    },
                    ..old(actors)@[j]
                }),
        decreases n - i,
    {
        let mut a = actors[i];
        let p = a.position;
        a.grid.update(p);
        actors.set(i, a);
        i += 1;
    }
}

/// An actor the movement pass moves: not falling, stunned nor killed.
pub open spec fn moves_freely(a: Actor) -> bool {
    !a.movement.spec_falling() && !a.stunned && !a.killed
}

/// The movement pass: every actor that moves freely takes one movement tick
/// on the grid around its cell; the others are left as they are.
pub fn apply_movement(level: &LevelResource, actors: &mut Vec<Actor>, dt_ms: u64)
    requires
        level.wf(),
        actors_wf(old(actors)@),
    ensures
        final(actors)@.len() == old(actors)@.len(),
        actors_wf(final(actors)@),
        forall|i: int|
            0 <= i < old(actors)@.len() ==> {
                let a0 = old(actors)@[i];
                let a1 = #[trigger] final(actors)@[i];
                if moves_freely(a0) {
                    &&& movement_tick(
                        a0.movement,
                        a0.position,
                        a0.grid,
                        level.spec_around(a0.grid.translation),
                        dt_ms as int,
                        a1.movement,
                        a1.position,
                    )
                    &&& a1 == (Actor { movement: a1.movement, position: a1.position, ..a0 })
                } else {
                    a1 == a0
                }
            },
{
    let n = actors.len();
    let mut i: usize = 0;
    while i < n
        invariant
            level.wf(),
            n == actors@.len(),
            n == old(actors)@.len(),
            i <= n,
            actors_wf(old(actors)@),
            forall|j: int| i <= j < n ==> #[trigger] actors@[j] == old(actors)@[j],
            forall|j: int|
                0 <= j < i ==> {
                    let a0 = old(actors)@[j];
                    let a1 = #[trigger] actors@[j];
                    &&& a1.wf()
                    &&& if moves_freely(a0) {
                        &&& movement_tick(
                            a0.movement,
                            a0.position,
                            a0.grid,
                            level.spec_around(a0.grid.translation),
                            dt_ms as int,
                            a1.movement,
                            a1.position,
                        )
                        &&& a1 == (Actor { movement: a1.movement, position: a1.position, ..a0 })
                    } else {
                        a1 == a0
                    }
                },
        decreases n - i,
    {
        let mut a = actors[i];
        assert(a.wf());
        if !a.movement.is_falling() && !a.stunned && !a.killed {
            let tiles = level.around(a.grid.translation);
            let grid = a.grid;
            step_movement(&mut a.movement, &mut a.position, &grid, &tiles, dt_ms);
        }
        actors.set(i, a);
        i += 1;
    }
}

/// The falling pass of runners: every falling runner takes one falling tick.
pub fn apply_falling(level: &LevelResource, actors: &mut Vec<Actor>, dt_ms: u64)
    requires
        level.wf(),
        actors_wf(old(actors)@),
    ensures
        final(actors)@.len() == old(actors)@.len(),
        actors_wf(final(actors)@),
        forall|i: int|
            0 <= i < old(actors)@.len() ==> {
                let a0 = old(actors)@[i];
                let a1 = #[trigger] final(actors)@[i];
                if a0.movement.spec_falling() && a0.is_runner {
                    &&& falling_tick(
                        a0.movement,
                        a0.position,
                        a0.grid,
                        level.spec_around(a0.grid.translation),
                        false,
                        dt_ms as int,
                        a1.movement,
                        a1.position,
                        false,
                    )
                    &&& a1 == (Actor { movement: a1.movement, position: a1.position, ..a0 })
                } else {
                    a1 == a0
                }
            },
{
    let n = actors.len();
    let mut i: usize = 0;
    while i < n
        invariant
            level.wf(),
            n == actors@.len(),
            n == old(actors)@.len(),
            i <= n,
            actors_wf(old(actors)@),
            forall|j: int| i <= j < n ==> #[trigger] actors@[j] == old(actors)@[j],
            forall|j: int|
                0 <= j < i ==> {
                    let a0 = old(actors)@[j];
                    let a1 = #[trigger] actors@[j];
                    &&& a1.wf()
                    &&& if a0.movement.spec_falling() && a0.is_runner {
                        &&& falling_tick(
                            a0.movement,
                            a0.position,
                            a0.grid,
                            level.spec_around(a0.grid.translation),
                            false,
                            dt_ms as int,
                            a1.movement,
                            a1.position,
                            false,
                        )
                        &&& a1 == (Actor { movement: a1.movement, position: a1.position, ..a0 })
                    } else {
                        a1 == a0
                    }
                },
        decreases n - i,
    {
        let mut a = actors[i];
        assert(a.wf());
        if a.movement.is_falling() && a.is_runner {
            let tiles = level.around(a.grid.translation);
            let grid = a.grid;
            step_falling(&mut a.movement, &mut a.position, &grid, &tiles, false, dt_ms);
        }
        actors.set(i, a);
        i += 1;
    }
}

/// The cell holds a brick: its entity is one of `bricks`.
pub open spec fn holds_brick(entity: Option<u64>, bricks: Seq<u64>) -> bool {
    entity.is_some() && bricks.contains(entity.unwrap())
}

fn contains_id(v: &Vec<u64>, x: u64) -> (r: bool)
    ensures
        r == v@.contains(x),
{
    let mut i: usize = 0;
    while i < v.len()
        invariant
            i <= v@.len(),
            forall|j: int| 0 <= j < i ==> v@[j] != x,
        decreases v@.len() - i,
    {
        if v[i] == x {
            assert(v@[i as int] == x);
            return true;
        }
        i += 1;
    }
    false
}

/// The guards of `actors` that this falling pass stuns.
pub open spec fn stunned_now(a0: Actor, a1: Actor) -> bool {
    a1.stunned && !a0.stunned
}

/// The falling pass of guards: every falling guard that is not killed takes
/// one falling tick on the grid as it stood before the pass. A guard that
/// lands in a hole (a cell holding one of `bricks`) is stunned, and a
/// temporary blocker is put on its cell.
pub fn apply_falling_guard(level: &mut LevelResource, actors: &mut Vec<Actor>, bricks: &Vec<u64>, dt_ms: u64)
    requires
        old(level).wf(),
        actors_wf(old(actors)@),
    ensures
        final(actors)@.len() == old(actors)@.len(),
        actors_wf(final(actors)@),
        forall|i: int|
            0 <= i < old(actors)@.len() ==> {
                let a0 = old(actors)@[i];
                let a1 = #[trigger] final(actors)@[i];
                let tiles = old(level).spec_around(a0.grid.translation);
                if a0.movement.spec_falling() && !a0.is_runner && !a0.killed {
                    &&& falling_tick(
                        a0.movement,
                        a0.position,
                        a0.grid,
                        tiles,
                        holds_brick(tiles.on.entity, bricks@),
                        dt_ms as int,
                        a1.movement,
                        a1.position,
                        stunned_now(a0, a1) || (a0.stunned && a1.stunned && crate::movement::spec_lands(
                            a0.movement,
                            a0.position,
                            a0.grid,
                            tiles,
                            holds_brick(tiles.on.entity, bricks@),
                        ) && holds_brick(tiles.on.entity, bricks@)),
                    )
                    &&& a1 == (Actor { movement: a1.movement, position: a1.position, stunned: a1.stunned, ..a0 })
                    &&& a1.stunned == (a0.stunned || (crate::movement::spec_lands(
                        a0.movement,
                        a0.position,
                        a0.grid,
                        tiles,
                        holds_brick(tiles.on.entity, bricks@),
                    ) && holds_brick(tiles.on.entity, bricks@)))
                } else {
                    a1 == a0
                }
            },
        final(level).wf(),
        final(level).spec_width() == old(level).spec_width(),
        final(level).spec_height() == old(level).spec_height(),
        final(level).spec_treasures() == old(level).spec_treasures(),
        final(level).spec_respawns() == old(level).spec_respawns(),
        forall|q: GridPos| final(level).spec_in_bounds(q) ==> #[trigger] final(level).spec_base(q) == old(level).spec_base(q),
        forall|q: GridPos|
            #[trigger] final(level).spec_overridden(q) == (old(level).spec_overridden(q) || (old(level).spec_in_bounds(q)
                && exists|i: int|
                0 <= i < old(actors)@.len() && (#[trigger] final(actors)@[i]).stunned && !old(actors)@[i].stunned
                    && old(actors)@[i].grid.translation == q)),
{
    let ghost level0 = *level;
    let n = actors.len();
    let mut hits: Vec<GridPos> = Vec::new();
    let mut i: usize = 0;
    while i < n
        invariant
            level.wf(),
            *level == level0,
            n == actors@.len(),
            n == old(actors)@.len(),
            i <= n,
            actors_wf(old(actors)@),
            forall|j: int| i <= j < n ==> #[trigger] actors@[j] == old(actors)@[j],
            forall|q: GridPos|
                #[trigger] hits@.contains(q) <==> exists|j: int|
                    0 <= j < i && (#[trigger] actors@[j]).stunned && !old(actors)@[j].stunned && old(actors)@[j].grid.translation == q,
            forall|j: int|
                0 <= j < i ==> {
                    let a0 = old(actors)@[j];
                    let a1 = #[trigger] actors@[j];
                    let tiles = level0.spec_around(a0.grid.translation);
                    &&& a1.wf()
                    &&& if a0.movement.spec_falling() && !a0.is_runner && !a0.killed {
                        &&& falling_tick(
                            a0.movement,
                            a0.position,
                            a0.grid,
                            tiles,
                            holds_brick(tiles.on.entity, bricks@),
                            dt_ms as int,
                            a1.movement,
                            a1.position,
                            stunned_now(a0, a1) || (a0.stunned && a1.stunned && crate::movement::spec_lands(
                                a0.movement,
                                a0.position,
                                a0.grid,
                                tiles,
                                holds_brick(tiles.on.entity, bricks@),
                            ) && holds_brick(tiles.on.entity, bricks@)),
                        )
                        &&& a1 == (Actor { movement: a1.movement, position: a1.position, stunned: a1.stunned, ..a0 })
                        &&& a1.stunned == (a0.stunned || (crate::movement::spec_lands(
                            a0.movement,
                            a0.position,
                            a0.grid,
                            tiles,
                            holds_brick(tiles.on.entity, bricks@),
                        ) && holds_brick(tiles.on.entity, bricks@)))
                    } else {
                        a1 == a0
                    }
                },
        decreases n - i,
    {
        let mut a = actors[i];
        let ghost hits0 = hits@;
        let ghost actors0 = actors@;
        assert(a.wf());
        if a.movement.is_falling() && !a.is_runner && !a.killed {
            let tiles = level.around(a.grid.translation);
            let in_hole = match tiles.on.entity {
                Some(e) => contains_id(bricks, e),
                None => false,
            };
            let grid = a.grid;
            let stunned = step_falling(&mut a.movement, &mut a.position, &grid, &tiles, in_hole, dt_ms);
            if stunned {
                if !a.stunned {
                    hits.push(a.grid.translation);
                }
                a.stunned = true;
            }
        }
        actors.set(i, a);
        proof {
            assert(hits@ == hits0 || (hits@ == hits0.push(old(actors)@[i as int].grid.translation) && actors@[i as int].stunned
                && !old(actors)@[i as int].stunned));
            assert forall|q: GridPos| #[trigger] hits@.contains(q) <==> exists|j: int|
                0 <= j < i + 1 && (#[trigger] actors@[j]).stunned && !old(actors)@[j].stunned && old(actors)@[j].grid.translation == q by {
                if hits0.contains(q) {
                    let j = choose|j: int|
                        0 <= j < i && (#[trigger] actors0[j]).stunned && !old(actors)@[j].stunned && old(actors)@[j].grid.translation == q;
                    assert(actors@[j] == actors0[j]);
                }
                if hits@.contains(q) && !hits0.contains(q) {
                    let m = choose|m: int| 0 <= m < hits@.len() && hits@[m] == q;
                    if hits@ != hits0 {
                        if m < hits0.len() {
                            assert(hits0[m] == q);
                        }
                        assert(q == old(actors)@[i as int].grid.translation);
                        assert(actors@[i as int].stunned && !old(actors)@[i as int].stunned);
                    }
                }
                if exists|j: int|
                    0 <= j < i + 1 && (#[trigger] actors@[j]).stunned && !old(actors)@[j].stunned && old(actors)@[j].grid.translation == q {
                    let j = choose|j: int|
                        0 <= j < i + 1 && (#[trigger] actors@[j]).stunned && !old(actors)@[j].stunned && old(actors)@[j].grid.translation == q;
                    if j == i {
                        if hits@ == hits0 {
                            assert(actors0[i as int] == old(actors)@[i as int]);
                            assert(false);
                        }
                        assert(hits@[hits0.len() as int] == q);
                    } else {
                        assert(actors@[j] == actors0[j]);
                        assert(hits0.contains(q));
                        let m = choose|m: int| 0 <= m < hits0.len() && hits0[m] == q;
                        assert(hits@[m] == q);
                    }
                }
            }
        }
        i += 1;
    }
    let mut k: usize = 0;
    while k < hits.len()
        invariant
            k <= hits@.len(),
            level.wf(),
            level.spec_width() == level0.spec_width(),
            level.spec_height() == level0.spec_height(),
            level.spec_treasures() == level0.spec_treasures(),
            level.spec_respawns() == level0.spec_respawns(),
            forall|q: GridPos| level.spec_in_bounds(q) ==> #[trigger] level.spec_base(q) == level0.spec_base(q),
            forall|q: GridPos|
                #[trigger] level.spec_overridden(q) == (level0.spec_overridden(q) || (level0.spec_in_bounds(q)
                    && hits@.subrange(0, k as int).contains(q))),
        decreases hits@.len() - k,
    {
        let ghost before = hits@.subrange(0, k as int);
        level.set_override(hits[k], EffectiveTileType::Blocker);
        proof {
            let after = hits@.subrange(0, k as int + 1);
            assert(after =~= before.push(hits@[k as int]));
            assert forall|q: GridPos| #[trigger] level.spec_overridden(q) == (level0.spec_overridden(q) || (level0.spec_in_bounds(q)
                && after.contains(q))) by {
                if after.contains(q) && !before.contains(q) {
                    let m = choose|m: int| 0 <= m < after.len() && after[m] == q;
                    if m < before.len() {
                        assert(before[m] == q);
                    }
                }
                if before.contains(q) {
                    let m = choose|m: int| 0 <= m < before.len() && before[m] == q;
                    assert(after[m] == q);
                }
                if q == hits@[k as int] {
                    assert(after[k as int] == q);
                }
            }
        }
        k += 1;
    }
    assert(hits@.subrange(0, hits@.len() as int) =~= hits@);
}

/// The cells of the runners among the first `k` actors, in order.
pub open spec fn runner_cells(actors: Seq<Actor>, k: int) -> Seq<GridPos>
    decreases k,
{
    if k <= 0 {
        seq![]
    } else if actors[k - 1].is_runner {
        runner_cells(actors, k - 1).push(actors[k - 1].grid.translation)
    } else {
        runner_cells(actors, k - 1)
    }
}

/// The AI pass: every guard (every actor that is not a runner) takes one AI
/// tick with its plan `ais[i]`, chasing the runners' cells.
pub fn run_ai_guards(navmesh: &NavMesh, actors: &mut Vec<Actor>, ais: &mut Vec<AiController>, dt_ms: u64)
    requires
        navmesh.wf(),
        navmesh.tiles@.len() < usize::MAX,
        actors_wf(old(actors)@),
        old(ais)@.len() == old(actors)@.len(),
    ensures
        final(actors)@.len() == old(actors)@.len(),
        final(ais)@.len() == old(ais)@.len(),
        actors_wf(final(actors)@),
        forall|i: int|
            0 <= i < old(actors)@.len() ==> {
                let a0 = old(actors)@[i];
                let a1 = #[trigger] final(actors)@[i];
                if !a0.is_runner {
                    &&& ai_tick(
                        old(ais)@[i],
                        a0.movement,
                        a0.position,
                        a0.grid,
                        navmesh,
                        runner_cells(old(actors)@, old(actors)@.len() as int),
                        dt_ms as int,
                        final(ais)@[i],
                        a1.movement,
                    )
                    &&& a1 == (Actor { movement: a1.movement, ..a0 })
                } else {
                    &&& a1 == a0
                    &&& final(ais)@[i] == old(ais)@[i]
                }
            },
{
    let n = actors.len();
    let mut runners: Vec<GridPos> = Vec::new();
    let mut k: usize = 0;
    while k < n
        invariant
            n == actors@.len(),
            k <= n,
            runners@ == runner_cells(actors@, k as int),
        decreases n - k,
    {
        if actors[k].is_runner {
            runners.push(actors[k].grid.translation);
        }
        k += 1;
    }
    let ghost all = runner_cells(actors@, n as int);
    let mut done: Vec<AiController> = Vec::new();
    let mut i: usize = 0;
    while i < n
        invariant
            navmesh.wf(),
            navmesh.tiles@.len() < usize::MAX,
            n == actors@.len(),
            n == old(actors)@.len(),
            n == old(ais)@.len(),
            i <= n,
            runners@ == runner_cells(old(actors)@, n as int),
            actors_wf(old(actors)@),
            done@.len() == i,
            ais@ == old(ais)@.subrange(i as int, n as int),
            forall|j: int| i <= j < n ==> #[trigger] actors@[j] == old(actors)@[j],
            forall|j: int|
                0 <= j < i ==> {
                    let a0 = old(actors)@[j];
                    let a1 = #[trigger] actors@[j];
                    &&& a1.wf()
                    &&& if !a0.is_runner {
                        &&& ai_tick(
                            old(ais)@[j],
                            a0.movement,
                            a0.position,
                            a0.grid,
                            navmesh,
                            runner_cells(old(actors)@, n as int),
                            dt_ms as int,
                            done@[j],
                            a1.movement,
                        )
                        &&& a1 == (Actor { movement: a1.movement, ..a0 })
                    } else {
                        &&& a1 == a0
                        &&& done@[j] == old(ais)@[j]
                    }
                },
        decreases n - i,
    {
        let mut ai = ais.remove(0);
        assert(ai == old(ais)@[i as int]);
        let mut a = actors[i];
        assert(a.wf());
        if !a.is_runner {
            let grid = a.grid;
            let position = a.position;
            run_ai_guard(&mut ai, &mut a.movement, position, &grid, navmesh, &runners, dt_ms);
        }
        actors.set(i, a);
        done.push(ai);
        proof {
            assert(ais@ =~= old(ais)@.subrange(i as int + 1, n as int));
        }
        i += 1;
    }
    *ais = done;
}

/// What the first `k` bricks' ticks leave in the cell `q` of `level`.
pub open spec fn burn_base(level: LevelResource, bricks: Seq<Brick>, dt_ms: u64, k: int, q: GridPos) -> LevelTile
    decreases k,
{
    if k <= 0 {
        level.spec_base(q)
    } else {
        let prev = burn_base(level, bricks, dt_ms, k - 1, q);
        let b = bricks[k - 1];
        match spec_burn_tick(b.burnable.burn_state, b.burnable.burn_time, dt_ms).cell {
            Some(kind) => if b.cell == q && level.spec_in_bounds(q) {
                LevelTile { entity: prev.entity, behaviour: kind }
            } else {
                prev
            },
            None => prev,
        }
    }
}

/// The entries of `s` that `killable` holds, in order.
pub open spec fn killable_of(s: Seq<u64>, killable: Seq<u64>) -> Seq<u64>
    decreases s.len(),
{
    if s.len() == 0 {
        seq![]
    } else if killable.contains(s.last()) {
        killable_of(s.drop_last(), killable).push(s.last())
    } else {
        killable_of(s.drop_last(), killable)
    }
}

/// The killable entities that the first `k` bricks' ticks kill, brick by brick.
pub open spec fn burn_kills(bricks: Seq<Brick>, killable: Seq<u64>, dt_ms: u64, k: int) -> Seq<u64>
    decreases k,
{
    if k <= 0 {
        seq![]
    } else {
        let b = bricks[k - 1];
        let prev = burn_kills(bricks, killable, dt_ms, k - 1);
        if spec_burn_tick(b.burnable.burn_state, b.burnable.burn_time, dt_ms).kills {
            prev + killable_of(b.overlapping@, killable)
        } else {
            prev
        }
    }
}

fn collect_killable(s: &Vec<u64>, killable: &Vec<u64>, out: &mut Vec<u64>)
    ensures
        final(out)@ == old(out)@ + killable_of(s@, killable@),
{
    let mut i: usize = 0;
    let ghost out0 = out@;
    while i < s.len()
        invariant
            i <= s@.len(),
            out@ == out0 + killable_of(s@.subrange(0, i as int), killable@),
        decreases s@.len() - i,
    {
        let e = s[i];
        let ghost sub = s@.subrange(0, i as int + 1);
        assert(sub.drop_last() =~= s@.subrange(0, i as int));
        if contains_id(killable, e) {
            out.push(e);
        }
        assert(out@ =~= out0 + killable_of(sub, killable@));
        i += 1;
    }
    assert(s@.subrange(0, s@.len() as int) =~= s@);
}

/// The burn pass: every brick takes one tick of its cycle and writes its
/// cell's new behaviour into the grid; the killable entities overlapping a
/// brick that closes this tick are returned, to be marked killed.
pub fn apply_burnables(level: &mut LevelResource, bricks: &mut Vec<Brick>, killable: &Vec<u64>, dt_ms: u64) -> (killed: Vec<u64>)
    requires
        old(level).wf(),
    ensures
        killed@ == burn_kills(old(bricks)@, killable@, dt_ms, old(bricks)@.len() as int),
        final(bricks)@.len() == old(bricks)@.len(),
        forall|i: int|
            0 <= i < old(bricks)@.len() ==> {
                let b0 = old(bricks)@[i];
                let b1 = #[trigger] final(bricks)@[i];
                let r = spec_burn_tick(b0.burnable.burn_state, b0.burnable.burn_time, dt_ms);
                &&& b1.id == b0.id
                &&& b1.cell == b0.cell
                &&& b1.overlapping@ == b0.overlapping@
                &&& b1.burnable.burn_state == r.state
                &&& b1.burnable.burn_time == r.time
            },
        final(level).wf(),
        final(level).spec_width() == old(level).spec_width(),
        final(level).spec_height() == old(level).spec_height(),
        final(level).spec_treasures() == old(level).spec_treasures(),
        final(level).spec_respawns() == old(level).spec_respawns(),
        forall|q: GridPos| #[trigger] final(level).spec_overridden(q) == old(level).spec_overridden(q),
        forall|q: GridPos|
            final(level).spec_in_bounds(q) ==> #[trigger] final(level).spec_base(q) == burn_base(
                *old(level),
                old(bricks)@,
                dt_ms,
                old(bricks)@.len() as int,
                q,
            ),
{
    let ghost level0 = *level;
    let ghost bricks0 = bricks@;
    let n = bricks.len();
    let mut killed: Vec<u64> = Vec::new();
    let mut i: usize = 0;
    while i < n
        invariant
            n == bricks@.len(),
            n == bricks0.len(),
            i <= n,
            level.wf(),
            level.spec_width() == level0.spec_width(),
            level.spec_height() == level0.spec_height(),
            level.spec_treasures() == level0.spec_treasures(),
            level.spec_respawns() == level0.spec_respawns(),
            forall|q: GridPos| #[trigger] level.spec_overridden(q) == level0.spec_overridden(q),
            forall|q: GridPos| level.spec_in_bounds(q) ==> #[trigger] level.spec_base(q) == burn_base(level0, bricks0, dt_ms, i as int, q),
            killed@ == burn_kills(bricks0, killable@, dt_ms, i as int),
            forall|j: int| i <= j < n ==> #[trigger] bricks@[j] == bricks0[j],
            forall|j: int|
                0 <= j < i ==> {
                    let b0 = bricks0[j];
                    let b1 = #[trigger] bricks@[j];
                    let r = spec_burn_tick(b0.burnable.burn_state, b0.burnable.burn_time, dt_ms);
                    &&& b1.id == b0.id
                    &&& b1.cell == b0.cell
                    &&& b1.overlapping@ == b0.overlapping@
                    &&& b1.burnable.burn_state == r.state
                    &&& b1.burnable.burn_time == r.time
                },
        decreases n - i,
    {
        let id = bricks[i].id;
        let cell = bricks[i].cell;
        let mut burnable = bricks[i].burnable;
        let ghost lv = *level;
        let kills = apply_burnable(&mut burnable, level, cell, dt_ms);
        if kills {
            collect_killable(&bricks[i].overlapping, killable, &mut killed);
        }
        let overlapping = bricks[i].overlapping.clone();
        bricks.set(i, Brick { id, cell, burnable, overlapping });
        proof {
            assert forall|q: GridPos| level.spec_in_bounds(q) implies #[trigger] level.spec_base(q) == burn_base(
                level0,
                bricks0,
                dt_ms,
                i as int + 1,
                q,
            ) by {
                assert(lv.spec_in_bounds(q));
            }
        }
        i += 1;
    }
    killed
}

} // verus!
