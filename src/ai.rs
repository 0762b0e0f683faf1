use vstd::prelude::*;

use crate::geometry::{GridPos, GridTransform, WorldPos};
use crate::movement::Movement;
use crate::navmesh::NavMesh;
use crate::pathfinding::{astar_pathfind, dist_sq, is_route, routable, shortest, unit_links};

verus! {

/// A guard asks for a new route this often, in milliseconds.
pub const REPATH_MS: i64 = 200;

/// A waypoint is reached within this distance, in world units.
pub const WAYPOINT_EPSILON: i128 = 5_000;

/// A guard's plan: the cells still to visit, and the time until it plans again.
#[derive(Clone, Debug)]
pub struct AiController {
    pub path: Vec<GridPos>,
    pub path_time_remaining: i64,
}

/// One of the four intents a guard can give its movement.
#[derive(Clone, Copy, Debug, PartialEq, Eq, Structural)]
pub enum Steer {
    Left,
    Right,
    Up,
    Down,
}

pub open spec fn clamp_i64(v: int) -> i64 {
    if v < i64::MIN {
        i64::MIN
    } else if v > i64::MAX {
        i64::MAX
    } else {
        v as i64
    }
}

fn clamp_to_i64(v: i128) -> (r: i64)
    ensures
        r == clamp_i64(v as int),
{
    if v < i64::MIN as i128 {
        i64::MIN
    } else if v > i64::MAX as i128 {
        i64::MAX
    } else {
        v as i64
    }
}

/// `i` is the first runner nearest to `to`.
pub open spec fn is_nearest(runners: Seq<GridPos>, to: GridPos, i: int) -> bool {
    &&& 0 <= i < runners.len()
    &&& forall|j: int| 0 <= j < runners.len() ==> dist_sq(runners[i], to) <= #[trigger] dist_sq(runners[j], to)
    &&& forall|j: int| 0 <= j < i ==> dist_sq(runners[i], to) < #[trigger] dist_sq(runners[j], to)
}

fn dist_sq_exec(a: GridPos, b: GridPos) -> (r: u128)
    ensures
        r == dist_sq(a, b),
{
    let dx: i64 = a.x as i64 - b.x as i64;
    let dy: i64 = a.y as i64 - b.y as i64;
    let ax: u128 = if dx < 0 {
        (-dx) as u128
    } else {
        dx as u128
    };
    let ay: u128 = if dy < 0 {
        (-dy) as u128
    } else {
        dy as u128
    };
    assert(ax * ax <= 0x1_0000_0000_0000_0000 && ay * ay <= 0x1_0000_0000_0000_0000) by (nonlinear_arith)
        requires
            ax <= 0x1_0000_0000u128,
            ay <= 0x1_0000_0000u128,
    ;
    let d2 = ax * ax + ay * ay;
    assert(d2 == dist_sq(a, b)) by (nonlinear_arith)
        requires
            d2 == ax * ax + ay * ay,
            ax == (if dx < 0 { -(dx as int) } else { dx as int }),
            ay == (if dy < 0 { -(dy as int) } else { dy as int }),
            dx == a.x - b.x,
            dy == a.y - b.y,
    ;
    d2
}

/// The runner nearest to `to_position` (the first of the nearest), if any.
pub fn find_nearest_runner(to_position: GridPos, runners: &Vec<GridPos>) -> (r: Option<GridPos>)
    ensures
        r.is_none() <==> runners@.len() == 0,
        r.is_some() ==> exists|i: int| is_nearest(runners@, to_position, i) && runners@[i] == r.unwrap(),
{
    if runners.len() == 0 {
        return None;
    }
    let mut best: usize = 0;
    let mut best_d = dist_sq_exec(runners[0], to_position);
    let mut i: usize = 1;
    while i < runners.len()
        invariant
            1 <= i <= runners@.len(),
            best < i,
            best_d == dist_sq(runners@[best as int], to_position),
            forall|j: int| 0 <= j < i ==> best_d <= #[trigger] dist_sq(runners@[j], to_position),
            forall|j: int| 0 <= j < best ==> best_d < #[trigger] dist_sq(runners@[j], to_position),
        decreases runners@.len() - i,
    {
        let d = dist_sq_exec(runners[i], to_position);
        if d < best_d {
            best = i;
            best_d = d;
        }
        i += 1;
    }
    assert(is_nearest(runners@, to_position, best as int));
    Some(runners[best])
}

/// The intent that heads from `from` toward `to`: along the axis of the
/// larger gap, sideways on a tie; none when they coincide.
pub open spec fn spec_steer(from: WorldPos, to: WorldPos) -> Option<Steer> {
    let dx = to.x - from.x;
    let dy = to.y - from.y;
    if crate::movement::abs(dx) >= crate::movement::abs(dy) {
        if to.x < from.x {
            Some(Steer::Left)
        } else if to.x > from.x {
            Some(Steer::Right)
        } else {
            None
        }
    } else if to.y > from.y {
        Some(Steer::Up)
    } else if to.y < from.y {
        Some(Steer::Down)
    } else {
        None
    }
}

pub fn steer(from: WorldPos, to: WorldPos) -> (r: Option<Steer>)
    requires
        in_span(from),
        in_span(to),
    ensures
        r == spec_steer(from, to),
{
    let dx = to.x - from.x;
    let dy = to.y - from.y;
    let adx = if dx < 0 {
        -dx
    } else {
        dx
    };
    let ady = if dy < 0 {
        -dy
    } else {
        dy
    };
    if adx >= ady {
        if to.x < from.x {
            Some(Steer::Left)
        } else if to.x > from.x {
            Some(Steer::Right)
        } else {
            None
        }
    } else if to.y > from.y {
        Some(Steer::Up)
    } else if to.y < from.y {
        Some(Steer::Down)
    } else {
        None
    }
}

/// Within the span of world positions of grid cells.
pub open spec fn in_span(p: WorldPos) -> bool {
    -0x8000_0000_0000 <= p.x <= 0x8000_0000_0000 && -0x8000_0000_0000 <= p.y <= 0x8000_0000_0000
}

/// `m` with the intent `s` added, if any.
pub open spec fn with_steer(m: Movement, s: Option<Steer>) -> Movement {
    match s {
        Some(Steer::Left) => Movement { move_left: true, ..m },
        Some(Steer::Right) => Movement { move_right: true, ..m },
        Some(Steer::Up) => Movement { move_up: true, ..m },
        Some(Steer::Down) => Movement { move_down: true, ..m },
        None => m,
    }
}

/// `a` and `b` lie within the waypoint distance of each other.
pub open spec fn near(a: WorldPos, b: WorldPos) -> bool {
    (a.x - b.x) * (a.x - b.x) + (a.y - b.y) * (a.y - b.y) < WAYPOINT_EPSILON * WAYPOINT_EPSILON
}

fn near_exec(a: WorldPos, b: WorldPos) -> (r: bool)
    requires
        in_span(a),
        in_span(b),
    ensures
        r == near(a, b),
{
    let dx: i64 = a.x - b.x;
    let dy: i64 = a.y - b.y;
    let ax: u128 = if dx < 0 {
        (-dx) as u128
    } else {
        dx as u128
    };
    let ay: u128 = if dy < 0 {
        (-dy) as u128
    } else {
        dy as u128
    };
    assert(ax * ax <= 0x1_0000_0000_0000_0000_0000_0000) by (nonlinear_arith)
        requires
            ax <= 0x1_0000_0000_0000u128,
    ;
    assert(ay * ay <= 0x1_0000_0000_0000_0000_0000_0000) by (nonlinear_arith)
        requires
            ay <= 0x1_0000_0000_0000u128,
    ;
    let d2 = ax * ax + ay * ay;
    assert(d2 == (a.x - b.x) * (a.x - b.x) + (a.y - b.y) * (a.y - b.y)) by (nonlinear_arith)
        requires
            d2 == ax * ax + ay * ay,
            ax == (if dx < 0 { -(dx as int) } else { dx as int }),
            ay == (if dy < 0 { -(dy as int) } else { dy as int }),
            dx == a.x - b.x,
            dy == a.y - b.y,
    ;
    d2 < (WAYPOINT_EPSILON * WAYPOINT_EPSILON) as u128
}

/// The guard plans this tick.
pub open spec fn plans(ai_path_len: nat, remaining: i64) -> bool {
    ai_path_len == 0 || remaining <= 0
}

/// What one tick does to a guard's plan `a0` and movement `m0`, giving `a1` and `m1`.
pub open spec fn ai_tick(
    a0: AiController,
    m0: Movement,
    position: WorldPos,
    grid: GridTransform,
    navmesh: &NavMesh,
    runners: Seq<GridPos>,
    dt_ms: int,
    a1: AiController,
    m1: Movement,
) -> bool {
    let rem = clamp_i64(a0.path_time_remaining - dt_ms);
    if plans(a0.path@.len(), rem) {
        &&& m1 == m0
        &&& if runners.len() > 0 && (exists|i: int|
            is_nearest(runners, grid.translation, i) && routable(navmesh, grid.translation, runners[i])) {
            &&& exists|i: int, route: Seq<GridPos>|
                is_nearest(runners, grid.translation, i) && is_route(navmesh, grid.translation, runners[i], route)
                    && (unit_links(navmesh) ==> shortest(navmesh, grid.translation, runners[i], route))
                    && a1.path@ == route.drop_first()
            &&& a1.path_time_remaining == REPATH_MS
        } else {
            &&& a1.path@ == a0.path@
            &&& a1.path_time_remaining == rem
        }
    } else {
        let path = if near(position, grid.spec_to_world(a0.path@[0])) {
            a0.path@.drop_first()
        } else {
            a0.path@
        };
        &&& a1.path@ == path
        &&& a1.path_time_remaining == rem
        &&& m1 == if path.len() > 0 {
            with_steer(m0, spec_steer(position, grid.spec_to_world(path[0])))
        } else {
            m0
        }
    }
}

/// One tick of a guard at `position`, in the cell `grid.translation`. The
/// planning clock runs down; when the plan is empty or the clock has run out,
/// the guard routes to the nearest runner and keeps the route without its own
/// cell, setting the clock back to `REPATH_MS`; with no runner or no route it keeps its plan.
/// Otherwise it drops the next waypoint once it is within reach of it, and
/// steers toward the waypoint after that.
pub fn run_ai_guard(
    ai: &mut AiController,
    movement: &mut Movement,
    position: WorldPos,
    grid: &GridTransform,
    navmesh: &NavMesh,
    runners: &Vec<GridPos>,
    dt_ms: u64,
)
    requires
        navmesh.wf(),
        navmesh.tiles@.len() < usize::MAX,
        grid.wf(),
        position.in_world(),
    ensures
        ai_tick(*old(ai), *old(movement), position, *grid, navmesh, runners@, dt_ms as int, *final(ai), *final(movement)),
{
    let rem = clamp_to_i64(ai.path_time_remaining as i128 - dt_ms as i128);
    ai.path_time_remaining = rem;
    if ai.path.len() == 0 || rem <= 0 {
        let nearest = find_nearest_runner(grid.translation, runners);
        match nearest {
            Some(runner_pos) => {
                let found = astar_pathfind(grid.translation, runner_pos, navmesh);
                proof {
                    let i = choose|i: int| is_nearest(runners@, grid.translation, i) && runners@[i] == runner_pos;
                    assert forall|j: int| is_nearest(runners@, grid.translation, j) implies j == i by {
                        if j < i {
                            assert(dist_sq(runners@[i], grid.translation) < dist_sq(runners@[j], grid.translation));
                        }
                        if i < j {
                            assert(dist_sq(runners@[j], grid.translation) < dist_sq(runners@[i], grid.translation));
                        }
                    }
                }
                match found {
                    Ok(path) => {
                        let mut path = path;
                        proof {
                            let route = path@;
                            let w = choose|w: Seq<int>|
                                #![trigger crate::pathfinding::walk_positions(navmesh, w)]
                                crate::pathfinding::is_walk(navmesh, w) && crate::pathfinding::is_first_at(navmesh, w[0], grid.translation)
                                    && navmesh.tiles@[w.last()].pos == runner_pos && route
                                    == crate::pathfinding::walk_positions(navmesh, w);
                            assert(route.len() == w.len());
                        }
                        let ghost route = path@;
                        path.remove(0);
                        ai.path = path;
                        ai.path_time_remaining = REPATH_MS;
                        proof {
                            assert(ai.path@ =~= route.drop_first());
                            let i = choose|i: int| is_nearest(runners@, grid.translation, i) && runners@[i] == runner_pos;
                            assert(is_route(navmesh, grid.translation, runners@[i], route));
                        }
                    },
                    Err(_) => {},
                }
            },
            None => {},
        }
        return;
    }
    let first = grid.to_world(ai.path[0]);
    assert(in_span(first));
    if near_exec(position, first) {
        ai.path.remove(0);
    }
    if ai.path.len() > 0 {
        let target = grid.to_world(ai.path[0]);
        assert(in_span(target));
        match steer(position, target) {
            Some(Steer::Left) => movement.add_move_left(),
            Some(Steer::Right) => movement.add_move_right(),
            Some(Steer::Up) => movement.add_move_up(),
            Some(Steer::Down) => movement.add_move_down(),
            None => {},
        }
    }
}

} // verus!
