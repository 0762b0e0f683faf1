use loderunner::ai::{find_nearest_runner, run_ai_guard, steer, AiController, Steer};
use loderunner::geometry::{GridPos, GridTransform, WorldPos};
use loderunner::movement::{Direction, Movement};
use loderunner::navmesh::{NavMesh, NavTile};

fn p(x: i32, y: i32) -> GridPos {
    GridPos::new(x, y)
}

fn row_mesh(n: i32) -> NavMesh {
    let mut tiles = Vec::new();
    for x in 0..n {
        let mut connections = Vec::new();
        if x > 0 {
            connections.push((x - 1) as usize);
        }
        if x + 1 < n {
            connections.push((x + 1) as usize);
        }
        tiles.push(NavTile { pos: p(x, 0), connections });
    }
    NavMesh { tiles }
}

#[test]
fn nearest_runner_is_the_first_closest() {
    assert_eq!(find_nearest_runner(p(0, 0), &Vec::new()), None);
    let runners = vec![p(5, 5), p(1, 2), p(-2, 1), p(0, 9)];
    assert_eq!(find_nearest_runner(p(0, 0), &runners), Some(p(1, 2)));
    assert_eq!(find_nearest_runner(p(4, 4), &runners), Some(p(5, 5)));
}

#[test]
fn steering_prefers_the_larger_gap_and_sideways_on_ties() {
    let o = WorldPos { x: 0, y: 0 };
    assert_eq!(steer(o, WorldPos { x: -10, y: 3 }), Some(Steer::Left));
    assert_eq!(steer(o, WorldPos { x: 10, y: -3 }), Some(Steer::Right));
    assert_eq!(steer(o, WorldPos { x: 3, y: 10 }), Some(Steer::Up));
    assert_eq!(steer(o, WorldPos { x: -3, y: -10 }), Some(Steer::Down));
    assert_eq!(steer(o, WorldPos { x: 7, y: 7 }), Some(Steer::Right));
    assert_eq!(steer(o, o), None);
}

#[test]
fn guard_plans_route_to_runner_without_its_own_cell() {
    let mesh = row_mesh(6);
    let mut ai = AiController { path: Vec::new(), path_time_remaining: 0 };
    let mut m = Movement::new(60_000, 40_000);
    let mut g = GridTransform::new(WorldPos { x: 0, y: 0 });
    g.translation = p(1, 0);
    run_ai_guard(&mut ai, &mut m, WorldPos { x: 20_000, y: 0 }, &g, &mesh, &vec![p(4, 0)], 16);
    assert_eq!(ai.path, vec![p(2, 0), p(3, 0), p(4, 0)]);
    assert_eq!(ai.path_time_remaining, 200);
    assert_eq!(m.consume(), Direction { x: 0, y: 0 });
}

#[test]
fn guard_without_route_keeps_its_plan() {
    let mesh = row_mesh(3);
    let mut ai = AiController { path: Vec::new(), path_time_remaining: 50 };
    let mut m = Movement::new(60_000, 40_000);
    let mut g = GridTransform::new(WorldPos { x: 0, y: 0 });
    g.translation = p(1, 0);
    run_ai_guard(&mut ai, &mut m, WorldPos { x: 20_000, y: 0 }, &g, &mesh, &vec![p(1, 7)], 16);
    assert!(ai.path.is_empty());
    assert_eq!(ai.path_time_remaining, 34);
    run_ai_guard(&mut ai, &mut m, WorldPos { x: 20_000, y: 0 }, &g, &mesh, &Vec::new(), 16);
    assert!(ai.path.is_empty());
    assert_eq!(ai.path_time_remaining, 18);
}

#[test]
fn guard_follows_waypoints() {
    let mesh = row_mesh(6);
    let mut ai = AiController { path: vec![p(2, 0), p(3, 0)], path_time_remaining: 150 };
    let mut m = Movement::new(60_000, 40_000);
    let mut g = GridTransform::new(WorldPos { x: 0, y: 0 });
    g.translation = p(2, 0);
    // within reach of the first waypoint: it is dropped, the guard heads right
    run_ai_guard(&mut ai, &mut m, WorldPos { x: 38_000, y: 0 }, &g, &mesh, &vec![p(5, 0)], 16);
    assert_eq!(ai.path, vec![p(3, 0)]);
    assert_eq!(ai.path_time_remaining, 134);
    assert_eq!(m.consume(), Direction { x: 1, y: 0 });
    // not yet within reach: the plan is kept
    run_ai_guard(&mut ai, &mut m, WorldPos { x: 70_000, y: 0 }, &g, &mesh, &vec![p(5, 0)], 16);
    assert_eq!(ai.path, vec![p(3, 0)]);
    assert_eq!(m.consume(), Direction { x: -1, y: 0 });
}
