use loderunner::geometry::{GridPos, GridTransform, WorldPos};
use loderunner::movement::{
    drift_towards, is_range_overlapping, step_falling, step_movement, tick_distance, useful_sign, Direction, Movement,
};
use loderunner::resources::{EffectiveTileType, Tile, TilesAround};

const E: EffectiveTileType = EffectiveTileType::Empty;
const B: EffectiveTileType = EffectiveTileType::Blocker;
const L: EffectiveTileType = EffectiveTileType::Ladder;
const R: EffectiveTileType = EffectiveTileType::Rope;

fn tiles(c: GridPos, on: EffectiveTileType, above: EffectiveTileType, below: EffectiveTileType, left: EffectiveTileType, right: EffectiveTileType) -> TilesAround {
    let t = |dx: i32, dy: i32, k: EffectiveTileType| Tile { entity: None, pos: GridPos::new(c.x + dx, c.y + dy), behaviour: k };
    TilesAround {
        above: t(0, 1, above),
        below: t(0, -1, below),
        on: t(0, 0, on),
        left: t(-1, 0, left),
        right: t(1, 0, right),
        below_left: t(-1, -1, B),
        below_right: t(1, -1, B),
    }
}

fn placed(cell: GridPos) -> GridTransform {
    let mut g = GridTransform::new(WorldPos { x: 0, y: 0 });
    g.translation = cell;
    g
}

#[test]
fn consume_cancels_opposite_intents() {
    let mut m = Movement::new(1, 1);
    m.add_move_left();
    m.add_move_right();
    m.add_move_up();
    assert_eq!(m.consume(), Direction { x: 0, y: 1 });
    assert_eq!(m.consume(), Direction { x: 0, y: 0 });
    m.add_move_down();
    m.add_move_left();
    assert_eq!(m.consume(), Direction { x: -1, y: -1 });
}

#[test]
fn helpers_compute_exact_values() {
    assert_eq!(is_range_overlapping(0, 25_000, 20_000), (false, 5_000));
    assert_eq!(is_range_overlapping(0, -20_000, 20_000), (true, 0));
    assert_eq!(useful_sign(-7), -1);
    assert_eq!(useful_sign(0), 0);
    assert_eq!(useful_sign(3), 1);
    assert_eq!(drift_towards(100, 40, 1_000), 60);
    assert_eq!(drift_towards(100, 5_000, 1_000), -1_000);
    assert_eq!(drift_towards(100, 100, 1_000), 0);
    assert_eq!(tick_distance(60_000, 500), 30_000);
    assert_eq!(tick_distance(154_000, 16), 2_464);
    assert_eq!(tick_distance(0, 1_000), 0);
}

#[test]
fn walks_sideways_at_full_step_when_open() {
    let c = GridPos::new(2, 1);
    let mut m = Movement::new(60_000, 40_000);
    let mut pos = WorldPos { x: 40_000, y: 22_000 };
    m.add_move_right();
    let t = tiles(c, E, E, B, E, E);
    step_movement(&mut m, &mut pos, &placed(c), &t, 100);
    assert_eq!(pos, WorldPos { x: 46_000, y: 22_000 });
    assert_eq!(m.velocity, WorldPos { x: 6_000, y: 0 });
    assert!(!m.is_falling());
}

#[test]
fn sideways_move_stops_at_contact_with_blocker() {
    let c = GridPos::new(2, 1);
    let mut m = Movement::new(60_000, 40_000);
    // right blocker at x = 60000; contact at x = 40000
    let mut pos = WorldPos { x: 37_000, y: 22_000 };
    m.add_move_right();
    let t = tiles(c, E, E, B, E, B);
    step_movement(&mut m, &mut pos, &placed(c), &t, 100);
    assert_eq!(pos.x, 40_000);
    m.add_move_right();
    step_movement(&mut m, &mut pos, &placed(c), &t, 100);
    assert_eq!(pos.x, 40_000);
    assert_eq!(m.velocity, WorldPos { x: 0, y: 0 });
}

#[test]
fn sideways_move_drifts_toward_row() {
    let c = GridPos::new(2, 1);
    let mut m = Movement::new(60_000, 40_000);
    let mut pos = WorldPos { x: 40_000, y: 23_000 };
    m.add_move_left();
    let t = tiles(c, E, E, B, E, E);
    step_movement(&mut m, &mut pos, &placed(c), &t, 100);
    assert_eq!(pos, WorldPos { x: 34_000, y: 22_000 });
}

#[test]
fn starts_falling_with_nothing_below() {
    let c = GridPos::new(2, 3);
    let mut m = Movement::new(60_000, 40_000);
    m.velocity = WorldPos { x: 5, y: 0 };
    let mut pos = WorldPos { x: 40_000, y: 66_000 };
    let t = tiles(c, E, E, E, E, E);
    step_movement(&mut m, &mut pos, &placed(c), &t, 100);
    assert!(m.is_falling());
    assert_eq!(m.fall_start_pos(), c);
    assert_eq!(m.get_fall_direction(), 5);
    assert_eq!(pos, WorldPos { x: 40_000, y: 66_000 });
}

#[test]
fn drops_from_rope_on_down_intent() {
    let c = GridPos::new(2, 3);
    let mut m = Movement::new(60_000, 40_000);
    let mut pos = WorldPos { x: 40_000, y: 66_000 };
    m.add_move_down();
    let t = tiles(c, R, E, E, E, E);
    step_movement(&mut m, &mut pos, &placed(c), &t, 100);
    assert!(m.is_falling());
    assert_eq!(m.fall_start_pos(), c);
}

#[test]
fn hanging_on_rope_does_not_fall() {
    let c = GridPos::new(2, 3);
    let mut m = Movement::new(60_000, 40_000);
    let mut pos = WorldPos { x: 40_000, y: 66_000 };
    let t = tiles(c, R, E, E, E, E);
    step_movement(&mut m, &mut pos, &placed(c), &t, 100);
    assert!(!m.is_falling());
}

#[test]
fn drops_through_ladder_bottom_from_cell_above() {
    let c = GridPos::new(2, 3);
    let mut m = Movement::new(60_000, 40_000);
    let mut pos = WorldPos { x: 40_000, y: 66_000 };
    m.add_move_down();
    let t = tiles(c, E, L, B, E, E);
    step_movement(&mut m, &mut pos, &placed(c), &t, 100);
    assert!(m.is_falling());
    assert_eq!(m.fall_start_pos(), GridPos::new(2, 4));
    assert_eq!(m.get_fall_direction(), 0);
}

#[test]
fn climbs_ladder_and_stops_under_blocker() {
    let c = GridPos::new(2, 1);
    let mut m = Movement::new(60_000, 40_000);
    // above blocker at y = 44000; contact at 22000
    let mut pos = WorldPos { x: 41_000, y: 19_000 };
    m.add_move_up();
    let t = tiles(c, L, B, B, E, E);
    step_movement(&mut m, &mut pos, &placed(c), &t, 100);
    assert_eq!(pos, WorldPos { x: 40_000, y: 22_000 });
    m.add_move_up();
    step_movement(&mut m, &mut pos, &placed(c), &t, 100);
    assert_eq!(pos, WorldPos { x: 40_000, y: 22_000 });
}

#[test]
fn climbs_down_ladder_at_climb_speed() {
    let c = GridPos::new(2, 2);
    let mut m = Movement::new(60_000, 40_000);
    let mut pos = WorldPos { x: 40_000, y: 44_000 };
    m.add_move_down();
    let t = tiles(c, L, E, L, E, E);
    step_movement(&mut m, &mut pos, &placed(c), &t, 100);
    assert_eq!(pos, WorldPos { x: 40_000, y: 40_000 });
}

#[test]
fn mounts_ladder_below_when_pressing_up() {
    let c = GridPos::new(2, 2);
    let mut m = Movement::new(60_000, 40_000);
    // standing on the top of a ladder, the cell above is open: full climb step
    let mut pos = WorldPos { x: 40_000, y: 20_000 };
    m.add_move_up();
    let t = tiles(c, E, E, L, E, E);
    step_movement(&mut m, &mut pos, &placed(c), &t, 100);
    assert_eq!(pos, WorldPos { x: 40_000, y: 24_000 });
}

#[test]
fn falling_lands_on_blocker_at_contact() {
    let c = GridPos::new(2, 2);
    let g = placed(c);
    let mut m = Movement::new(60_000, 40_000);
    m.start_falling(GridPos::new(2, 5), 0);
    // below blocker centre at y = 22000; contact at y = 44000
    let mut pos = WorldPos { x: 40_000, y: 50_000 };
    let t = tiles(c, E, E, B, E, E);
    let stunned = step_falling(&mut m, &mut pos, &g, &t, false, 100);
    assert!(!stunned);
    assert_eq!(pos, WorldPos { x: 40_000, y: 44_000 });
    assert!(m.is_falling());
    let stunned = step_falling(&mut m, &mut pos, &g, &t, false, 100);
    assert!(!stunned);
    assert_eq!(pos, WorldPos { x: 40_000, y: 44_000 });
    assert!(!m.is_falling());
}

#[test]
fn falling_through_open_air_keeps_falling() {
    let c = GridPos::new(2, 2);
    let g = placed(c);
    let mut m = Movement::new(60_000, 40_000);
    m.start_falling(GridPos::new(2, 5), 0);
    let mut pos = WorldPos { x: 41_000, y: 44_000 };
    let t = tiles(c, E, E, E, E, E);
    step_falling(&mut m, &mut pos, &g, &t, false, 10);
    // 154000 units per second for 10 ms, and a drift back to the column
    assert_eq!(pos, WorldPos { x: 40_000, y: 42_460 });
    assert!(m.is_falling());
}

#[test]
fn falling_stops_on_its_own_rope_cell() {
    let c = GridPos::new(2, 2);
    let g = placed(c);
    let mut m = Movement::new(60_000, 40_000);
    m.start_falling(c, 0);
    let mut pos = WorldPos { x: 40_000, y: 44_000 };
    let t = tiles(c, R, E, E, E, E);
    step_falling(&mut m, &mut pos, &g, &t, false, 10);
    assert!(!m.is_falling());
    // a different rope cell does not hold a falling entity
    let mut m2 = Movement::new(60_000, 40_000);
    m2.start_falling(GridPos::new(2, 6), 0);
    let mut pos2 = WorldPos { x: 40_000, y: 44_000 };
    step_falling(&mut m2, &mut pos2, &g, &t, false, 10);
    assert!(m2.is_falling());
}

#[test]
fn guard_landing_in_hole_is_stunned() {
    let c = GridPos::new(2, 2);
    let g = placed(c);
    let mut m = Movement::new(60_000, 40_000);
    m.start_falling(GridPos::new(2, 3), 0);
    let mut pos = WorldPos { x: 40_000, y: 44_000 };
    let t = tiles(c, E, E, E, E, E);
    let stunned = step_falling(&mut m, &mut pos, &g, &t, true, 10);
    assert!(stunned);
    assert!(!m.is_falling());
    assert_eq!(pos, WorldPos { x: 40_000, y: 44_000 });
}
