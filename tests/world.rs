use loderunner::ai::AiController;
use loderunner::burn::{BurnState, Burnable};
use loderunner::gameplay::{respawn_guard, start_guard_respawn, Respawnable};
use loderunner::geometry::{GridPos, GridTransform, WorldPos};
use loderunner::level_asset::{LevelDataAsset, LevelTile, TileType};
use loderunner::movement::Movement;
use loderunner::navmesh::NavMesh;
use loderunner::overlaps::Overlaps;
use loderunner::resources::{EffectiveTileType, LevelResource};
use loderunner::world::{apply_falling, apply_falling_guard, apply_movement, run_ai_guards, update_grid_transforms, Actor};

fn p(x: i32, y: i32) -> GridPos {
    GridPos::new(x, y)
}

/// Five by four: a brick floor, a brick hole at (2, 0) emptied, open above.
fn level() -> LevelResource {
    let mut asset = LevelDataAsset::default();
    asset.width = 5;
    asset.height = 4;
    for x in 0..5 {
        asset.tiles.push(LevelTile::new(TileType::Brick, p(x, 0)));
    }
    let mut level = LevelResource::from_asset(&asset);
    for x in 0..5 {
        level.set_entity(p(x, 0), 100 + x as u64);
    }
    level
}

fn actor(id: u64, x: i64, y: i64, is_runner: bool) -> Actor {
    let mut grid = GridTransform::new(WorldPos { x: 0, y: 0 });
    grid.translation = grid.cell_of(WorldPos { x, y });
    Actor { id, movement: Movement::new(60_000, 40_000), position: WorldPos { x, y }, grid, is_runner, stunned: false, killed: false }
}

#[test]
fn defaults_are_idle() {
    let b = Burnable::default();
    assert_eq!(b.get_state(), BurnState::NotBurning);
    assert_eq!(b.burn_time, 0);
    assert_eq!(EffectiveTileType::default(), EffectiveTileType::Empty);
    let o = Overlaps::default();
    assert!(o.is_active);
    let a = LevelDataAsset::default();
    assert!(a.tiles.is_empty());
}

#[test]
fn grid_cells_follow_positions() {
    let mut actors = vec![actor(1, 0, 0, true)];
    actors[0].position = WorldPos { x: 41_000, y: 23_000 };
    update_grid_transforms(&mut actors);
    assert_eq!(actors[0].grid.translation, p(2, 1));
}

#[test]
fn movement_pass_skips_falling_stunned_and_killed() {
    let level = level();
    let mut actors = vec![actor(1, 20_000, 22_000, true), actor(2, 60_000, 22_000, false), actor(3, 80_000, 22_000, false)];
    for a in actors.iter_mut() {
        a.movement.add_move_left();
    }
    actors[1].stunned = true;
    actors[2].killed = true;
    apply_movement(&level, &mut actors, 100);
    assert_eq!(actors[0].position, WorldPos { x: 14_000, y: 22_000 });
    assert_eq!(actors[1].position, WorldPos { x: 60_000, y: 22_000 });
    assert_eq!(actors[2].position, WorldPos { x: 80_000, y: 22_000 });
}

#[test]
fn falling_passes_split_runners_and_guards() {
    let mut level = level();
    level.set(p(2, 0), EffectiveTileType::Empty);
    // a runner and a guard both falling into the hole at (2, 0)
    let mut actors = vec![actor(1, 40_000, 0, true), actor(2, 40_000, 0, false)];
    actors[0].movement.start_falling(p(2, 1), 0);
    actors[1].movement.start_falling(p(2, 1), 0);
    apply_falling(&level, &mut actors, 16);
    // below the hole is the solid floor outside the grid: the runner stops there
    assert!(!actors[0].movement.is_falling());
    assert!(actors[1].movement.is_falling());
    apply_falling_guard(&mut level, &mut actors, &vec![102], 16);
    assert!(actors[1].stunned);
    assert!(!actors[1].movement.is_falling());
    assert_eq!(level.at(p(2, 0)).behaviour, EffectiveTileType::Blocker);
    assert!(!actors[0].stunned);
}

#[test]
fn ai_pass_moves_guards_toward_runner() {
    let mut asset = LevelDataAsset::new();
    asset.width = 5;
    asset.height = 3;
    for x in 0..5 {
        asset.tiles.push(LevelTile::new(TileType::Brick, p(x, 0)));
    }
    let level = LevelResource::from_asset(&asset);
    let mesh = NavMesh::from_level(&level);
    let mut actors = vec![actor(1, 80_000, 22_000, true), actor(2, 0, 22_000, false)];
    let mut ais = vec![
        AiController { path: Vec::new(), path_time_remaining: 0 },
        AiController { path: Vec::new(), path_time_remaining: 0 },
    ];
    run_ai_guards(&mesh, &mut actors, &mut ais, 16);
    assert!(ais[0].path.is_empty());
    assert_eq!(ais[1].path, vec![p(1, 1), p(2, 1), p(3, 1), p(4, 1)]);
    run_ai_guards(&mesh, &mut actors, &mut ais, 16);
    assert!(actors[1].movement.move_right);
    assert!(!actors[0].movement.move_right);
}

#[test]
fn killed_guard_respawns_in_stages() {
    let mut level = level();
    let mut guard = actor(2, 40_000, 22_000, false);
    guard.stunned = true;
    guard.killed = true;
    level.set_override(p(2, 1), EffectiveTileType::Blocker);
    let mut respawn = Respawnable { timer: 77, position: p(0, 0) };
    let mut overlaps = Overlaps::new();
    start_guard_respawn(&mut level, &mut guard, &mut respawn, &mut overlaps);
    assert_eq!(respawn.timer, 0);
    assert_eq!(respawn.position.y, 2);
    assert!(!overlaps.is_active);
    assert!(!guard.stunned);
    assert_eq!(guard.position, WorldPos { x: -100_000, y: -100_000 });
    assert_eq!(level.at(p(2, 1)).behaviour, EffectiveTileType::Empty);
    respawn_guard(&mut guard, &mut respawn, &mut overlaps, 1_500);
    assert_eq!(guard.position, WorldPos { x: -100_000, y: -100_000 });
    respawn_guard(&mut guard, &mut respawn, &mut overlaps, 600);
    assert_eq!(guard.position, guard.grid.to_world(respawn.position));
    assert!(guard.killed);
    respawn_guard(&mut guard, &mut respawn, &mut overlaps, 600);
    assert!(!guard.killed);
    assert!(overlaps.is_active);
    assert_eq!(respawn.timer, 0);
}
