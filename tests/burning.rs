use loderunner::burn::{apply_burnable, BurnState, Burnable};
use loderunner::gameplay::{start_burn, start_burns, Brick, Runner};
use loderunner::geometry::{GridPos, GridTransform, WorldPos};
use loderunner::level_asset::{LevelDataAsset, LevelTile, TileType};
use loderunner::movement::{Direction, Movement};
use loderunner::resources::{EffectiveTileType, LevelResource, Tile};
use loderunner::world::apply_burnables;

fn p(x: i32, y: i32) -> GridPos {
    GridPos::new(x, y)
}

fn floor_level() -> LevelResource {
    let mut asset = LevelDataAsset::new();
    asset.width = 4;
    asset.height = 4;
    for x in 0..4 {
        asset.tiles.push(LevelTile::new(TileType::Brick, p(x, 0)));
    }
    let mut level = LevelResource::from_asset(&asset);
    for x in 0..4 {
        level.set_entity(p(x, 0), 100 + x as u64);
    }
    level
}

#[test]
fn burn_cycle_opens_and_closes_the_cell() {
    let mut level = floor_level();
    let cell = p(1, 0);
    let mut brick = Burnable::new();
    brick.start_burn();
    assert_eq!(brick.get_state(), BurnState::StartingBurn);
    assert!(brick.is_burning());
    let mut t: u64 = 0;
    let mut kills_at = Vec::new();
    while t < 5_100 {
        t += 10;
        if apply_burnable(&mut brick, &mut level, cell, 10) {
            kills_at.push(t);
        }
        if t == 10 {
            assert_eq!(brick.get_state(), BurnState::Burning);
        }
        if t == 500 {
            assert_eq!(brick.get_state(), BurnState::Burning);
            assert_eq!(level.at(cell).behaviour, EffectiveTileType::Blocker);
        }
        if t == 510 {
            assert_eq!(brick.get_state(), BurnState::Burnt);
            assert_eq!(level.at(cell).behaviour, EffectiveTileType::Empty);
        }
        if t == 4_510 {
            assert_eq!(brick.get_state(), BurnState::Rebuilding);
            assert_eq!(level.at(cell).behaviour, EffectiveTileType::Empty);
        }
        if t == 5_000 {
            assert_eq!(brick.get_state(), BurnState::Rebuilding);
        }
        if t == 5_010 {
            assert_eq!(brick.get_state(), BurnState::NotBurning);
            assert_eq!(level.at(cell).behaviour, EffectiveTileType::Blocker);
        }
    }
    assert_eq!(kills_at, vec![5_010]);
    assert_eq!(brick.burn_time, 0);
    assert_eq!(level.at(cell).entity, Some(101));
}

#[test]
fn burn_cannot_restart_mid_cycle() {
    let mut brick = Burnable::new();
    brick.start_burn();
    brick.set_state(BurnState::Burnt);
    brick.burn_time = 700;
    brick.start_burn();
    assert_eq!(brick.get_state(), BurnState::Burnt);
    assert_eq!(brick.burn_time, 700);
}

#[test]
fn idle_brick_clock_stays_at_zero() {
    let mut level = floor_level();
    let mut brick = Burnable::new();
    brick.burn_time = 99;
    assert!(!apply_burnable(&mut brick, &mut level, p(0, 0), 16));
    assert_eq!(brick.burn_time, 0);
    assert_eq!(brick.get_state(), BurnState::NotBurning);
}

fn bricks() -> Vec<Brick> {
    (0..4)
        .map(|x| Brick { id: 100 + x as u64, cell: p(x, 0), burnable: Burnable::new(), overlapping: Vec::new() })
        .collect()
}

#[test]
fn start_burn_only_on_idle_brick() {
    let mut bs = bricks();
    let tile = Tile { entity: Some(102), pos: p(2, 0), behaviour: EffectiveTileType::Blocker };
    assert!(start_burn(&tile, &mut bs));
    assert_eq!(bs[2].burnable.get_state(), BurnState::StartingBurn);
    assert!(!start_burn(&tile, &mut bs));
    let empty = Tile { entity: None, pos: p(2, 1), behaviour: EffectiveTileType::Empty };
    assert!(!start_burn(&empty, &mut bs));
    let stranger = Tile { entity: Some(7), pos: p(2, 1), behaviour: EffectiveTileType::Empty };
    assert!(!start_burn(&stranger, &mut bs));
    assert_eq!(bs[1].burnable.get_state(), BurnState::NotBurning);
}

#[test]
fn runner_burns_below_left_and_lines_up() {
    let level = floor_level();
    let mut bs = bricks();
    let mut runner = Runner { wants_to_burn_left: true, wants_to_burn_right: true, burning_left: false, burning_right: false, burn_time: 0 };
    let mut m = Movement::new(60_000, 40_000);
    let mut pos = WorldPos { x: 43_000, y: 22_000 };
    let mut g = GridTransform::new(WorldPos { x: 0, y: 0 });
    g.translation = p(2, 1);
    let fire = start_burns(&mut runner, &mut m, &mut pos, &g, &level, &mut bs, 16);
    assert_eq!(fire, Some(p(1, 1)));
    assert!(runner.burning_left && !runner.burning_right);
    assert!(runner.is_burning());
    assert_eq!(pos, WorldPos { x: 40_000, y: 22_000 });
    assert_eq!(bs[1].burnable.get_state(), BurnState::StartingBurn);
    assert_eq!(bs[3].burnable.get_state(), BurnState::NotBurning);
    // while burning, intents are dropped and the burn runs out after 10/22 s
    m.add_move_right();
    assert_eq!(start_burns(&mut runner, &mut m, &mut pos, &g, &level, &mut bs, 450), None);
    assert_eq!(m.consume(), Direction { x: 0, y: 0 });
    assert!(runner.is_burning());
    assert_eq!(runner.burn_time, 450);
    start_burns(&mut runner, &mut m, &mut pos, &g, &level, &mut bs, 5);
    assert!(!runner.is_burning());
    assert_eq!(runner.burn_time, 0);
}

#[test]
fn burn_pass_kills_only_killable_overlappers_when_brick_closes() {
    let mut level = floor_level();
    let mut bs = bricks();
    bs[1].burnable.set_state(BurnState::Rebuilding);
    bs[1].burnable.burn_time = 4_995;
    bs[1].overlapping = vec![7, 8, 9];
    bs[2].burnable.set_state(BurnState::Burning);
    bs[2].burnable.burn_time = 495;
    bs[2].overlapping = vec![8];
    level.set(p(1, 0), EffectiveTileType::Empty);
    let killed = apply_burnables(&mut level, &mut bs, &vec![9, 8], 10);
    assert_eq!(killed, vec![8, 9]);
    assert_eq!(bs[1].burnable.get_state(), BurnState::NotBurning);
    assert_eq!(bs[2].burnable.get_state(), BurnState::Burnt);
    assert_eq!(level.at(p(1, 0)).behaviour, EffectiveTileType::Blocker);
    assert_eq!(level.at(p(2, 0)).behaviour, EffectiveTileType::Empty);
    assert_eq!(level.at(p(3, 0)).behaviour, EffectiveTileType::Blocker);
}
