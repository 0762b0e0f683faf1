use loderunner::geometry::{GridPos, GridTransform, WorldPos};
use loderunner::level_asset::{parse_level, tile_type_of, LevelDataAsset, LevelDataDiskAsset, LevelTile, TileType};
use loderunner::resources::{EffectiveTileType, LevelResource, LevelTile as GridTile};

fn p(x: i32, y: i32) -> GridPos {
    GridPos::new(x, y)
}

fn small_level() -> LevelResource {
    let mut asset = LevelDataAsset::new();
    asset.width = 5;
    asset.height = 4;
    asset.tiles.push(LevelTile::new(TileType::Brick, p(0, 0)));
    asset.tiles.push(LevelTile::new(TileType::SolidBrick, p(1, 0)));
    asset.tiles.push(LevelTile::new(TileType::Ladder, p(1, 1)));
    asset.tiles.push(LevelTile::new(TileType::Rope, p(2, 2)));
    asset.tiles.push(LevelTile::new(TileType::Gold, p(3, 1)));
    asset.tiles.push(LevelTile::new(TileType::Gold, p(4, 2)));
    asset.tiles.push(LevelTile::new(TileType::Gold, p(9, 9)));
    asset.tiles.push(LevelTile::new(TileType::Guard, p(0, 2)));
    LevelResource::from_asset(&asset)
}

#[test]
fn tile_characters_map_to_tags() {
    assert_eq!(tile_type_of('#'), Some(TileType::Brick));
    assert_eq!(tile_type_of('@'), Some(TileType::SolidBrick));
    assert_eq!(tile_type_of('H'), Some(TileType::Ladder));
    assert_eq!(tile_type_of('-'), Some(TileType::Rope));
    assert_eq!(tile_type_of('X'), Some(TileType::FalseBrick));
    assert_eq!(tile_type_of('S'), Some(TileType::HiddenLadder));
    assert_eq!(tile_type_of('$'), Some(TileType::Gold));
    assert_eq!(tile_type_of('0'), Some(TileType::Guard));
    assert_eq!(tile_type_of('&'), Some(TileType::Player));
    assert_eq!(tile_type_of(' '), None);
    assert_eq!(tile_type_of('?'), None);
}

#[test]
fn parse_level_reads_rows_top_down() {
    let disk = LevelDataDiskAsset { rows: vec!["H ?".to_string(), "#$&".to_string()] };
    let parsed = parse_level(&disk);
    assert_eq!(parsed.level.width, 28);
    assert_eq!(parsed.level.height, 16);
    let tiles = &parsed.level.tiles;
    assert_eq!(tiles.len(), 4);
    assert_eq!(tiles[0], LevelTile::new(TileType::Ladder, p(0, 1)));
    assert_eq!(tiles[1], LevelTile::new(TileType::Brick, p(0, 0)));
    assert_eq!(tiles[2], LevelTile::new(TileType::Gold, p(1, 0)));
    assert_eq!(tiles[3], LevelTile::new(TileType::Player, p(2, 0)));
    assert_eq!(parsed.unexpected, vec!['?']);
}

#[test]
fn parse_level_of_no_rows_is_empty() {
    let disk = LevelDataDiskAsset { rows: Vec::new() };
    let parsed = parse_level(&disk);
    assert!(parsed.level.tiles.is_empty());
    assert!(parsed.unexpected.is_empty());
}

#[test]
fn from_asset_sets_kinds_and_counts_treasure() {
    let level = small_level();
    assert_eq!(level.width(), 5);
    assert_eq!(level.height(), 4);
    assert_eq!(level.at(p(0, 0)).behaviour, EffectiveTileType::Blocker);
    assert_eq!(level.at(p(1, 0)).behaviour, EffectiveTileType::Blocker);
    assert_eq!(level.at(p(1, 1)).behaviour, EffectiveTileType::Ladder);
    assert_eq!(level.at(p(2, 2)).behaviour, EffectiveTileType::Rope);
    assert_eq!(level.at(p(3, 1)).behaviour, EffectiveTileType::Empty);
    assert_eq!(level.at(p(4, 3)).behaviour, EffectiveTileType::Empty);
    assert_eq!(level.at(p(0, 0)).entity, None);
    // the treasure outside the rectangle is not counted
    assert_eq!(level.treasure_count(), 2);
}

#[test]
fn respawns_are_free_cells_of_second_row_from_top() {
    let level = small_level();
    // row y = 2 holds a rope at x = 2, gold at x = 4 and a guard at x = 0
    assert_eq!(level.respawn_count(), 2);
    assert_eq!(level.respawn_at(0), p(1, 2));
    assert_eq!(level.respawn_at(1), p(3, 2));
    for _ in 0..20 {
        let r = level.get_random_respawn();
        assert!(r == p(1, 2) || r == p(3, 2));
    }
}

#[test]
fn out_of_bounds_reads_sky_above_and_wall_elsewhere() {
    let level = small_level();
    let none = GridTile { entity: None, behaviour: EffectiveTileType::Empty };
    let blocker = GridTile { entity: None, behaviour: EffectiveTileType::Blocker };
    assert_eq!(level.at(p(2, 4)), none);
    assert_eq!(level.at(p(-3, 4)), none);
    assert_eq!(level.at(p(9, 100)), none);
    assert_eq!(level.at(p(-1, 0)), blocker);
    assert_eq!(level.at(p(5, 3)), blocker);
    assert_eq!(level.at(p(2, -1)), blocker);
    assert_eq!(level.at(p(-7, -7)), blocker);
}

#[test]
fn around_reads_neighbours_and_is_repeatable() {
    let level = small_level();
    let a = level.around(p(1, 1));
    let b = level.around(p(1, 1));
    assert_eq!(a, b);
    assert_eq!(a.on.behaviour, EffectiveTileType::Ladder);
    assert_eq!(a.on.pos, p(1, 1));
    assert_eq!(a.below.behaviour, EffectiveTileType::Blocker);
    assert_eq!(a.below.pos, p(1, 0));
    assert_eq!(a.above.pos, p(1, 2));
    assert_eq!(a.left.pos, p(0, 1));
    assert_eq!(a.right.pos, p(2, 1));
    assert_eq!(a.below_left.behaviour, EffectiveTileType::Blocker);
    assert_eq!(a.below_left.pos, p(0, 0));
    assert_eq!(a.below_right.pos, p(2, 0));
    assert_eq!(a.below_right.behaviour, EffectiveTileType::Empty);
}

#[test]
fn set_changes_base_kind_in_bounds_only() {
    let mut level = small_level();
    level.set(p(0, 0), EffectiveTileType::Empty);
    assert_eq!(level.at(p(0, 0)).behaviour, EffectiveTileType::Empty);
    level.set(p(-1, 0), EffectiveTileType::Empty);
    assert_eq!(level.at(p(-1, 0)).behaviour, EffectiveTileType::Blocker);
    level.set_entity(p(0, 0), 42);
    assert_eq!(level.at(p(0, 0)).entity, Some(42));
    assert_eq!(level.at(p(0, 0)).behaviour, EffectiveTileType::Empty);
}

#[test]
fn override_blocks_until_reset() {
    let mut level = small_level();
    level.set_override(p(3, 1), EffectiveTileType::Rope);
    assert_eq!(level.at(p(3, 1)).behaviour, EffectiveTileType::Blocker);
    level.set_override(p(3, 1), EffectiveTileType::Blocker);
    level.reset_override(p(3, 1));
    assert_eq!(level.at(p(3, 1)).behaviour, EffectiveTileType::Empty);
    level.reset_override(p(3, 1));
    assert_eq!(level.at(p(3, 1)).behaviour, EffectiveTileType::Empty);
    // an override outside the grid is ignored
    level.set_override(p(2, 7), EffectiveTileType::Blocker);
    assert_eq!(level.at(p(2, 7)).behaviour, EffectiveTileType::Empty);
}

#[test]
fn grid_transform_rounds_to_nearest_cell() {
    let g = GridTransform::new(WorldPos { x: 10_000, y: 11_000 });
    assert_eq!(g.to_world(p(2, 3)), WorldPos { x: 50_000, y: 77_000 });
    assert_eq!(g.cell_of(WorldPos { x: 50_000, y: 77_000 }), p(2, 3));
    assert_eq!(g.cell_of(WorldPos { x: 59_999, y: 87_999 }), p(2, 3));
    assert_eq!(g.cell_of(WorldPos { x: 60_000, y: 88_000 }), p(3, 4));
    assert_eq!(g.cell_of(WorldPos { x: 0, y: 0 }), p(-1, -1));
    assert_eq!(g.snap(WorldPos { x: 53_000, y: 70_000 }), WorldPos { x: 50_000, y: 77_000 });
    let mut h = g;
    h.update(WorldPos { x: 31_000, y: 10_000 });
    assert_eq!(h.translation, p(1, 0));
}
