use loderunner::geometry::GridPos;
use loderunner::level_asset::{LevelDataAsset, LevelTile, TileType};
use loderunner::navmesh::{NavMesh, NavTile};
use loderunner::pathfinding::{astar_pathfind, heuristic, isqrt, PathfindingError};
use loderunner::resources::LevelResource;

fn p(x: i32, y: i32) -> GridPos {
    GridPos::new(x, y)
}

/// A fully connected open grid with the given cells left out.
fn open_grid(w: i32, h: i32, walls: &[GridPos]) -> NavMesh {
    let mut cells = Vec::new();
    for y in 0..h {
        for x in 0..w {
            if !walls.contains(&p(x, y)) {
                cells.push(p(x, y));
            }
        }
    }
    let mut tiles = Vec::new();
    for c in &cells {
        let mut connections = Vec::new();
        for (dx, dy) in [(-1, 0), (1, 0), (0, 1), (0, -1)] {
            let n = p(c.x + dx, c.y + dy);
            if let Some(i) = cells.iter().position(|q| *q == n) {
                connections.push(i);
            }
        }
        tiles.push(NavTile { pos: *c, connections });
    }
    NavMesh { tiles }
}

#[test]
fn integer_square_roots() {
    assert_eq!(isqrt(0), 0);
    assert_eq!(isqrt(1), 1);
    assert_eq!(isqrt(10), 3);
    assert_eq!(isqrt(16), 4);
    assert_eq!(isqrt(1u128 << 80), 1u64 << 40);
    assert_eq!(heuristic(p(0, 0), p(3, 4)), 5 * 1024);
    assert_eq!(heuristic(p(0, 0), p(1, 1)), 1448);
    assert_eq!(heuristic(p(2, 2), p(2, 2)), 0);
}

#[test]
fn astar_detours_around_wall_segment() {
    let walls = [p(2, 0), p(2, 1), p(2, 2)];
    let mesh = open_grid(5, 5, &walls);
    let route = astar_pathfind(p(0, 0), p(4, 0), &mesh).ok().expect("a route exists");
    assert_eq!(route[0], p(0, 0));
    let path: Vec<GridPos> = route[1..].to_vec();
    // four steps across and three up and down around the wall
    assert_eq!(path.len(), 10);
    let first = path[0];
    assert_eq!((first.x - 0).abs() + (first.y - 0).abs(), 1);
    assert_eq!(*path.last().unwrap(), p(4, 0));
    for pair in route.windows(2) {
        assert_eq!((pair[0].x - pair[1].x).abs() + (pair[0].y - pair[1].y).abs(), 1);
        assert!(!walls.contains(&pair[1]));
    }
}

#[test]
fn astar_detours_over_a_taller_wall() {
    let walls = [p(2, 0), p(2, 1), p(2, 2), p(2, 3)];
    let mesh = open_grid(5, 5, &walls);
    let route = astar_pathfind(p(0, 0), p(4, 0), &mesh).ok().unwrap();
    assert_eq!(route.len(), 13);
    assert_eq!(route[0], p(0, 0));
    assert!(route[1] == p(1, 0) || route[1] == p(0, 1));
    assert_eq!(route[12], p(4, 0));
    assert!(route.contains(&p(2, 4)));
    for i in 0..route.len() {
        for j in (i + 1)..route.len() {
            assert_ne!(route[i], route[j]);
        }
    }
}

#[test]
fn astar_straight_line_when_open() {
    let mesh = open_grid(5, 5, &[]);
    let route = astar_pathfind(p(0, 0), p(4, 0), &mesh).ok().unwrap();
    assert_eq!(route, vec![p(0, 0), p(1, 0), p(2, 0), p(3, 0), p(4, 0)]);
}

#[test]
fn astar_to_own_cell_is_that_cell() {
    let mesh = open_grid(3, 3, &[]);
    let route = astar_pathfind(p(1, 1), p(1, 1), &mesh).ok().unwrap();
    assert_eq!(route, vec![p(1, 1)]);
}

#[test]
fn astar_fails_when_walled_off() {
    let walls = [p(2, 0), p(2, 1), p(2, 2), p(2, 3), p(2, 4)];
    let mesh = open_grid(5, 5, &walls);
    assert_eq!(astar_pathfind(p(0, 0), p(4, 0), &mesh).err(), Some(PathfindingError::NotFound));
}

#[test]
fn astar_fails_when_start_is_not_a_node() {
    let mesh = open_grid(3, 3, &[p(0, 0)]);
    assert_eq!(astar_pathfind(p(0, 0), p(2, 2), &mesh).err(), Some(PathfindingError::NotFound));
    assert_eq!(astar_pathfind(p(7, 7), p(2, 2), &mesh).err(), Some(PathfindingError::NotFound));
}

fn level_of(w: i32, h: i32, tiles: &[(TileType, GridPos)]) -> LevelResource {
    let mut asset = LevelDataAsset::new();
    asset.width = w;
    asset.height = h;
    for (t, pos) in tiles {
        asset.tiles.push(LevelTile::new(*t, *pos));
    }
    LevelResource::from_asset(&asset)
}

#[test]
fn navmesh_nodes_and_links_follow_cell_kinds() {
    // row 0: brick floor; row 1: open, ladder, rope; row 2: open
    let level = level_of(
        3,
        3,
        &[
            (TileType::Brick, p(0, 0)),
            (TileType::Brick, p(1, 0)),
            (TileType::Brick, p(2, 0)),
            (TileType::Ladder, p(1, 1)),
            (TileType::Rope, p(2, 1)),
        ],
    );
    let mesh = NavMesh::from_level(&level);
    let positions: Vec<GridPos> = mesh.tiles.iter().map(|t| t.pos).collect();
    assert_eq!(positions, vec![p(0, 1), p(1, 1), p(2, 1), p(0, 2), p(1, 2), p(2, 2)]);
    let linked = |i: usize| -> Vec<GridPos> { mesh.tiles[i].connections.iter().map(|j| mesh.tiles[*j].pos).collect() };
    // an open cell: below (a brick, skipped), left (the wall, skipped), right
    assert_eq!(linked(0), vec![p(1, 1)]);
    // a ladder: left, right, above; below is a brick
    assert_eq!(linked(1), vec![p(0, 1), p(2, 1), p(1, 2)]);
    // a rope: left; right is the wall, below is a brick
    assert_eq!(linked(2), vec![p(1, 1)]);
    // open cells on the top row: below, left, right
    assert_eq!(linked(3), vec![p(0, 1), p(1, 2)]);
    assert_eq!(linked(4), vec![p(1, 1), p(0, 2), p(2, 2)]);
    assert_eq!(mesh.get_tile_index_by_pos(p(1, 2)), Some(4));
    assert_eq!(mesh.get_tile_index_by_pos(p(1, 0)), None);
    assert_eq!(mesh.get_tile_by_index(2).map(|t| t.pos), Some(p(2, 1)));
    assert!(mesh.get_tile_by_index(6).is_none());
}

#[test]
fn navmesh_route_climbs_ladder() {
    let level = level_of(
        3,
        3,
        &[
            (TileType::Brick, p(0, 0)),
            (TileType::Brick, p(1, 0)),
            (TileType::Brick, p(2, 0)),
            (TileType::Ladder, p(1, 1)),
            (TileType::Brick, p(0, 1)),
        ],
    );
    let mesh = NavMesh::from_level(&level);
    let route = astar_pathfind(p(2, 1), p(0, 2), &mesh).ok().unwrap();
    assert_eq!(route, vec![p(2, 1), p(1, 1), p(1, 2), p(0, 2)]);
    assert!(astar_pathfind(p(2, 1), p(2, 2), &mesh).is_ok());
    // no link leads up from an open cell
    let level2 = level_of(2, 3, &[(TileType::Brick, p(0, 0)), (TileType::Brick, p(1, 0))]);
    let mesh2 = NavMesh::from_level(&level2);
    assert_eq!(astar_pathfind(p(0, 1), p(0, 2), &mesh2).err(), Some(PathfindingError::NotFound));
}
