//! Tile-grid movement, destructible terrain and guard pathfinding for a
//! two-dimensional platform game, with their contracts proved by Verus.
pub mod ai;
pub mod burn;
pub mod gameplay;
pub mod geometry;
pub mod level_asset;
pub mod movement;
pub mod navmesh;
pub mod overlaps;
pub mod pathfinding;
pub mod resources;
pub mod world;
