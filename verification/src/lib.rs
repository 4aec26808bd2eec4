//! An island of terrain tiles and what can be seen of it: bounded-radius
//! visibility by ray casting, the classification of elevations into
//! terrain, the order of work of the heightmap that the island is made
//! from, and the rules of a small tile-based game around them.
//!
//! - `map`: the terrain categories, the square grid, and what blocks sight
//!   and movement.
//! - `ray`, `fov`, `sight`: the line that a ray walks, the window that an
//!   observer sees, and the laws that hold of it.
//! - `terrain`: the bands of terrain by elevation.
//! - `heightmap`: which cells the displacement and the smoothing of the
//!   heightmap set, from which cells, and in which order.
//! - `game`, `items`, `actor`, `spawn`, `ui`, `text`: the state of the game,
//!   the message log, movement, what lies and stands on the map, where new
//!   things are put, and what the screen shows.
//! - `cave`, `disjoint_set`, `pathfinding`: caves grown by a cellular
//!   automaton, and first steps toward path finding.

pub mod map;
pub mod ray;
pub mod fov;
pub mod sight;
pub mod terrain;
pub mod heightmap;
pub mod items;
pub mod actor;
pub mod game;
pub mod spawn;
pub mod ui;
pub mod text;
pub mod pathfinding;
pub mod cave;
pub mod disjoint_set;
