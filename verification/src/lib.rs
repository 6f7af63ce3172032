//! A multi-agent snake-game core: a generic layered spatial index, the snake
//! body chain with its growth and movement rules, and the per-tick simulation
//! pipeline that resolves all agents' moves, collisions and food at once.

pub mod direction;
pub mod game;
pub mod laws;
pub mod node;
pub mod point;
pub mod protocol;
pub mod snake;
pub mod spatial;
pub mod terminal;
pub mod world;

use vstd::prelude::*;

verus! {

/// Coordinate type of the grid; world sizes are capped well below its range.
pub type AreaSize = u16;

} // verus!
