//! Simulation core of a hexagonal tile-matching puzzle: the board of half-hex
//! cells, the cursor state machine, the hex movement table and the tweened
//! swap animations.
pub mod board;
pub mod half_hex;
pub mod geometry;
pub mod cursor;
pub mod animation;
pub mod state;
pub mod render;
