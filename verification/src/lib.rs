//! Rules of a turn-based football match on a tile grid: whose turn it is and
//! in which phase, which tiles a player can run to or a ball can be passed
//! to, how a path is picked with the cursor, and how a confirmed path is
//! walked tile by tile.
//!
//! The library holds no clock, window or entity store. Every system takes the
//! components it works on as plain values and states in its contract what it
//! leaves behind.

pub mod components;
pub mod resources;
pub mod targets;
pub mod path;
pub mod systems;
pub mod movement;
pub mod dribble;
pub mod frame;
pub mod cursor;
pub mod render;
