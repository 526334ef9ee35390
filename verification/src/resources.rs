//! What the match holds once: the input signals, the map and the turn.

use vstd::prelude::*;
use crate::components::{EntityId, TileCoord};

verus! {

/// The input signals of one frame. `select` and `cancel` are pulses: they
/// hold for the frame in which they were given.
#[derive(Clone, Copy, Debug, PartialEq, Eq, Structural)]
pub struct Input {
    pub up: bool,
    pub down: bool,
    pub left: bool,
    pub right: bool,
    pub select: bool,
    pub cancel: bool,
    pub w: bool,
    pub a: bool,
    pub s: bool,
    pub d: bool,
}

impl Default for Input {
    fn default() -> (input: Self)
        ensures
            input == Input::released(),
    {
        Self {
            up: false,
            down: false,
            left: false,
            right: false,
            select: false,
            cancel: false,
            w: false,
            a: false,
            s: false,
            d: false,
        }
    }
}

impl Input {
    /// No signal is given.
    pub open spec fn released() -> Input {
        Input {
            up: false,
            down: false,
            left: false,
            right: false,
            select: false,
            cancel: false,
            w: false,
            a: false,
            s: false,
            d: false,
        }
    }
}

/// The size of the map in tiles.
#[derive(Clone, Copy, Debug, PartialEq, Eq, Structural)]
pub struct TileMap {
    pub width: u32,
    pub height: u32,
}

impl TileMap {
    /// The tile lies on the map.
    pub open spec fn covers(self, tile: TileCoord) -> bool {
        tile.x < self.width && tile.y < self.height
    }
}

/// The phase of the turn, with the entities it is about.
#[derive(Clone, Copy, Debug, PartialEq, Eq, Structural)]
pub enum TurnState {
    SelectPlayer,
    ActionMenu { player_id: EntityId },
    SelectRun { player_id: EntityId },
    Running { player_id: EntityId },
    SelectPass { player_id: EntityId, ball_id: EntityId },
    Passing { player_id: EntityId, ball_id: EntityId },
}

#[derive(Clone, Copy, Debug, PartialEq, Eq, Structural)]
pub struct Turn {
    pub state: TurnState,
}

} // verus!
