//! What an entity of the match can carry.

use vstd::prelude::*;

verus! {

/// Names an entity: a player, the ball or the cursor.
pub type EntityId = u32;

/// A cell of the map grid. The origin is the top-left cell, `x` grows to the
/// right and `y` grows downwards.
#[derive(Clone, Copy, Debug, PartialEq, Eq, Structural, Hash)]
pub struct TileCoord {
    pub x: u32,
    pub y: u32,
}

/// The tile an entity stands on.
#[derive(Clone, Copy, Debug, PartialEq, Eq, Structural)]
pub struct TilePosition {
    pub pos: TileCoord,
}

/// An entity together with the tile it stands on.
#[derive(Clone, Copy, Debug, PartialEq, Eq, Structural)]
pub struct Placed {
    pub id: EntityId,
    pub pos: TileCoord,
}

#[derive(Clone, Copy, Debug, PartialEq, Eq, Structural)]
pub enum Direction {
    Left,
    UpLeft,
    Up,
    UpRight,
    Right,
    DownRight,
    Down,
    DownLeft,
}

/// The cursor rests on its tile, or is on its way to the tile `target`, one
/// step in `direction` from the tile it left.
#[derive(Clone, Copy, Debug, PartialEq, Eq, Structural)]
pub enum CursorState {
    Still,
    Moving { direction: Direction, target: TileCoord },
}

#[derive(Clone, Copy, Debug, PartialEq, Eq, Structural)]
pub struct Cursor {
    pub state: CursorState,
}

/// A running player heads for the first tile of `path` and drops it on
/// arrival.
#[derive(Clone, Debug, PartialEq, Eq)]
pub enum PlayerState {
    Still,
    Running { path: Vec<TileCoord> },
}

/// A `PlayerState` with its path as a plain sequence.
pub enum PlayerStateView {
    Still,
    Running { path: Seq<TileCoord> },
}

impl View for PlayerState {
    type V = PlayerStateView;

    open spec fn view(&self) -> PlayerStateView {
        match *self {
            PlayerState::Still => PlayerStateView::Still,
            PlayerState::Running { path } => PlayerStateView::Running { path: path@ },
        }
    }
}

#[derive(Clone, Copy, Debug, PartialEq, Eq, Structural)]
pub enum PlayerTeam {
    Red,
    Blue,
}

#[derive(Clone, Debug, PartialEq, Eq)]
pub struct Player {
    pub state: PlayerState,
    pub team: PlayerTeam,
}

/// A selection in progress: the tiles that the selected entity may end on and
/// the path picked so far.
#[derive(Clone, Debug, PartialEq, Eq)]
pub struct CanMove {
    /// The tile of the entity when the selection began.
    pub start: TileCoord,
    /// The longest path that may be picked.
    pub distance: u32,
    /// The tiles that a path may visit.
    pub dests: Vec<TileCoord>,
    /// The path picked so far, nearest tile first.
    pub path: Vec<TileCoord>,
}

/// The ball lies free, is carried by a player, or flies along the rest of a
/// pass that `player_id` played.
#[derive(Clone, Debug, PartialEq, Eq)]
pub enum BallState {
    Free,
    Possessed { player_id: EntityId },
    Moving { player_id: EntityId, path: Vec<TileCoord> },
}

/// A `BallState` with its path as a plain sequence.
pub enum BallStateView {
    Free,
    Possessed { player_id: EntityId },
    Moving { player_id: EntityId, path: Seq<TileCoord> },
}

impl View for BallState {
    type V = BallStateView;

    open spec fn view(&self) -> BallStateView {
        match *self {
            BallState::Free => BallStateView::Free,
            BallState::Possessed { player_id } => BallStateView::Possessed { player_id },
            BallState::Moving { player_id, path } => BallStateView::Moving {
                player_id,
                path: path@,
            },
        }
    }
}

#[derive(Clone, Debug, PartialEq, Eq)]
pub struct Ball {
    pub state: BallState,
}

} // verus!
