//! Walking a path tile by tile.
//!
//! An entity on the move heads for the first tile of its path. How far it
//! gets within a frame is a matter of its speed and of the time the frame
//! took, and is worked out by whoever keeps its place within the tile. The
//! systems here are told how many tiles were arrived at, and do the rest:
//! they put the entity on the last of them, drop them from the path, and end
//! the move once the path is used up.

use vstd::prelude::*;
use crate::components::{
    Ball, BallState, BallStateView, Cursor, CursorState, Direction, Player, PlayerState,
    PlayerStateView, TileCoord, TilePosition,
};
use crate::resources::{Input, Turn, TurnState};
use crate::systems::{direction_offset, get_input, input_direction, vector_from_direction_i32};
use crate::targets::path_end;

verus! {

/// An entity on its tile with the path still before it.
pub struct Walk {
    pub tile: TileCoord,
    pub path: Seq<TileCoord>,
}

impl Walk {
    /// How many tiles are dropped from the path when `reached` arrivals are
    /// reported: no more than the path holds.
    pub open spec fn arrivals(self, reached: nat) -> nat {
        if reached <= self.path.len() {
            reached
        } else {
            self.path.len()
        }
    }

    /// The walk after `reached` arrivals: the entity stands on the last tile
    /// it arrived at, and the tiles it arrived at are gone from the front of
    /// the path.
    pub open spec fn advanced(self, reached: nat) -> Walk {
        let n = self.arrivals(reached);
        Walk {
            tile: if n == 0 {
                self.tile
            } else {
                self.path[n - 1]
            },
            path: self.path.skip(n as int),
        }
    }

    /// The walk after one frame for each entry of `frames`, which gives the
    /// arrivals of that frame.
    pub open spec fn advanced_over(self, frames: Seq<nat>) -> Walk
        decreases frames.len(),
    {
        if frames.len() == 0 {
            self
        } else {
            self.advanced_over(frames.drop_last()).advanced(frames.last())
        }
    }

    /// The walk is over.
    pub open spec fn is_done(self) -> bool {
        self.path.len() == 0
    }
}

/// The arrivals of all frames together.
pub open spec fn total_arrivals(frames: Seq<nat>) -> nat
    decreases frames.len(),
{
    if frames.len() == 0 {
        0
    } else {
        total_arrivals(frames.drop_last()) + frames.last()
    }
}

/// Arrivals reported in two frames leave the walk where the same arrivals
/// reported in one frame leave it.
pub proof fn lemma_advance_in_two(walk: Walk, first: nat, second: nat)
    ensures
        walk.advanced(first).advanced(second) == walk.advanced(first + second),
{
    let a = walk.arrivals(first);
    let mid = walk.advanced(first);
    let b = mid.arrivals(second);
    assert(walk.arrivals(first + second) == a + b);
    assert(mid.path.skip(b as int) =~= walk.path.skip((a + b) as int));
    if b > 0 {
        assert(mid.path[b - 1] == walk.path[a + b - 1]);
    }
}

/// However the arrivals are spread over the frames, the walk ends where one
/// frame with all of them would have left it.
pub proof fn lemma_advance_over_frames(walk: Walk, frames: Seq<nat>)
    ensures
        walk.advanced_over(frames) == walk.advanced(total_arrivals(frames)),
    decreases frames.len(),
{
    if frames.len() == 0 {
        assert(walk.path.skip(0) =~= walk.path);
    } else {
        lemma_advance_over_frames(walk, frames.drop_last());
        lemma_advance_in_two(walk, total_arrivals(frames.drop_last()), frames.last());
    }
}

/// A walk that is told of an arrival at every tile of its path is over, and
/// the entity stands on the last tile of the path.
pub proof fn lemma_advance_to_end(walk: Walk, reached: nat)
    requires
        reached >= walk.path.len(),
    ensures
        walk.advanced(reached).is_done(),
        walk.advanced(reached).tile == path_end(walk.tile, walk.path),
{
}

/// Two ways of slicing a walk into frames that report the whole path leave
/// the entity on the same tile: the last tile of the path.
pub proof fn lemma_frames_end_alike(walk: Walk, frames: Seq<nat>, other_frames: Seq<nat>)
    requires
        total_arrivals(frames) >= walk.path.len(),
        total_arrivals(other_frames) >= walk.path.len(),
    ensures
        walk.advanced_over(frames) == walk.advanced_over(other_frames),
        walk.advanced_over(frames).is_done(),
        walk.advanced_over(frames).tile == path_end(walk.tile, walk.path),
{
    lemma_advance_over_frames(walk, frames);
    lemma_advance_over_frames(walk, other_frames);
    lemma_advance_to_end(walk, total_arrivals(frames));
    lemma_advance_to_end(walk, total_arrivals(other_frames));
    assert(walk.advanced_over(frames).path =~= walk.advanced_over(other_frames).path);
}

/// The part that every walk shares: a path used up from the front.
pub struct MovementSystem;

impl MovementSystem {
    /// Takes `reached` arrivals off the front of `path` and puts the entity
    /// on the last tile it arrived at. Says whether the path is used up.
    pub fn run(path: &mut Vec<TileCoord>, tile_position: &mut TilePosition, reached: usize) -> (done:
        bool)
        ensures
            (Walk { tile: final(tile_position).pos, path: final(path)@ }) == (Walk {
                tile: old(tile_position).pos,
                path: old(path)@,
            }).advanced(reached as nat),
            done == (final(path)@.len() == 0),
    {
        let ghost walk = Walk { tile: tile_position.pos, path: path@ };
        let mut arrived: usize = 0;
        proof {
            assert(walk.path.skip(0) =~= walk.path);
        }
        while arrived < reached && path.len() > 0
            invariant
                arrived <= reached,
                (Walk { tile: tile_position.pos, path: path@ }) == walk.advanced(arrived as nat),
                arrived < reached ==> arrived <= walk.path.len(),
                arrived == walk.arrivals(arrived as nat),
            decreases path.len(),
        {
            let ghost before = Walk { tile: tile_position.pos, path: path@ };
            let target: TileCoord = path.remove(0);
            tile_position.pos = target;
            proof {
                assert(path@ =~= before.path.skip(1));
                assert((Walk { tile: tile_position.pos, path: path@ }) == before.advanced(1));
                lemma_advance_in_two(walk, arrived as nat, 1);
            }
            arrived += 1;
        }
        proof {
            if arrived < reached {
                assert(walk.advanced(arrived as nat) == walk.advanced(reached as nat));
            }
        }
        path.len() == 0
    }
}

/// Moves the running player along its path.
pub struct PlayerMovementSystem;

impl PlayerMovementSystem {
    /// Tells a player that it arrived at the next `reached` tiles of its
    /// path.
    ///
    /// A running player moves on as `Walk::advanced` says. Once its path is
    /// used up it stands still and the turn goes back to `SelectPlayer`; a
    /// running player whose path was empty from the start ends its run at
    /// once. For a player that stands still nothing changes.
    pub fn run(
        player: &mut Player,
        tile_position: &mut TilePosition,
        turn: &mut Turn,
        reached: usize,
    )
        ensures
            final(player).team == old(player).team,
            match old(player).state@ {
                PlayerStateView::Still => {
                    &&& *final(player) == *old(player)
                    &&& *final(tile_position) == *old(tile_position)
                    &&& *final(turn) == *old(turn)
                },
                PlayerStateView::Running { path } => {
                    let walk = (Walk { tile: old(tile_position).pos, path }).advanced(
                        reached as nat,
                    );
                    &&& final(tile_position).pos == walk.tile
                    &&& if walk.is_done() {
                        &&& final(player).state@ == PlayerStateView::Still
                        &&& final(turn).state == TurnState::SelectPlayer
                    } else {
                        &&& final(player).state@ == (PlayerStateView::Running { path: walk.path })
                        &&& *final(turn) == *old(turn)
                    }
                },
            },
    {
        let mut finished_run: bool = false;
        match &mut player.state {
            PlayerState::Running { path } => {
                finished_run = MovementSystem::run(path, tile_position, reached);
            },
            PlayerState::Still => {},
        }
        if finished_run {
            player.state = PlayerState::Still;
            turn.state = TurnState::SelectPlayer;
        }
    }
}

/// Moves the passed ball along its path.
pub struct BallMovementSystem;

impl BallMovementSystem {
    /// Tells the ball that it arrived at the next `reached` tiles of its
    /// path.
    ///
    /// A moving ball moves on as `Walk::advanced` says. Once its path is used
    /// up it lies free and the turn goes back to `SelectPlayer`; a moving ball
    /// whose path was empty from the start ends its move at once. For a ball
    /// that is free or possessed nothing changes.
    pub fn run(ball: &mut Ball, tile_position: &mut TilePosition, turn: &mut Turn, reached: usize)
        ensures
            match old(ball).state@ {
                BallStateView::Moving { player_id, path } => {
                    let walk = (Walk { tile: old(tile_position).pos, path }).advanced(
                        reached as nat,
                    );
                    &&& final(tile_position).pos == walk.tile
                    &&& if walk.is_done() {
                        &&& final(ball).state@ == BallStateView::Free
                        &&& final(turn).state == TurnState::SelectPlayer
                    } else {
                        &&& final(ball).state@ == (BallStateView::Moving {
                            player_id,
                            path: walk.path,
                        })
                        &&& *final(turn) == *old(turn)
                    }
                },
                _ => {
                    &&& *final(ball) == *old(ball)
                    &&& *final(tile_position) == *old(tile_position)
                    &&& *final(turn) == *old(turn)
                },
            },
    {
        let mut finished_movement: bool = false;
        match &mut ball.state {
            BallState::Moving { player_id: _, path } => {
                finished_movement = MovementSystem::run(path, tile_position, reached);
            },
            _ => {},
        }
        if finished_movement {
            ball.state = BallState::Free;
            turn.state = TurnState::SelectPlayer;
        }
    }
}

/// The tile one step in `direction` from `tile`. There is none where the
/// step would leave the grid to the left or upwards, or leave the range of a
/// coordinate.
pub open spec fn cursor_target(tile: TileCoord, direction: Direction) -> Option<TileCoord> {
    let x = tile.x + direction_offset(direction).0;
    let y = tile.y + direction_offset(direction).1;
    if 0 <= x <= u32::MAX && 0 <= y <= u32::MAX {
        Some(TileCoord { x: x as u32, y: y as u32 })
    } else {
        None
    }
}

/// The state of the cursor once the arrow signals were read: a cursor that
/// is still sets out for the tile one step in the direction asked for, if
/// there is such a tile. A cursor on the move keeps its target.
pub open spec fn steered(state: CursorState, tile: TileCoord, input: Input) -> CursorState {
    match (state, input_direction(input)) {
        (CursorState::Still, Some(direction)) => match cursor_target(tile, direction) {
            Some(target) => CursorState::Moving { direction, target },
            None => CursorState::Still,
        },
        _ => state,
    }
}

/// Moves the cursor from tile to tile.
pub struct CursorMovementSystem;

impl CursorMovementSystem {
    /// Computes the tile one step in `direction` from `tile_pos`.
    pub fn target(tile_pos: &TileCoord, direction: &Direction) -> (target: Option<TileCoord>)
        ensures
            target == cursor_target(*tile_pos, *direction),
    {
        let offset = vector_from_direction_i32(direction);
        let x: i64 = tile_pos.x as i64 + offset.0 as i64;
        let y: i64 = tile_pos.y as i64 + offset.1 as i64;
        if 0 <= x && x <= u32::MAX as i64 && 0 <= y && y <= u32::MAX as i64 {
            Some(TileCoord { x: x as u32, y: y as u32 })
        } else {
            None
        }
    }

    /// Reads the arrow signals: a cursor that is still sets out as `steered`
    /// says.
    pub fn steer(cursor: &mut Cursor, tile_position: &TilePosition, input: &Input)
        ensures
            final(cursor).state == steered(old(cursor).state, tile_position.pos, *input),
    {
        if let CursorState::Still = cursor.state {
            if let Some(direction) = get_input(input) {
                if let Some(target) = Self::target(&tile_position.pos, &direction) {
                    cursor.state = CursorState::Moving { direction, target };
                }
            }
        }
    }

    /// Tells the cursor that it arrived at its target: it stands on that tile
    /// and is still. For a cursor that is still nothing changes.
    pub fn arrive(cursor: &mut Cursor, tile_position: &mut TilePosition)
        ensures
            final(cursor).state == CursorState::Still,
            match old(cursor).state {
                CursorState::Moving { direction, target } => final(tile_position).pos == target,
                CursorState::Still => *final(tile_position) == *old(tile_position),
            },
    {
        if let CursorState::Moving { direction: _, target } = cursor.state {
            tile_position.pos = target;
            cursor.state = CursorState::Still;
        }
    }
}

} // verus!
