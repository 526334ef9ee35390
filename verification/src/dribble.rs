//! The ball at a player's feet.

use vstd::prelude::*;
use crate::components::{Ball, BallState, BallStateView, EntityId, Placed, TilePosition, TileCoord};
use crate::systems::{find_position, position_of};
use crate::targets::occupied;

verus! {

/// Entry `at` is the last of `players` that stands on `tile`.
pub open spec fn is_last_on(players: Seq<Placed>, tile: TileCoord, at: int) -> bool {
    &&& 0 <= at < players.len()
    &&& players[at].pos == tile
    &&& forall|j: int| at < j < players.len() ==> players[j].pos != tile
}

/// The last of `players` that stands on `tile`, if any does.
pub open spec fn last_player_on(players: Seq<Placed>, tile: TileCoord) -> Option<EntityId> {
    if occupied(players, tile) {
        Some(players[choose|at: int| is_last_on(players, tile, at)].id)
    } else {
        None
    }
}

/// Keeps the ball with the player who has it.
pub struct BallDribbleSystem;

impl BallDribbleSystem {
    /// Couples the ball to the players for one frame.
    ///
    /// A free ball on a tile where players stand is possessed by the last of
    /// them; its tile is not touched. A possessed ball is put on the tile of
    /// the player who has it, and that player is returned: the ball is to
    /// take over the player's place within the tile as well. A possessed ball
    /// whose player is not among `players` stays where it is. A moving ball
    /// is left alone.
    pub fn run(ball: &mut Ball, ball_pos: &mut TilePosition, players: &Vec<Placed>) -> (carrier:
        Option<EntityId>)
        ensures
            match old(ball).state@ {
                BallStateView::Free => {
                    &&& carrier is None
                    &&& *final(ball_pos) == *old(ball_pos)
                    &&& final(ball).state@ == match last_player_on(players@, old(ball_pos).pos) {
                        Some(player_id) => BallStateView::Possessed { player_id },
                        None => BallStateView::Free,
                    }
                },
                BallStateView::Possessed { player_id } => {
                    &&& *final(ball) == *old(ball)
                    &&& match position_of(players@, player_id) {
                        Some(tile) => final(ball_pos).pos == tile && carrier == Some(player_id),
                        None => *final(ball_pos) == *old(ball_pos) && carrier is None,
                    }
                },
                BallStateView::Moving { .. } => {
                    &&& carrier is None
                    &&& *final(ball) == *old(ball)
                    &&& *final(ball_pos) == *old(ball_pos)
                },
            },
    {
        match ball.state {
            BallState::Free => {
                let mut i: usize = 0;
                let mut found: Option<EntityId> = None;
                while i < players.len()
                    invariant
                        i <= players.len(),
                        found is None ==> forall|j: int| 0 <= j < i ==> players@[j].pos != ball_pos.pos,
                        found matches Some(id) ==> exists|at: int|
                            0 <= at < i && players@[at].pos == ball_pos.pos && players@[at].id == id
                                && forall|j: int| at < j < i ==> players@[j].pos != ball_pos.pos,
                    decreases players.len() - i,
                {
                    if players[i].pos == ball_pos.pos {
                        found = Some(players[i].id);
                    }
                    i += 1;
                }
                proof {
                    if let Some(id) = found {
                        let at = choose|at: int|
                            0 <= at < i && players@[at].pos == ball_pos.pos && players@[at].id == id
                                && forall|j: int| at < j < i ==> players@[j].pos != ball_pos.pos;
                        assert(is_last_on(players@, ball_pos.pos, at));
                        let chosen = choose|at: int| is_last_on(players@, ball_pos.pos, at);
                        if chosen < at {
                            assert(players@[at].pos != ball_pos.pos);
                        } else if chosen > at {
                            assert(players@[chosen].pos != ball_pos.pos);
                        }
                    }
                }
                if let Some(player_id) = found {
                    ball.state = BallState::Possessed { player_id };
                }
                None
            },
            BallState::Possessed { player_id } => {
                match find_position(players, player_id) {
                    Some(tile) => {
                        ball_pos.pos = tile;
                        Some(player_id)
                    },
                    None => None,
                }
            },
            BallState::Moving { .. } => None,
        }
    }
}

} // verus!
