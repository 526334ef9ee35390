//! The systems that read the input and move the turn from phase to phase.

use vstd::prelude::*;
use crate::components::{
    Ball, BallState, BallStateView, CanMove, Cursor, CursorState, Direction, EntityId, Placed,
    Player, PlayerState, PlayerStateView, TileCoord, TilePosition,
};
use crate::path::{lemma_moves_keep_frame, lemma_moves_keep_valid, Selection};
use crate::resources::{Input, TileMap, Turn, TurnState};
use crate::render::direction_between;
use crate::targets::{
    adjacent, calculate_pass_targets, calculate_run_targets, is_pass_target, is_run_targets,
    lemma_occupied_not_reachable, manhattan, occupied, pass_targets, step_origin,
};

verus! {

/// The side of a tile in sub-tile units.
pub const TILE_SIZE: u32 = 64;

/// The number of steps a player can run in one turn.
pub const PLAYER_MOVE_DISTANCE: u32 = 4;

/// The distance that bounds a pass.
pub const BALL_PASS_DISTANCE: u32 = 8;

/// The corner of a tile in sub-tile units.
pub open spec fn subtile_of(tile: TileCoord) -> (int, int) {
    (tile.x * TILE_SIZE, tile.y * TILE_SIZE)
}

/// The place of a tile's corner in sub-tile space, where a tile is
/// `TILE_SIZE` units wide and high.
pub fn tile_to_subtile(tile_pos: &TileCoord) -> (sub: (u64, u64))
    ensures
        (sub.0 as int, sub.1 as int) == subtile_of(*tile_pos),
{
    let side: u64 = TILE_SIZE as u64;
    assert(side == 64);
    (tile_pos.x as u64 * side, tile_pos.y as u64 * side)
}

/// The direction that the four arrow signals ask for: one signal alone gives
/// its own direction, two signals that are neighbours give the diagonal
/// between them, and every other combination gives none.
pub open spec fn input_direction(input: Input) -> Option<Direction> {
    match (input.left, input.up, input.right, input.down) {
        (true, false, false, false) => Some(Direction::Left),
        (true, true, false, false) => Some(Direction::UpLeft),
        (false, true, false, false) => Some(Direction::Up),
        (false, true, true, false) => Some(Direction::UpRight),
        (false, false, true, false) => Some(Direction::Right),
        (false, false, true, true) => Some(Direction::DownRight),
        (false, false, false, true) => Some(Direction::Down),
        (true, false, false, true) => Some(Direction::DownLeft),
        _ => None,
    }
}

/// Reads the direction off the arrow signals.
pub fn get_input(input: &Input) -> (direction: Option<Direction>)
    ensures
        direction == input_direction(*input),
{
    match (input.left, input.up, input.right, input.down) {
        (true, false, false, false) => Some(Direction::Left),
        (true, true, false, false) => Some(Direction::UpLeft),
        (false, true, false, false) => Some(Direction::Up),
        (false, true, true, false) => Some(Direction::UpRight),
        (false, false, true, false) => Some(Direction::Right),
        (false, false, true, true) => Some(Direction::DownRight),
        (false, false, false, true) => Some(Direction::Down),
        (true, false, false, true) => Some(Direction::DownLeft),
        _ => None,
    }
}

/// One step in a direction, in tiles: `x` grows to the right and `y`
/// downwards.
pub open spec fn direction_offset(direction: Direction) -> (int, int) {
    match direction {
        Direction::Left => (-1, 0),
        Direction::UpLeft => (-1, -1),
        Direction::Up => (0, -1),
        Direction::UpRight => (1, -1),
        Direction::Right => (1, 0),
        Direction::DownRight => (1, 1),
        Direction::Down => (0, 1),
        Direction::DownLeft => (-1, 1),
    }
}

/// One step in `direction`, in tiles.
pub fn vector_from_direction_i32(direction: &Direction) -> (offset: (i32, i32))
    ensures
        (offset.0 as int, offset.1 as int) == direction_offset(*direction),
{
    match *direction {
        Direction::Left => (-1, 0),
        Direction::UpLeft => (-1, -1),
        Direction::Up => (0, -1),
        Direction::UpRight => (1, -1),
        Direction::Right => (1, 0),
        Direction::DownRight => (1, 1),
        Direction::Down => (0, 1),
        Direction::DownLeft => (-1, 1),
    }
}

/// Entry `at` is the first of `players` that stands on `tile`.
pub open spec fn is_first_on(players: Seq<Placed>, tile: TileCoord, at: int) -> bool {
    &&& 0 <= at < players.len()
    &&& players[at].pos == tile
    &&& forall|j: int| 0 <= j < at ==> players[j].pos != tile
}

/// The first of `players` that stands on `tile`, if any does.
pub open spec fn first_player_on(players: Seq<Placed>, tile: TileCoord) -> Option<EntityId> {
    if occupied(players, tile) {
        Some(players[choose|at: int| is_first_on(players, tile, at)].id)
    } else {
        None
    }
}

/// Entry `at` is the first of `players` that is named `id`.
pub open spec fn is_first_named(players: Seq<Placed>, id: EntityId, at: int) -> bool {
    &&& 0 <= at < players.len()
    &&& players[at].id == id
    &&& forall|j: int| 0 <= j < at ==> players[j].id != id
}

/// `id` names one of `players`.
pub open spec fn is_player(players: Seq<Placed>, id: EntityId) -> bool {
    exists|i: int| 0 <= i < players.len() && (#[trigger] players[i]).id == id
}

/// The tile on which the player named `id` stands: that of the first entry
/// of `players` with this name, if there is one.
pub open spec fn position_of(players: Seq<Placed>, id: EntityId) -> Option<TileCoord> {
    if is_player(players, id) {
        Some(players[choose|at: int| is_first_named(players, id, at)].pos)
    } else {
        None
    }
}

/// Finds the first of `players` that stands on `tile`.
pub fn find_player_on(players: &Vec<Placed>, tile: &TileCoord) -> (found: Option<EntityId>)
    ensures
        found == first_player_on(players@, *tile),
        found matches Some(id) ==> exists|at: int|
            is_first_on(players@, *tile, at) && players@[at].id == id,
{
    let mut i: usize = 0;
    while i < players.len()
        invariant
            i <= players.len(),
            forall|j: int| 0 <= j < i ==> players@[j].pos != *tile,
        decreases players.len() - i,
    {
        if players[i].pos == *tile {
            proof {
                assert(is_first_on(players@, *tile, i as int));
                let chosen = choose|at: int| is_first_on(players@, *tile, at);
                if chosen < i {
                    assert(players@[chosen].pos != *tile);
                } else if chosen > i {
                    assert(players@[i as int].pos != *tile);
                }
            }
            return Some(players[i].id);
        }
        i += 1;
    }
    None
}

/// Finds the tile on which the player named `id` stands.
pub fn find_position(players: &Vec<Placed>, id: EntityId) -> (found: Option<TileCoord>)
    ensures
        found == position_of(players@, id),
        found matches Some(tile) ==> exists|at: int|
            is_first_named(players@, id, at) && players@[at].pos == tile,
{
    let mut i: usize = 0;
    while i < players.len()
        invariant
            i <= players.len(),
            forall|j: int| 0 <= j < i ==> players@[j].id != id,
        decreases players.len() - i,
    {
        if players[i].id == id {
            proof {
                assert(is_first_named(players@, id, i as int));
                let chosen = choose|at: int| is_first_named(players@, id, at);
                if chosen < i {
                    assert(players@[chosen].id != id);
                } else if chosen > i {
                    assert(players@[i as int].id != id);
                }
            }
            return Some(players[i].pos);
        }
        i += 1;
    }
    None
}

/// The phase after the player-select system has run: from `SelectPlayer`, a
/// select signal with the cursor on a player opens the action menu of the
/// first such player. Anything else leaves the phase as it is.
pub open spec fn after_player_select(
    state: TurnState,
    select: bool,
    cursor_pos: TileCoord,
    players: Seq<Placed>,
) -> TurnState {
    if state == TurnState::SelectPlayer && select {
        match first_player_on(players, cursor_pos) {
            Some(player_id) => TurnState::ActionMenu { player_id },
            None => state,
        }
    } else {
        state
    }
}

/// Picks the player under the cursor.
pub struct PlayerSelectSystem;

impl PlayerSelectSystem {
    /// Moves the turn as `after_player_select` says.
    pub fn run(input: &Input, turn: &mut Turn, cursor_pos: &TilePosition, players: &Vec<Placed>)
        ensures
            final(turn).state == after_player_select(
                old(turn).state,
                input.select,
                cursor_pos.pos,
                players@,
            ),
    {
        if let TurnState::SelectPlayer = turn.state {
            if input.select {
                if let Some(player_id) = find_player_on(players, &cursor_pos.pos) {
                    turn.state = TurnState::ActionMenu { player_id };
                }
            }
        }
    }
}

/// What the player chose in the action menu.
#[derive(Clone, Copy, Debug, PartialEq, Eq, Structural)]
pub enum MenuChoice {
    Run,
    Pass,
    Cancel,
}

/// The selection in a slot, if the slot holds one.
pub open spec fn selection_of(can_move: Option<CanMove>) -> Option<Selection> {
    match can_move {
        Some(can_move) => Some(can_move@),
        None => None,
    }
}

/// The entity for which a path is being picked in phase `state`: the player
/// while a run is picked, the ball while a pass is.
pub open spec fn selecting(state: TurnState) -> Option<EntityId> {
    match state {
        TurnState::SelectRun { player_id } => Some(player_id),
        TurnState::SelectPass { player_id, ball_id } => Some(ball_id),
        _ => None,
    }
}

/// Names the entity that carries the selection in phase `state`.
pub fn selecting_entity(state: &TurnState) -> (entity: Option<EntityId>)
    ensures
        entity == selecting(*state),
{
    match state {
        TurnState::SelectRun { player_id } => Some(*player_id),
        TurnState::SelectPass { player_id: _, ball_id } => Some(*ball_id),
        _ => None,
    }
}

/// The slot holds a selection exactly while a path is being picked, so that
/// at most one entity, the one that the phase names, carries one.
pub open spec fn slot_fits_phase(state: TurnState, can_move: Option<CanMove>) -> bool {
    can_move is Some <==> selecting(state) is Some
}

/// `selection` is what a run from `start` begins with: no path yet, the
/// distance a player can run, and as destinations the tiles that a run from
/// `start` reaches, each once and nearest first.
pub open spec fn is_run_selection(
    selection: Selection,
    map: TileMap,
    players: Seq<Placed>,
    start: TileCoord,
) -> bool {
    &&& selection.start == start
    &&& selection.distance == PLAYER_MOVE_DISTANCE
    &&& selection.path.len() == 0
    &&& is_run_targets(map, players, start, PLAYER_MOVE_DISTANCE as nat, selection.dests)
}

/// A path picked from a run selection keeps clear of the players: it is
/// valid, so each of its tiles is a destination other than the start, and a
/// destination of a run is a tile that a run reaches.
pub proof fn lemma_run_path_avoids_players(
    selection: Selection,
    map: TileMap,
    players: Seq<Placed>,
    cursors: Seq<TileCoord>,
)
    requires
        is_run_selection(selection, map, players, selection.start),
    ensures
        selection.moved_along(map, cursors).is_valid(map),
        forall|i: int|
            0 <= i < selection.moved_along(map, cursors).path.len() ==> !occupied(
                players,
                #[trigger] selection.moved_along(map, cursors).path[i],
            ),
{
    let picked = selection.moved_along(map, cursors);
    lemma_moves_keep_valid(selection, map, cursors);
    lemma_moves_keep_frame(selection, map, cursors);
    assert forall|i: int| 0 <= i < picked.path.len() implies !occupied(
        players,
        #[trigger] picked.path[i],
    ) by {
        let tile = picked.path[i];
        assert(picked.dests.contains(tile));
        assert(picked.path.contains(tile));
        if occupied(players, tile) {
            lemma_occupied_not_reachable(
                map,
                players,
                selection.start,
                PLAYER_MOVE_DISTANCE as nat,
                tile,
            );
        }
    }
}

/// What a pass from `start` begins with: no path yet, the distance of a
/// pass, and as destinations the tiles a pass from `start` can end on.
pub open spec fn pass_selection(map: TileMap, start: TileCoord) -> Selection {
    Selection {
        start,
        distance: BALL_PASS_DISTANCE as nat,
        dests: pass_targets(map, start, BALL_PASS_DISTANCE as nat),
        path: Seq::empty(),
    }
}

/// The tile at position `i` of a path lies `i + 1` steps from the start, in
/// the straight direction in which the path set out.
pub open spec fn is_straight_step(start: TileCoord, path: Seq<TileCoord>, i: int) -> bool {
    &&& manhattan(start, path[i]) == i + 1
    &&& direction_between(start, path[i]) is Some
    &&& direction_between(start, path[i]) == direction_between(start, path[0])
}

/// A path picked for a pass is a straight line from the ball: the
/// destinations of a pass lie on the row and the column of the start, and a
/// valid path cannot turn back on itself.
pub proof fn lemma_pass_path_is_straight(selection: Selection, map: TileMap, i: int)
    requires
        selection.is_valid(map),
        forall|tile: TileCoord|
            selection.dests.contains(tile) ==> #[trigger] is_pass_target(
                map,
                selection.start,
                selection.distance,
                tile,
            ),
        0 <= i < selection.path.len(),
    ensures
        is_straight_step(selection.start, selection.path, i),
    decreases i,
{
    let start = selection.start;
    let path = selection.path;
    assert(selection.dests.contains(path[i]));
    assert(is_pass_target(map, start, selection.distance, path[i]));
    assert(adjacent(map, step_origin(start, path, i), path[i]));
    if i > 0 {
        lemma_pass_path_is_straight(selection, map, i - 1);
        assert(selection.dests.contains(path[i - 1]));
        assert(is_pass_target(map, start, selection.distance, path[i - 1]));
        if i == 1 {
            assert(path.contains(path[i]));
            assert(path[i] != start);
        } else {
            lemma_pass_path_is_straight(selection, map, i - 2);
            assert(path[i] != path[i - 2]);
        }
    }
}

/// The choice that the select and cancel signals stand for while the action
/// menu is open: select runs, cancel cancels, and select goes first.
pub open spec fn shortcut_choice(input: Input) -> Option<MenuChoice> {
    if input.select {
        Some(MenuChoice::Run)
    } else if input.cancel {
        Some(MenuChoice::Cancel)
    } else {
        None
    }
}

/// Opens a run or a pass from the action menu, or closes the menu.
pub struct ActionMenuSystem;

impl ActionMenuSystem {
    /// Reads a menu choice off the select and cancel signals.
    pub fn shortcut(input: &Input) -> (choice: Option<MenuChoice>)
        ensures
            choice == shortcut_choice(*input),
    {
        if input.select {
            Some(MenuChoice::Run)
        } else if input.cancel {
            Some(MenuChoice::Cancel)
        } else {
            None
        }
    }

    /// Acts on `choice` while the action menu of a player is open.
    ///
    /// `Run` begins a run selection at the player's tile and moves the turn
    /// to `SelectRun`. `Pass` begins a pass selection at the ball's tile and
    /// moves the turn to `SelectPass`, if that player has the ball. `Cancel`
    /// moves the turn back to `SelectPlayer`. Outside the action menu, with no
    /// choice, with a player that is not among `players`, or with a pass by a
    /// player who has not got the ball, nothing changes.
    ///
    /// `can_move` is the one slot for the selection in progress: the entity
    /// that the new phase names carries what is put there.
    pub fn run(
        turn: &mut Turn,
        choice: Option<MenuChoice>,
        map: &TileMap,
        players: &Vec<Placed>,
        ball_id: EntityId,
        ball: &Ball,
        ball_pos: &TilePosition,
        can_move: &mut Option<CanMove>,
    )
        ensures
            slot_fits_phase(old(turn).state, *old(can_move)) ==> slot_fits_phase(
                final(turn).state,
                *final(can_move),
            ),
            match (old(turn).state, choice) {
                (TurnState::ActionMenu { player_id }, Some(MenuChoice::Run)) => match position_of(
                    players@,
                    player_id,
                ) {
                    Some(start) => {
                        &&& final(turn).state == TurnState::SelectRun { player_id }
                        &&& selection_of(*final(can_move)) matches Some(selection)
                        &&& is_run_selection(selection, *map, players@, start)
                    },
                    None => {
                        &&& final(turn).state == old(turn).state
                        &&& *final(can_move) == *old(can_move)
                    },
                },
                (TurnState::ActionMenu { player_id }, Some(MenuChoice::Pass)) => if ball.state@
                    == (BallStateView::Possessed { player_id }) {
                    &&& final(turn).state == TurnState::SelectPass { player_id, ball_id }
                    &&& selection_of(*final(can_move)) == Some(pass_selection(*map, ball_pos.pos))
                } else {
                    &&& final(turn).state == old(turn).state
                    &&& *final(can_move) == *old(can_move)
                },
                (TurnState::ActionMenu { player_id }, Some(MenuChoice::Cancel)) => {
                    &&& final(turn).state == TurnState::SelectPlayer
                    &&& *final(can_move) == *old(can_move)
                },
                _ => {
                    &&& final(turn).state == old(turn).state
                    &&& *final(can_move) == *old(can_move)
                },
            },
    {
        if let TurnState::ActionMenu { player_id } = turn.state {
            match choice {
                Some(MenuChoice::Run) => {
                    if let Some(player_pos) = find_position(players, player_id) {
                        let dests = calculate_run_targets(
                            &player_pos,
                            map,
                            PLAYER_MOVE_DISTANCE,
                            players,
                        );
                        *can_move = Some(
                            CanMove {
                                start: player_pos,
                                distance: PLAYER_MOVE_DISTANCE,
                                dests,
                                path: Vec::new(),
                            },
                        );
                        turn.state = TurnState::SelectRun { player_id };
                    }
                },
                Some(MenuChoice::Pass) => {
                    if let BallState::Possessed { player_id: possessed_by } = ball.state {
                        if player_id == possessed_by {
                            let dests = calculate_pass_targets(
                                &ball_pos.pos,
                                map,
                                BALL_PASS_DISTANCE,
                            );
                            *can_move = Some(
                                CanMove {
                                    start: ball_pos.pos,
                                    distance: BALL_PASS_DISTANCE,
                                    dests,
                                    path: Vec::new(),
                                },
                            );
                            turn.state = TurnState::SelectPass { player_id, ball_id };
                        }
                    }
                },
                Some(MenuChoice::Cancel) => {
                    turn.state = TurnState::SelectPlayer;
                },
                None => {},
            }
        }
    }
}

/// The cursor rests on the last tile of a path that is not empty.
pub open spec fn at_end_of_path(can_move: Option<Selection>, cursor_pos: TileCoord) -> bool {
    can_move matches Some(selection) && selection.path.len() > 0 && selection.path.last()
        == cursor_pos
}

/// The select signal confirms the selection: the cursor is still and rests
/// on the end of the path.
pub open spec fn confirms(
    input: Input,
    cursor: Cursor,
    cursor_pos: TileCoord,
    can_move: Option<Selection>,
) -> bool {
    input.select && cursor.state == CursorState::Still && at_end_of_path(can_move, cursor_pos)
}

/// The cancel signal drops the selection. A select signal in the same frame
/// goes first, whether it confirms or not.
pub open spec fn cancels(input: Input) -> bool {
    !input.select && input.cancel
}

fn is_at_end_of_path(can_move: &Option<CanMove>, cursor_pos: &TileCoord) -> (at_end: bool)
    ensures
        at_end == at_end_of_path(selection_of(*can_move), *cursor_pos),
{
    match can_move {
        Some(can_move) => {
            let len: usize = can_move.path.len();
            len > 0 && can_move.path[len - 1] == *cursor_pos
        },
        None => false,
    }
}

/// Ends the picking of a run: by a confirmed path or by a cancel.
pub struct RunSelectSystem;

impl RunSelectSystem {
    /// Acts on the select and cancel signals while a run is being picked.
    ///
    /// `player` is the player that `SelectRun` names and `can_move` the slot
    /// of the selection. A select signal that confirms hands the picked path
    /// to the player, who starts to run, empties the slot and moves the turn
    /// to `Running`. A select signal that does not confirm changes nothing.
    /// A cancel signal empties the slot and moves the turn back to
    /// `SelectPlayer`, whether or not the slot held a selection. In any other
    /// phase nothing changes.
    pub fn run(
        input: &Input,
        turn: &mut Turn,
        can_move: &mut Option<CanMove>,
        cursor: &Cursor,
        cursor_pos: &TilePosition,
        player: &mut Player,
    )
        ensures
            final(player).team == old(player).team,
            slot_fits_phase(old(turn).state, *old(can_move)) ==> slot_fits_phase(
                final(turn).state,
                *final(can_move),
            ),
            match old(turn).state {
                TurnState::SelectRun { player_id } => if confirms(
                    *input,
                    *cursor,
                    cursor_pos.pos,
                    selection_of(*old(can_move)),
                ) {
                    &&& final(turn).state == TurnState::Running { player_id }
                    &&& final(player).state@ == (PlayerStateView::Running {
                        path: selection_of(*old(can_move))->0.path,
                    })
                    &&& *final(can_move) is None
                } else if cancels(*input) {
                    &&& final(turn).state == TurnState::SelectPlayer
                    &&& *final(player) == *old(player)
                    &&& *final(can_move) is None
                } else {
                    &&& final(turn).state == old(turn).state
                    &&& *final(player) == *old(player)
                    &&& *final(can_move) == *old(can_move)
                },
                _ => {
                    &&& final(turn).state == old(turn).state
                    &&& *final(player) == *old(player)
                    &&& *final(can_move) == *old(can_move)
                },
            },
    {
        if let TurnState::SelectRun { player_id } = turn.state {
            if input.select {
                if cursor.state == CursorState::Still && is_at_end_of_path(
                    can_move,
                    &cursor_pos.pos,
                ) {
                    let picked = can_move.take().unwrap();
                    turn.state = TurnState::Running { player_id };
                    player.state = PlayerState::Running { path: picked.path };
                }
            } else if input.cancel {
                *can_move = None;
                turn.state = TurnState::SelectPlayer;
            }
        }
    }
}

/// Ends the picking of a pass: by a confirmed path or by a cancel.
pub struct PassSelectSystem;

impl PassSelectSystem {
    /// Acts on the select and cancel signals while a pass is being picked.
    ///
    /// `ball` is the ball that `SelectPass` names and `can_move` the slot of
    /// the selection. A select signal that confirms hands the picked path to
    /// the ball, which starts to move, empties the slot and moves the turn to
    /// `Passing`. A select signal that does not confirm changes nothing. A
    /// cancel signal empties the slot and moves the turn back to
    /// `SelectPlayer`, whether or not the slot held a selection. In any other
    /// phase nothing changes.
    pub fn run(
        input: &Input,
        turn: &mut Turn,
        can_move: &mut Option<CanMove>,
        cursor: &Cursor,
        cursor_pos: &TilePosition,
        ball: &mut Ball,
    )
        ensures
            slot_fits_phase(old(turn).state, *old(can_move)) ==> slot_fits_phase(
                final(turn).state,
                *final(can_move),
            ),
            match old(turn).state {
                TurnState::SelectPass { player_id, ball_id } => if confirms(
                    *input,
                    *cursor,
                    cursor_pos.pos,
                    selection_of(*old(can_move)),
                ) {
                    &&& final(turn).state == TurnState::Passing { player_id, ball_id }
                    &&& final(ball).state@ == (BallStateView::Moving {
                        player_id,
                        path: selection_of(*old(can_move))->0.path,
                    })
                    &&& *final(can_move) is None
                } else if cancels(*input) {
                    &&& final(turn).state == TurnState::SelectPlayer
                    &&& *final(ball) == *old(ball)
                    &&& *final(can_move) is None
                } else {
                    &&& final(turn).state == old(turn).state
                    &&& *final(ball) == *old(ball)
                    &&& *final(can_move) == *old(can_move)
                },
                _ => {
                    &&& final(turn).state == old(turn).state
                    &&& *final(ball) == *old(ball)
                    &&& *final(can_move) == *old(can_move)
                },
            },
    {
        if let TurnState::SelectPass { player_id, ball_id } = turn.state {
            if input.select {
                if cursor.state == CursorState::Still && is_at_end_of_path(
                    can_move,
                    &cursor_pos.pos,
                ) {
                    let picked = can_move.take().unwrap();
                    turn.state = TurnState::Passing { player_id, ball_id };
                    ball.state = BallState::Moving { player_id, path: picked.path };
                }
            } else if input.cancel {
                *can_move = None;
                turn.state = TurnState::SelectPlayer;
            }
        }
    }
}

} // verus!
