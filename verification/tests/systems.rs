use tbf::components::{
    Ball, BallState, CanMove, Cursor, CursorState, Direction, Placed, Player, PlayerState,
    PlayerTeam, TileCoord, TilePosition,
};
use tbf::resources::{Input, TileMap, Turn, TurnState};
use tbf::systems::{
    find_player_on, find_position, get_input, selecting_entity, tile_to_subtile,
    vector_from_direction_i32,
    ActionMenuSystem, MenuChoice, PassSelectSystem, PlayerSelectSystem, RunSelectSystem,
    BALL_PASS_DISTANCE, PLAYER_MOVE_DISTANCE, TILE_SIZE,
};
use tbf::targets::{calculate_pass_targets, calculate_run_targets};

fn tile(x: u32, y: u32) -> TileCoord {
    TileCoord { x, y }
}

fn pitch() -> TileMap {
    TileMap { width: 20, height: 12 }
}

fn arrows(left: bool, up: bool, right: bool, down: bool) -> Input {
    Input { left, up, right, down, ..Input::default() }
}

fn select() -> Input {
    Input { select: true, ..Input::default() }
}

fn cancel() -> Input {
    Input { cancel: true, ..Input::default() }
}

fn players() -> Vec<Placed> {
    vec![
        Placed { id: 1, pos: tile(2, 2) },
        Placed { id: 2, pos: tile(4, 4) },
        Placed { id: 3, pos: tile(2, 6) },
    ]
}

fn still() -> Cursor {
    Cursor { state: CursorState::Still }
}

fn free_ball() -> Ball {
    Ball { state: BallState::Free }
}

fn red() -> Player {
    Player { state: PlayerState::Still, team: PlayerTeam::Red }
}

fn picked(start: TileCoord, path: Vec<TileCoord>) -> Option<CanMove> {
    Some(CanMove { start, distance: 4, dests: path.clone(), path })
}

#[test]
fn constants_of_the_match() {
    assert_eq!(TILE_SIZE, 64);
    assert_eq!(PLAYER_MOVE_DISTANCE, 4);
    assert_eq!(BALL_PASS_DISTANCE, 8);
}

#[test]
fn subtile_of_a_tile_is_its_corner() {
    assert_eq!(tile_to_subtile(&tile(0, 0)), (0, 0));
    assert_eq!(tile_to_subtile(&tile(2, 4)), (128, 256));
    assert_eq!(
        tile_to_subtile(&tile(u32::MAX, 1)),
        (u32::MAX as u64 * 64, 64)
    );
}

#[test]
fn input_of_one_arrow_is_its_direction() {
    assert_eq!(get_input(&arrows(true, false, false, false)), Some(Direction::Left));
    assert_eq!(get_input(&arrows(false, true, false, false)), Some(Direction::Up));
    assert_eq!(get_input(&arrows(false, false, true, false)), Some(Direction::Right));
    assert_eq!(get_input(&arrows(false, false, false, true)), Some(Direction::Down));
}

#[test]
fn input_of_two_neighbouring_arrows_is_the_diagonal() {
    assert_eq!(get_input(&arrows(true, true, false, false)), Some(Direction::UpLeft));
    assert_eq!(get_input(&arrows(false, true, true, false)), Some(Direction::UpRight));
    assert_eq!(get_input(&arrows(false, false, true, true)), Some(Direction::DownRight));
    assert_eq!(get_input(&arrows(true, false, false, true)), Some(Direction::DownLeft));
}

#[test]
fn input_of_no_or_opposed_arrows_is_no_direction() {
    assert_eq!(get_input(&arrows(false, false, false, false)), None);
    assert_eq!(get_input(&arrows(true, false, true, false)), None);
    assert_eq!(get_input(&arrows(false, true, false, true)), None);
    assert_eq!(get_input(&arrows(true, true, true, false)), None);
    assert_eq!(get_input(&arrows(true, true, true, true)), None);
    assert_eq!(get_input(&select()), None);
}

#[test]
fn direction_vectors_point_down_for_growing_y() {
    assert_eq!(vector_from_direction_i32(&Direction::Left), (-1, 0));
    assert_eq!(vector_from_direction_i32(&Direction::UpLeft), (-1, -1));
    assert_eq!(vector_from_direction_i32(&Direction::Up), (0, -1));
    assert_eq!(vector_from_direction_i32(&Direction::UpRight), (1, -1));
    assert_eq!(vector_from_direction_i32(&Direction::Right), (1, 0));
    assert_eq!(vector_from_direction_i32(&Direction::DownRight), (1, 1));
    assert_eq!(vector_from_direction_i32(&Direction::Down), (0, 1));
    assert_eq!(vector_from_direction_i32(&Direction::DownLeft), (-1, 1));
}

#[test]
fn finding_players_by_tile_and_by_name() {
    let mut all = players();
    all.push(Placed { id: 9, pos: tile(4, 4) });
    all.push(Placed { id: 1, pos: tile(7, 7) });
    assert_eq!(find_player_on(&all, &tile(4, 4)), Some(2));
    assert_eq!(find_player_on(&all, &tile(7, 7)), Some(1));
    assert_eq!(find_player_on(&all, &tile(0, 0)), None);
    assert_eq!(find_position(&all, 1), Some(tile(2, 2)));
    assert_eq!(find_position(&all, 9), Some(tile(4, 4)));
    assert_eq!(find_position(&all, 5), None);
}

#[test]
fn select_on_a_player_opens_its_action_menu() {
    let mut turn = Turn { state: TurnState::SelectPlayer };
    PlayerSelectSystem::run(&select(), &mut turn, &TilePosition { pos: tile(4, 4) }, &players());
    assert_eq!(turn.state, TurnState::ActionMenu { player_id: 2 });
}

#[test]
fn select_on_an_empty_tile_selects_nobody() {
    let mut turn = Turn { state: TurnState::SelectPlayer };
    PlayerSelectSystem::run(&select(), &mut turn, &TilePosition { pos: tile(5, 5) }, &players());
    assert_eq!(turn.state, TurnState::SelectPlayer);
}

#[test]
fn no_select_signal_selects_nobody() {
    let mut turn = Turn { state: TurnState::SelectPlayer };
    PlayerSelectSystem::run(&cancel(), &mut turn, &TilePosition { pos: tile(4, 4) }, &players());
    assert_eq!(turn.state, TurnState::SelectPlayer);
}

#[test]
fn player_select_acts_in_its_own_phase_only() {
    let mut turn = Turn { state: TurnState::Running { player_id: 1 } };
    PlayerSelectSystem::run(&select(), &mut turn, &TilePosition { pos: tile(4, 4) }, &players());
    assert_eq!(turn.state, TurnState::Running { player_id: 1 });
}

#[test]
fn menu_shortcuts_are_select_for_run_and_cancel_for_cancel() {
    assert_eq!(ActionMenuSystem::shortcut(&select()), Some(MenuChoice::Run));
    assert_eq!(ActionMenuSystem::shortcut(&cancel()), Some(MenuChoice::Cancel));
    assert_eq!(
        ActionMenuSystem::shortcut(&Input { select: true, cancel: true, ..Input::default() }),
        Some(MenuChoice::Run)
    );
    assert_eq!(ActionMenuSystem::shortcut(&Input::default()), None);
}

#[test]
fn menu_run_begins_a_run_selection() {
    let mut turn = Turn { state: TurnState::ActionMenu { player_id: 1 } };
    let mut can_move = None;
    ActionMenuSystem::run(
        &mut turn,
        Some(MenuChoice::Run),
        &pitch(),
        &players(),
        7,
        &free_ball(),
        &TilePosition { pos: tile(2, 4) },
        &mut can_move,
    );
    assert_eq!(turn.state, TurnState::SelectRun { player_id: 1 });
    let can_move = can_move.unwrap();
    assert_eq!(can_move.start, tile(2, 2));
    assert_eq!(can_move.distance, 4);
    assert_eq!(can_move.path, vec![]);
    assert_eq!(can_move.dests, calculate_run_targets(&tile(2, 2), &pitch(), 4, &players()));
    assert!(can_move.dests.contains(&tile(2, 2)));
    assert!(!can_move.dests.contains(&tile(4, 4)));
    assert!(!can_move.dests.contains(&tile(2, 6)));
}

#[test]
fn menu_run_for_an_unknown_player_changes_nothing() {
    let mut turn = Turn { state: TurnState::ActionMenu { player_id: 42 } };
    let mut can_move = None;
    ActionMenuSystem::run(
        &mut turn,
        Some(MenuChoice::Run),
        &pitch(),
        &players(),
        7,
        &free_ball(),
        &TilePosition { pos: tile(2, 4) },
        &mut can_move,
    );
    assert_eq!(turn.state, TurnState::ActionMenu { player_id: 42 });
    assert_eq!(can_move, None);
}

#[test]
fn menu_pass_begins_a_pass_selection_for_the_player_with_the_ball() {
    let mut turn = Turn { state: TurnState::ActionMenu { player_id: 3 } };
    let mut can_move = None;
    let ball = Ball { state: BallState::Possessed { player_id: 3 } };
    ActionMenuSystem::run(
        &mut turn,
        Some(MenuChoice::Pass),
        &pitch(),
        &players(),
        7,
        &ball,
        &TilePosition { pos: tile(2, 6) },
        &mut can_move,
    );
    assert_eq!(turn.state, TurnState::SelectPass { player_id: 3, ball_id: 7 });
    assert_eq!(
        can_move,
        Some(CanMove {
            start: tile(2, 6),
            distance: 8,
            dests: calculate_pass_targets(&tile(2, 6), &pitch(), 8),
            path: vec![],
        })
    );
}

#[test]
fn menu_pass_without_the_ball_changes_nothing() {
    for state in [
        BallState::Free,
        BallState::Possessed { player_id: 1 },
        BallState::Moving { player_id: 3, path: vec![tile(2, 7)] },
    ] {
        let mut turn = Turn { state: TurnState::ActionMenu { player_id: 3 } };
        let mut can_move = None;
        ActionMenuSystem::run(
            &mut turn,
            Some(MenuChoice::Pass),
            &pitch(),
            &players(),
            7,
            &Ball { state },
            &TilePosition { pos: tile(2, 6) },
            &mut can_move,
        );
        assert_eq!(turn.state, TurnState::ActionMenu { player_id: 3 });
        assert_eq!(can_move, None);
    }
}

#[test]
fn menu_cancel_goes_back_to_player_selection() {
    let mut turn = Turn { state: TurnState::ActionMenu { player_id: 1 } };
    let mut can_move = None;
    ActionMenuSystem::run(
        &mut turn,
        Some(MenuChoice::Cancel),
        &pitch(),
        &players(),
        7,
        &free_ball(),
        &TilePosition { pos: tile(2, 4) },
        &mut can_move,
    );
    assert_eq!(turn.state, TurnState::SelectPlayer);
    assert_eq!(can_move, None);
}

#[test]
fn menu_without_a_choice_waits() {
    let mut turn = Turn { state: TurnState::ActionMenu { player_id: 1 } };
    let mut can_move = None;
    ActionMenuSystem::run(
        &mut turn,
        None,
        &pitch(),
        &players(),
        7,
        &free_ball(),
        &TilePosition { pos: tile(2, 4) },
        &mut can_move,
    );
    assert_eq!(turn.state, TurnState::ActionMenu { player_id: 1 });
    assert_eq!(can_move, None);
}

#[test]
fn menu_acts_in_its_own_phase_only() {
    let mut turn = Turn { state: TurnState::SelectPlayer };
    let mut can_move = None;
    ActionMenuSystem::run(
        &mut turn,
        Some(MenuChoice::Run),
        &pitch(),
        &players(),
        7,
        &free_ball(),
        &TilePosition { pos: tile(2, 4) },
        &mut can_move,
    );
    assert_eq!(turn.state, TurnState::SelectPlayer);
    assert_eq!(can_move, None);
}

#[test]
fn run_is_confirmed_at_the_end_of_the_path() {
    let mut turn = Turn { state: TurnState::SelectRun { player_id: 1 } };
    let mut can_move = picked(tile(2, 2), vec![tile(3, 2), tile(4, 2)]);
    let mut player = red();
    RunSelectSystem::run(
        &select(),
        &mut turn,
        &mut can_move,
        &still(),
        &TilePosition { pos: tile(4, 2) },
        &mut player,
    );
    assert_eq!(turn.state, TurnState::Running { player_id: 1 });
    assert_eq!(player.state, PlayerState::Running { path: vec![tile(3, 2), tile(4, 2)] });
    assert_eq!(player.team, PlayerTeam::Red);
    assert_eq!(can_move, None);
}

#[test]
fn run_is_not_confirmed_away_from_the_end_of_the_path() {
    for cursor_pos in [tile(3, 2), tile(2, 2), tile(9, 9)] {
        let mut turn = Turn { state: TurnState::SelectRun { player_id: 1 } };
        let mut can_move = picked(tile(2, 2), vec![tile(3, 2), tile(4, 2)]);
        let mut player = red();
        RunSelectSystem::run(
            &select(),
            &mut turn,
            &mut can_move,
            &still(),
            &TilePosition { pos: cursor_pos },
            &mut player,
        );
        assert_eq!(turn.state, TurnState::SelectRun { player_id: 1 });
        assert_eq!(player, red());
        assert_eq!(can_move, picked(tile(2, 2), vec![tile(3, 2), tile(4, 2)]));
    }
}

#[test]
fn run_is_not_confirmed_with_an_empty_path() {
    let mut turn = Turn { state: TurnState::SelectRun { player_id: 1 } };
    let mut can_move = picked(tile(2, 2), vec![]);
    let mut player = red();
    RunSelectSystem::run(
        &select(),
        &mut turn,
        &mut can_move,
        &still(),
        &TilePosition { pos: tile(2, 2) },
        &mut player,
    );
    assert_eq!(turn.state, TurnState::SelectRun { player_id: 1 });
    assert_eq!(player, red());
    assert_eq!(can_move, picked(tile(2, 2), vec![]));
}

#[test]
fn run_is_not_confirmed_while_the_cursor_moves() {
    let mut turn = Turn { state: TurnState::SelectRun { player_id: 1 } };
    let mut can_move = picked(tile(2, 2), vec![tile(3, 2)]);
    let mut player = red();
    let cursor = Cursor {
        state: CursorState::Moving { direction: Direction::Right, target: tile(4, 2) },
    };
    RunSelectSystem::run(
        &select(),
        &mut turn,
        &mut can_move,
        &cursor,
        &TilePosition { pos: tile(3, 2) },
        &mut player,
    );
    assert_eq!(turn.state, TurnState::SelectRun { player_id: 1 });
    assert_eq!(player, red());
    assert_eq!(can_move, picked(tile(2, 2), vec![tile(3, 2)]));
}

#[test]
fn run_selection_is_dropped_on_cancel() {
    let mut turn = Turn { state: TurnState::SelectRun { player_id: 1 } };
    let mut can_move = picked(tile(2, 2), vec![tile(3, 2)]);
    let mut player = red();
    RunSelectSystem::run(
        &cancel(),
        &mut turn,
        &mut can_move,
        &still(),
        &TilePosition { pos: tile(3, 2) },
        &mut player,
    );
    assert_eq!(turn.state, TurnState::SelectPlayer);
    assert_eq!(player, red());
    assert_eq!(can_move, None);
}

#[test]
fn run_cancel_without_a_selection_still_goes_back() {
    let mut turn = Turn { state: TurnState::SelectRun { player_id: 1 } };
    let mut can_move = None;
    let mut player = red();
    RunSelectSystem::run(
        &cancel(),
        &mut turn,
        &mut can_move,
        &still(),
        &TilePosition { pos: tile(3, 2) },
        &mut player,
    );
    assert_eq!(turn.state, TurnState::SelectPlayer);
    assert_eq!(can_move, None);
    RunSelectSystem::run(
        &cancel(),
        &mut turn,
        &mut can_move,
        &still(),
        &TilePosition { pos: tile(3, 2) },
        &mut player,
    );
    assert_eq!(turn.state, TurnState::SelectPlayer);
    assert_eq!(can_move, None);
}

#[test]
fn run_select_without_a_selection_changes_nothing() {
    let mut turn = Turn { state: TurnState::SelectRun { player_id: 1 } };
    let mut can_move = None;
    let mut player = red();
    RunSelectSystem::run(
        &select(),
        &mut turn,
        &mut can_move,
        &still(),
        &TilePosition { pos: tile(3, 2) },
        &mut player,
    );
    assert_eq!(turn.state, TurnState::SelectRun { player_id: 1 });
    assert_eq!(player, red());
    assert_eq!(can_move, None);
}

#[test]
fn run_select_goes_before_cancel() {
    let both = Input { select: true, cancel: true, ..Input::default() };
    let mut turn = Turn { state: TurnState::SelectRun { player_id: 1 } };
    let mut can_move = picked(tile(2, 2), vec![tile(3, 2)]);
    let mut player = red();
    RunSelectSystem::run(
        &both,
        &mut turn,
        &mut can_move,
        &still(),
        &TilePosition { pos: tile(9, 9) },
        &mut player,
    );
    assert_eq!(turn.state, TurnState::SelectRun { player_id: 1 });
    assert_eq!(can_move, picked(tile(2, 2), vec![tile(3, 2)]));
}

#[test]
fn run_select_acts_in_its_own_phase_only() {
    let mut turn = Turn { state: TurnState::SelectPass { player_id: 1, ball_id: 7 } };
    let mut can_move = picked(tile(2, 2), vec![tile(3, 2)]);
    let mut player = red();
    RunSelectSystem::run(
        &select(),
        &mut turn,
        &mut can_move,
        &still(),
        &TilePosition { pos: tile(3, 2) },
        &mut player,
    );
    assert_eq!(turn.state, TurnState::SelectPass { player_id: 1, ball_id: 7 });
    assert_eq!(player, red());
    assert_eq!(can_move, picked(tile(2, 2), vec![tile(3, 2)]));
}

#[test]
fn pass_is_confirmed_at_the_end_of_the_path() {
    let mut turn = Turn { state: TurnState::SelectPass { player_id: 3, ball_id: 7 } };
    let mut can_move = picked(tile(2, 6), vec![tile(3, 6), tile(4, 6)]);
    let mut ball = Ball { state: BallState::Possessed { player_id: 3 } };
    PassSelectSystem::run(
        &select(),
        &mut turn,
        &mut can_move,
        &still(),
        &TilePosition { pos: tile(4, 6) },
        &mut ball,
    );
    assert_eq!(turn.state, TurnState::Passing { player_id: 3, ball_id: 7 });
    assert_eq!(
        ball.state,
        BallState::Moving { player_id: 3, path: vec![tile(3, 6), tile(4, 6)] }
    );
    assert_eq!(can_move, None);
}

#[test]
fn pass_is_not_confirmed_away_from_the_end_of_the_path() {
    let mut turn = Turn { state: TurnState::SelectPass { player_id: 3, ball_id: 7 } };
    let mut can_move = picked(tile(2, 6), vec![tile(3, 6), tile(4, 6)]);
    let mut ball = Ball { state: BallState::Possessed { player_id: 3 } };
    PassSelectSystem::run(
        &select(),
        &mut turn,
        &mut can_move,
        &still(),
        &TilePosition { pos: tile(3, 6) },
        &mut ball,
    );
    assert_eq!(turn.state, TurnState::SelectPass { player_id: 3, ball_id: 7 });
    assert_eq!(ball.state, BallState::Possessed { player_id: 3 });
    assert_eq!(can_move, picked(tile(2, 6), vec![tile(3, 6), tile(4, 6)]));
}

#[test]
fn pass_selection_is_dropped_on_cancel() {
    let mut turn = Turn { state: TurnState::SelectPass { player_id: 3, ball_id: 7 } };
    let mut can_move = picked(tile(2, 6), vec![tile(3, 6)]);
    let mut ball = Ball { state: BallState::Possessed { player_id: 3 } };
    PassSelectSystem::run(
        &cancel(),
        &mut turn,
        &mut can_move,
        &still(),
        &TilePosition { pos: tile(3, 6) },
        &mut ball,
    );
    assert_eq!(turn.state, TurnState::SelectPlayer);
    assert_eq!(ball.state, BallState::Possessed { player_id: 3 });
    assert_eq!(can_move, None);
}

#[test]
fn pass_select_acts_in_its_own_phase_only() {
    let mut turn = Turn { state: TurnState::SelectRun { player_id: 3 } };
    let mut can_move = picked(tile(2, 6), vec![tile(3, 6)]);
    let mut ball = Ball { state: BallState::Possessed { player_id: 3 } };
    PassSelectSystem::run(
        &select(),
        &mut turn,
        &mut can_move,
        &still(),
        &TilePosition { pos: tile(3, 6) },
        &mut ball,
    );
    assert_eq!(turn.state, TurnState::SelectRun { player_id: 3 });
    assert_eq!(ball.state, BallState::Possessed { player_id: 3 });
    assert_eq!(can_move, picked(tile(2, 6), vec![tile(3, 6)]));
}

#[test]
fn selection_is_carried_by_the_player_in_a_run_and_by_the_ball_in_a_pass() {
    assert_eq!(selecting_entity(&TurnState::SelectRun { player_id: 3 }), Some(3));
    assert_eq!(selecting_entity(&TurnState::SelectPass { player_id: 3, ball_id: 7 }), Some(7));
    assert_eq!(selecting_entity(&TurnState::SelectPlayer), None);
    assert_eq!(selecting_entity(&TurnState::ActionMenu { player_id: 3 }), None);
    assert_eq!(selecting_entity(&TurnState::Running { player_id: 3 }), None);
    assert_eq!(selecting_entity(&TurnState::Passing { player_id: 3, ball_id: 7 }), None);
}
