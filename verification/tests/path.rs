use tbf::components::{CanMove, Placed, TileCoord, TilePosition};
use tbf::path::PathSelectSystem;
use tbf::resources::TileMap;
use tbf::targets::{calculate_pass_targets, calculate_run_targets};

fn tile(x: u32, y: u32) -> TileCoord {
    TileCoord { x, y }
}

fn pitch() -> TileMap {
    TileMap { width: 20, height: 12 }
}

fn selection_at(start: TileCoord, distance: u32) -> CanMove {
    CanMove {
        start,
        distance,
        dests: calculate_run_targets(&start, &pitch(), distance, &vec![]),
        path: Vec::new(),
    }
}

fn move_cursor(can_move: &mut CanMove, to: TileCoord) {
    PathSelectSystem::run(&pitch(), &TilePosition { pos: to }, can_move);
}

fn assert_valid(can_move: &CanMove) {
    let path = &can_move.path;
    assert!(path.len() <= can_move.distance as usize);
    for (i, step) in path.iter().enumerate() {
        let before = if i == 0 { can_move.start } else { path[i - 1] };
        let dx = if before.x > step.x { before.x - step.x } else { step.x - before.x };
        let dy = if before.y > step.y { before.y - step.y } else { step.y - before.y };
        assert_eq!(dx + dy, 1);
        assert!(can_move.dests.contains(step));
        assert_ne!(*step, can_move.start);
        assert!(!path[..i].contains(step));
    }
}

#[test]
fn path_grows_by_adjacent_destinations() {
    let mut can_move = selection_at(tile(2, 2), 4);
    move_cursor(&mut can_move, tile(3, 2));
    move_cursor(&mut can_move, tile(4, 2));
    move_cursor(&mut can_move, tile(4, 3));
    assert_eq!(can_move.path, vec![tile(3, 2), tile(4, 2), tile(4, 3)]);
}

#[test]
fn path_is_cut_when_the_cursor_moves_back_onto_it() {
    let a = tile(3, 2);
    let b = tile(4, 2);
    let c = tile(5, 2);
    let d = tile(6, 2);
    let mut can_move = selection_at(tile(2, 2), 4);
    for step in [a, b, c, d] {
        move_cursor(&mut can_move, step);
    }
    assert_eq!(can_move.path, vec![a, b, c, d]);
    move_cursor(&mut can_move, b);
    assert_eq!(can_move.path, vec![a, b]);
}

#[test]
fn path_is_dropped_when_the_cursor_is_back_on_the_start() {
    let mut can_move = selection_at(tile(2, 2), 4);
    move_cursor(&mut can_move, tile(3, 2));
    move_cursor(&mut can_move, tile(3, 3));
    move_cursor(&mut can_move, tile(2, 2));
    assert_eq!(can_move.path, vec![]);
}

#[test]
fn path_does_not_grow_beyond_the_distance() {
    let mut can_move = selection_at(tile(2, 2), 2);
    can_move.dests = calculate_run_targets(&tile(2, 2), &pitch(), 4, &vec![]);
    move_cursor(&mut can_move, tile(3, 2));
    move_cursor(&mut can_move, tile(4, 2));
    move_cursor(&mut can_move, tile(5, 2));
    assert_eq!(can_move.path, vec![tile(3, 2), tile(4, 2)]);
}

#[test]
fn path_does_not_jump_to_a_tile_that_is_not_adjacent() {
    let mut can_move = selection_at(tile(2, 2), 4);
    move_cursor(&mut can_move, tile(4, 2));
    assert_eq!(can_move.path, vec![]);
    move_cursor(&mut can_move, tile(3, 2));
    move_cursor(&mut can_move, tile(4, 3));
    assert_eq!(can_move.path, vec![tile(3, 2)]);
}

#[test]
fn path_does_not_take_a_tile_that_is_no_destination() {
    let mut can_move = selection_at(tile(2, 2), 4);
    can_move.dests = vec![tile(2, 2), tile(3, 2)];
    move_cursor(&mut can_move, tile(2, 3));
    assert_eq!(can_move.path, vec![]);
    move_cursor(&mut can_move, tile(3, 2));
    move_cursor(&mut can_move, tile(4, 2));
    assert_eq!(can_move.path, vec![tile(3, 2)]);
}

#[test]
fn path_is_left_alone_by_a_cursor_that_rests() {
    let mut can_move = selection_at(tile(2, 2), 4);
    move_cursor(&mut can_move, tile(3, 2));
    move_cursor(&mut can_move, tile(3, 3));
    let once = can_move.clone();
    move_cursor(&mut can_move, tile(3, 3));
    assert_eq!(can_move, once);
    move_cursor(&mut can_move, tile(9, 9));
    move_cursor(&mut can_move, tile(9, 9));
    assert_eq!(can_move, once);
}

#[test]
fn path_edit_touches_nothing_but_the_path() {
    let mut can_move = selection_at(tile(2, 2), 4);
    let before = can_move.clone();
    move_cursor(&mut can_move, tile(2, 3));
    assert_eq!(can_move.start, before.start);
    assert_eq!(can_move.distance, before.distance);
    assert_eq!(can_move.dests, before.dests);
    assert_eq!(can_move.path, vec![tile(2, 3)]);
}

#[test]
fn path_stays_valid_under_a_wandering_cursor() {
    let mut can_move = selection_at(tile(5, 5), 4);
    // A fixed walk that loops, backtracks, leaves the destinations and returns.
    let moves: [(i32, i32); 40] = [
        (1, 0), (1, 0), (0, 1), (-1, 0), (0, -1), (0, -1), (1, 0), (1, 0), (1, 0), (0, 1),
        (0, 1), (-1, 0), (-1, 0), (-1, 0), (-1, 0), (0, -1), (0, -1), (-1, 0), (0, 1), (1, 0),
        (1, 0), (0, 1), (0, 1), (0, 1), (1, 0), (0, -1), (0, -1), (0, -1), (-1, 0), (-1, 0),
        (0, 1), (1, 0), (1, 0), (1, 0), (1, 0), (1, 0), (-1, 0), (0, -1), (-1, 0), (-1, 0),
    ];
    let mut cursor = tile(5, 5);
    for (dx, dy) in moves {
        cursor = tile((cursor.x as i32 + dx) as u32, (cursor.y as i32 + dy) as u32);
        move_cursor(&mut can_move, cursor);
        assert_valid(&can_move);
    }
}

#[test]
fn path_along_the_edge_of_the_map_stays_on_the_map() {
    let map = TileMap { width: 3, height: 1 };
    let start = tile(0, 0);
    let mut can_move = CanMove {
        start,
        distance: 4,
        dests: vec![start, tile(1, 0), tile(2, 0), tile(3, 0)],
        path: Vec::new(),
    };
    for x in 1..4 {
        PathSelectSystem::run(&map, &TilePosition { pos: tile(x, 0) }, &mut can_move);
    }
    assert_eq!(can_move.path, vec![tile(1, 0), tile(2, 0)]);
}

#[test]
fn path_of_a_run_goes_round_the_players() {
    let start = tile(2, 2);
    let players = vec![Placed { id: 0, pos: start }, Placed { id: 1, pos: tile(3, 2) }];
    let mut can_move = CanMove {
        start,
        distance: 4,
        dests: calculate_run_targets(&start, &pitch(), 4, &players),
        path: Vec::new(),
    };
    move_cursor(&mut can_move, tile(3, 2));
    assert_eq!(can_move.path, vec![]);
    for step in [tile(2, 3), tile(3, 3), tile(4, 3), tile(4, 2)] {
        move_cursor(&mut can_move, step);
    }
    assert_eq!(can_move.path, vec![tile(2, 3), tile(3, 3), tile(4, 3), tile(4, 2)]);
    move_cursor(&mut can_move, tile(3, 2));
    assert_eq!(can_move.path, vec![tile(2, 3), tile(3, 3), tile(4, 3), tile(4, 2)]);
}

#[test]
fn path_of_a_pass_is_a_straight_line() {
    let start = tile(5, 5);
    let mut can_move = CanMove {
        start,
        distance: 8,
        dests: calculate_pass_targets(&start, &pitch(), 8),
        path: Vec::new(),
    };
    move_cursor(&mut can_move, tile(6, 5));
    move_cursor(&mut can_move, tile(6, 6));
    assert_eq!(can_move.path, vec![tile(6, 5)]);
    move_cursor(&mut can_move, tile(7, 5));
    move_cursor(&mut can_move, tile(7, 4));
    move_cursor(&mut can_move, tile(8, 5));
    assert_eq!(can_move.path, vec![tile(6, 5), tile(7, 5), tile(8, 5)]);
    // Seven steps is as far as a pass of distance eight goes.
    for x in 9..14 {
        move_cursor(&mut can_move, tile(x, 5));
    }
    assert_eq!(can_move.path.len(), 7);
    assert_eq!(can_move.path.last(), Some(&tile(12, 5)));
}
