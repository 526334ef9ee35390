//! Which piece of the path image marks each tile of a picked path.

use vstd::prelude::*;
use crate::components::{Direction, TileCoord};
use crate::path::Selection;
use crate::resources::TileMap;
use crate::targets::{adjacent, step_origin};

verus! {

/// The number of tiles side by side in a sheet of tiles.
pub open spec fn sheet_columns(sheet_width: u32, tile_width: u32) -> int {
    sheet_width as int / tile_width as int
}

/// The column and the row, in a sheet of tiles, of the tile numbered `gid`.
/// The tiles of a sheet are numbered from 1, row by row.
pub fn tile_in_sheet(gid: u32, sheet_width: u32, tile_width: u32) -> (cell: (u32, u32))
    requires
        gid >= 1,
        tile_width >= 1,
        sheet_width >= tile_width,
    ensures
        cell.0 == (gid - 1) % sheet_columns(sheet_width, tile_width),
        cell.1 == (gid - 1) / sheet_columns(sheet_width, tile_width),
{
    let columns: u32 = sheet_width / tile_width;
    assert(columns >= 1) by (nonlinear_arith)
        requires
            columns == sheet_width as int / tile_width as int,
            tile_width >= 1,
            sheet_width >= tile_width,
    ;
    ((gid - 1) % columns, (gid - 1) / columns)
}

/// The straight direction in which `to` lies from `from`, where they share a
/// row or a column and differ.
pub open spec fn direction_between(from: TileCoord, to: TileCoord) -> Option<Direction> {
    if from.x < to.x && from.y == to.y {
        Some(Direction::Right)
    } else if from.x > to.x && from.y == to.y {
        Some(Direction::Left)
    } else if from.x == to.x && from.y < to.y {
        Some(Direction::Down)
    } else if from.x == to.x && from.y > to.y {
        Some(Direction::Up)
    } else {
        None
    }
}

/// Finds the straight direction from one tile to another.
pub fn get_direction(from: &TileCoord, to: &TileCoord) -> (direction: Option<Direction>)
    ensures
        direction == direction_between(*from, *to),
{
    if from.x < to.x && from.y == to.y {
        Some(Direction::Right)
    } else if from.x > to.x && from.y == to.y {
        Some(Direction::Left)
    } else if from.x == to.x && from.y < to.y {
        Some(Direction::Down)
    } else if from.x == to.x && from.y > to.y {
        Some(Direction::Up)
    } else {
        None
    }
}

/// Every tile of `path` lies in a straight direction from the tile before
/// it, the first one from `start`.
pub open spec fn is_straight_stepped(start: TileCoord, path: Seq<TileCoord>) -> bool {
    forall|i: int|
        0 <= i < path.len() ==> direction_between(
            #[trigger] path[i],
            step_origin(start, path, i),
        ) is Some
}

/// Checks that every tile of `path` lies in a straight direction from the
/// tile before it: what `get_path_directions` asks of its caller.
pub fn is_straight_path(start: &TileCoord, path: &Vec<TileCoord>) -> (straight: bool)
    ensures
        straight == is_straight_stepped(*start, path@),
{
    let mut i: usize = 0;
    while i < path.len()
        invariant
            i <= path.len(),
            forall|j: int|
                0 <= j < i ==> direction_between(
                    #[trigger] path@[j],
                    step_origin(*start, path@, j),
                ) is Some,
        decreases path.len() - i,
    {
        let back = if i == 0 {
            get_direction(&path[i], start)
        } else {
            get_direction(&path[i], &path[i - 1])
        };
        if back.is_none() {
            assert(direction_between(path@[i as int], step_origin(*start, path@, i as int))
                is None);
            return false;
        }
        i += 1;
    }
    true
}

/// How the path passes through its tile at position `i`: the direction back
/// to the tile it came from, and the direction on to the next tile, if there
/// is a next tile in a straight direction.
pub open spec fn path_direction(start: TileCoord, path: Seq<TileCoord>, i: int) -> (
    Direction,
    Option<Direction>,
) {
    (
        direction_between(path[i], step_origin(start, path, i))->0,
        if i == path.len() - 1 {
            None
        } else {
            direction_between(path[i], path[i + 1])
        },
    )
}

/// Works out for each tile of `path` how the path passes through it.
pub fn get_path_directions(start: &TileCoord, path: &Vec<TileCoord>) -> (directions: Vec<
    (Direction, Option<Direction>),
>)
    requires
        is_straight_stepped(*start, path@),
    ensures
        directions@.len() == path@.len(),
        forall|i: int|
            0 <= i < path@.len() ==> #[trigger] directions@[i] == path_direction(*start, path@, i),
{
    let mut directions: Vec<(Direction, Option<Direction>)> = Vec::with_capacity(path.len());
    let mut i: usize = 0;
    while i < path.len()
        invariant
            i <= path.len(),
            is_straight_stepped(*start, path@),
            directions@.len() == i,
            forall|j: int|
                0 <= j < i ==> #[trigger] directions@[j] == path_direction(*start, path@, j),
        decreases path.len() - i,
    {
        let pos: TileCoord = path[i];
        assert(direction_between(path@[i as int], step_origin(*start, path@, i as int)) is Some);
        let from = if i == 0 {
            get_direction(&pos, start).unwrap()
        } else {
            get_direction(&pos, &path[i - 1]).unwrap()
        };
        let to = if i == path.len() - 1 {
            None
        } else {
            get_direction(&pos, &path[i + 1])
        };
        directions.push((from, to));
        i += 1;
    }
    directions
}

/// The corner, in the path image, of the piece for a tile that the path
/// enters from `from` and leaves towards `to`, both seen from the tile. There
/// is a piece for each pair of different straight directions and for each
/// straight direction in which a path ends.
pub open spec fn path_piece(from: Direction, to: Option<Direction>) -> Option<(u32, u32)> {
    match (from, to) {
        (Direction::Left, Some(Direction::Right)) | (Direction::Right, Some(Direction::Left)) => Some(
            (0u32, 0u32),
        ),
        (Direction::Up, Some(Direction::Down)) | (Direction::Down, Some(Direction::Up)) => Some(
            (64u32, 0u32),
        ),
        (Direction::Left, None) => Some((128u32, 0u32)),
        (Direction::Up, None) => Some((192u32, 0u32)),
        (Direction::Right, None) => Some((128u32, 64u32)),
        (Direction::Down, None) => Some((192u32, 64u32)),
        (Direction::Left, Some(Direction::Up)) | (Direction::Up, Some(Direction::Left)) => Some(
            (0u32, 64u32),
        ),
        (Direction::Up, Some(Direction::Right)) | (Direction::Right, Some(Direction::Up)) => Some(
            (64u32, 64u32),
        ),
        (Direction::Left, Some(Direction::Down)) | (Direction::Down, Some(Direction::Left)) => Some(
            (0u32, 128u32),
        ),
        (Direction::Down, Some(Direction::Right)) | (Direction::Right, Some(Direction::Down)) => Some(
            (64u32, 128u32),
        ),
        _ => None,
    }
}

/// Looks up the piece of the path image for a tile of the path, if there is
/// one.
pub fn find_path_piece(from: &Direction, to: &Option<Direction>) -> (corner: Option<(u32, u32)>)
    ensures
        corner == path_piece(*from, *to),
{
    match (from, to) {
        (Direction::Left, Some(Direction::Right)) | (Direction::Right, Some(Direction::Left)) => Some(
            (0, 0),
        ),
        (Direction::Up, Some(Direction::Down)) | (Direction::Down, Some(Direction::Up)) => Some(
            (64, 0),
        ),
        (Direction::Left, None) => Some((128, 0)),
        (Direction::Up, None) => Some((192, 0)),
        (Direction::Right, None) => Some((128, 64)),
        (Direction::Down, None) => Some((192, 64)),
        (Direction::Left, Some(Direction::Up)) | (Direction::Up, Some(Direction::Left)) => Some(
            (0, 64),
        ),
        (Direction::Up, Some(Direction::Right)) | (Direction::Right, Some(Direction::Up)) => Some(
            (64, 64),
        ),
        (Direction::Left, Some(Direction::Down)) | (Direction::Down, Some(Direction::Left)) => Some(
            (0, 128),
        ),
        (Direction::Down, Some(Direction::Right)) | (Direction::Right, Some(Direction::Down)) => Some(
            (64, 128),
        ),
        _ => None,
    }
}

/// Looks up the piece of the path image for a tile of the path.
pub fn get_path_draw_params(from: &Direction, to: &Option<Direction>) -> (corner: (u32, u32))
    requires
        path_piece(*from, *to) is Some,
    ensures
        Some(corner) == path_piece(*from, *to),
{
    find_path_piece(from, to).unwrap()
}

/// The direction is one of left, up, right and down.
pub open spec fn is_straight(direction: Direction) -> bool {
    direction == Direction::Left || direction == Direction::Up || direction == Direction::Right
        || direction == Direction::Down
}

/// There is a piece for a path that ends in a straight direction, and for
/// one that turns from a straight direction into another.
pub proof fn lemma_path_piece(from: Direction, to: Option<Direction>)
    requires
        is_straight(from),
        to matches Some(onward) ==> is_straight(onward) && onward != from,
    ensures
        path_piece(from, to) is Some,
{
}

/// Seen from the middle one of three tiles of a chain, the tile before and
/// the tile after lie in straight directions, and in the same direction only
/// if they are one tile.
proof fn lemma_step_directions(map: TileMap, before: TileCoord, tile: TileCoord, after: TileCoord)
    requires
        adjacent(map, before, tile),
        adjacent(map, tile, after),
    ensures
        direction_between(tile, before) matches Some(back) && is_straight(back),
        direction_between(tile, after) matches Some(onward) && is_straight(onward),
        direction_between(tile, before) == direction_between(tile, after) ==> before == after,
{
}

/// A valid path can be drawn: each of its tiles lies in a straight direction
/// from the tile before it, and there is a piece of the path image for the
/// way the path passes through it.
pub proof fn lemma_valid_path_draws(selection: Selection, map: TileMap)
    requires
        selection.is_valid(map),
    ensures
        is_straight_stepped(selection.start, selection.path),
        forall|i: int|
            0 <= i < selection.path.len() ==> path_piece(
                (#[trigger] path_direction(selection.start, selection.path, i)).0,
                path_direction(selection.start, selection.path, i).1,
            ) is Some,
{
    let start = selection.start;
    let path = selection.path;
    assert forall|i: int| 0 <= i < path.len() implies direction_between(
        #[trigger] path[i],
        step_origin(start, path, i),
    ) is Some && path_piece(path_direction(start, path, i).0, path_direction(start, path, i).1)
        is Some by {
        let before = step_origin(start, path, i);
        assert(adjacent(map, before, path[i]));
        if i < path.len() - 1 {
            let after = path[i + 1];
            assert(adjacent(map, step_origin(start, path, i + 1), after));
            assert(step_origin(start, path, i + 1) == path[i]);
            lemma_step_directions(map, before, path[i], after);
            if i == 0 {
                assert(after != start);
            } else {
                assert(after != path[i - 1]);
            }
            lemma_path_piece(
                path_direction(start, path, i).0,
                path_direction(start, path, i).1,
            );
        } else {
            assert(direction_between(path[i], before) matches Some(back) && is_straight(back));
            lemma_path_piece(path_direction(start, path, i).0, None);
        }
    }
}

} // verus!
