//! Picking a path with the cursor.

use vstd::prelude::*;
use crate::components::{CanMove, TileCoord, TilePosition};
use crate::resources::TileMap;
use crate::targets::{adjacent, contains_tile, get_adjacent_tiles, is_chain, path_end, step_origin};

verus! {

/// What a `CanMove` holds, as plain sequences.
pub struct Selection {
    pub start: TileCoord,
    pub distance: nat,
    pub dests: Seq<TileCoord>,
    pub path: Seq<TileCoord>,
}

impl View for CanMove {
    type V = Selection;

    open spec fn view(&self) -> Selection {
        Selection {
            start: self.start,
            distance: self.distance as nat,
            dests: self.dests@,
            path: self.path@,
        }
    }
}

/// `tile` stands at position `at` of `path` and nowhere before it.
pub open spec fn is_first_index_of(path: Seq<TileCoord>, tile: TileCoord, at: int) -> bool {
    &&& 0 <= at < path.len()
    &&& path[at] == tile
    &&& forall|j: int| 0 <= j < at ==> path[j] != tile
}

/// The first position of `path` at which `tile` stands, where it stands on
/// `path` at all.
pub open spec fn first_index_of(path: Seq<TileCoord>, tile: TileCoord) -> int {
    choose|at: int| is_first_index_of(path, tile, at)
}

/// A tile of the path has one first position.
pub proof fn lemma_first_index_of(path: Seq<TileCoord>, tile: TileCoord)
    requires
        path.contains(tile),
    ensures
        is_first_index_of(path, tile, first_index_of(path, tile)),
        forall|at: int| is_first_index_of(path, tile, at) ==> at == first_index_of(path, tile),
{
    let some = path.index_of(tile);
    lemma_first_index_before(path, tile, some);
    let first = first_index_of(path, tile);
    assert forall|at: int| is_first_index_of(path, tile, at) implies at == first by {
        if at < first {
            assert(path[at] != tile);
        } else if first < at {
            assert(path[first] != tile);
        }
    }
}

proof fn lemma_first_index_before(path: Seq<TileCoord>, tile: TileCoord, some: int)
    requires
        0 <= some < path.len(),
        path[some] == tile,
    ensures
        exists|at: int| is_first_index_of(path, tile, at),
    decreases some,
{
    if exists|j: int| 0 <= j < some && path[j] == tile {
        let j = choose|j: int| 0 <= j < some && path[j] == tile;
        lemma_first_index_before(path, tile, j);
    } else {
        assert(is_first_index_of(path, tile, some));
    }
}

impl Selection {
    /// The path is one that the cursor can have picked: a chain from the start
    /// that visits no tile twice, does not come back to the start, stays on
    /// the destinations and is no longer than the distance allows.
    pub open spec fn is_valid(self, map: TileMap) -> bool {
        &&& is_chain(map, self.start, self.path)
        &&& self.path.no_duplicates()
        &&& !self.path.contains(self.start)
        &&& forall|i: int| 0 <= i < self.path.len() ==> self.dests.contains(#[trigger] self.path[i])
        &&& self.path.len() <= self.distance
    }

    /// The same selection with another path.
    pub open spec fn with_path(self, path: Seq<TileCoord>) -> Selection {
        Selection { path, ..self }
    }

    /// The cursor may step onto `cursor` and lengthen the path by it: the
    /// tile is a destination one step from the end of the path, and the path
    /// is not yet as long as the distance allows.
    pub open spec fn can_extend_to(self, map: TileMap, cursor: TileCoord) -> bool {
        &&& self.dests.contains(cursor)
        &&& adjacent(map, path_end(self.start, self.path), cursor)
        &&& self.path.len() < self.distance
    }

    /// The selection after the cursor has come to rest on `cursor`.
    ///
    /// On the start the path is dropped. On a tile of the path the path is
    /// cut behind that tile. On a tile that can lengthen the path it is
    /// added. On any other tile nothing changes.
    pub open spec fn moved_to(self, map: TileMap, cursor: TileCoord) -> Selection {
        if cursor == self.start {
            self.with_path(Seq::empty())
        } else if self.path.contains(cursor) {
            self.with_path(self.path.take(first_index_of(self.path, cursor) + 1))
        } else if self.can_extend_to(map, cursor) {
            self.with_path(self.path.push(cursor))
        } else {
            self
        }
    }

    /// The selection after the cursor has come to rest on each tile of
    /// `cursors` in turn.
    pub open spec fn moved_along(self, map: TileMap, cursors: Seq<TileCoord>) -> Selection
        decreases cursors.len(),
    {
        if cursors.len() == 0 {
            self
        } else {
            self.moved_along(map, cursors.drop_last()).moved_to(map, cursors.last())
        }
    }
}

/// One move of the cursor keeps a valid path valid.
pub proof fn lemma_move_keeps_valid(selection: Selection, map: TileMap, cursor: TileCoord)
    requires
        selection.is_valid(map),
    ensures
        selection.moved_to(map, cursor).is_valid(map),
{
    let path = selection.path;
    let after = selection.moved_to(map, cursor).path;
    if cursor == selection.start {
    } else if path.contains(cursor) {
        lemma_first_index_of(path, cursor);
        let cut = first_index_of(path, cursor) + 1;
        assert(after == path.take(cut));
        assert forall|i: int| 0 <= i < after.len() implies adjacent(
            map,
            step_origin(selection.start, after, i),
            #[trigger] after[i],
        ) && selection.dests.contains(after[i]) by {
            assert(after[i] == path[i]);
            assert(step_origin(selection.start, after, i) == step_origin(selection.start, path, i));
        }
        if after.contains(selection.start) {
            let at = after.index_of(selection.start);
            assert(path[at] == selection.start);
        }
    } else if selection.can_extend_to(map, cursor) {
        assert(after == path.push(cursor));
        assert forall|i: int| 0 <= i < after.len() implies adjacent(
            map,
            step_origin(selection.start, after, i),
            #[trigger] after[i],
        ) && selection.dests.contains(after[i]) by {
            if i < path.len() {
                assert(after[i] == path[i]);
                assert(step_origin(selection.start, after, i) == step_origin(
                    selection.start,
                    path,
                    i,
                ));
            }
        }
        assert forall|i: int, j: int| 0 <= i < after.len() && 0 <= j < after.len() && i != j implies after[i]
            != after[j] by {
            if i < path.len() {
                assert(path[i] == after[i]);
            }
            if j < path.len() {
                assert(path[j] == after[j]);
            }
        }
        if after.contains(selection.start) {
            let at = after.index_of(selection.start);
            if at < path.len() {
                assert(path[at] == selection.start);
            }
        }
    }
}

/// Whatever tiles the cursor visits, and in whatever order, a path that was
/// valid stays valid: a chain of adjacent tiles from the start that visits no
/// tile twice, stays on the destinations and is no longer than the distance
/// allows.
pub proof fn lemma_moves_keep_valid(selection: Selection, map: TileMap, cursors: Seq<TileCoord>)
    requires
        selection.is_valid(map),
    ensures
        selection.moved_along(map, cursors).is_valid(map),
    decreases cursors.len(),
{
    if cursors.len() > 0 {
        lemma_moves_keep_valid(selection, map, cursors.drop_last());
        lemma_move_keeps_valid(
            selection.moved_along(map, cursors.drop_last()),
            map,
            cursors.last(),
        );
    }
}

/// Moves of the cursor change the path and nothing else.
pub proof fn lemma_moves_keep_frame(selection: Selection, map: TileMap, cursors: Seq<TileCoord>)
    ensures
        selection.moved_along(map, cursors).start == selection.start,
        selection.moved_along(map, cursors).distance == selection.distance,
        selection.moved_along(map, cursors).dests == selection.dests,
    decreases cursors.len(),
{
    if cursors.len() > 0 {
        lemma_moves_keep_frame(selection, map, cursors.drop_last());
    }
}

/// A selection that has just begun holds the empty path, which is valid, so
/// every path picked from it is.
pub proof fn lemma_picked_path_valid(selection: Selection, map: TileMap, cursors: Seq<TileCoord>)
    requires
        selection.path.len() == 0,
    ensures
        selection.moved_along(map, cursors).is_valid(map),
{
    lemma_moves_keep_valid(selection, map, cursors);
}

/// The cursor back on a tile of the path cuts the path behind that tile.
pub proof fn lemma_move_back_truncates(
    selection: Selection,
    map: TileMap,
    cursor: TileCoord,
    at: int,
)
    requires
        cursor != selection.start,
        is_first_index_of(selection.path, cursor, at),
    ensures
        selection.moved_to(map, cursor).path == selection.path.take(at + 1),
        selection.moved_to(map, cursor).path.len() == at + 1,
        selection.moved_to(map, cursor).path.last() == cursor,
{
    assert(selection.path.contains(cursor));
    lemma_first_index_of(selection.path, cursor);
}

/// A cursor that stays where it is changes the path once at most.
pub proof fn lemma_move_idempotent(selection: Selection, map: TileMap, cursor: TileCoord)
    ensures
        selection.moved_to(map, cursor).moved_to(map, cursor) == selection.moved_to(map, cursor),
{
    let path = selection.path;
    let once = selection.moved_to(map, cursor);
    if cursor == selection.start {
    } else if path.contains(cursor) {
        lemma_first_index_of(path, cursor);
        let first = first_index_of(path, cursor);
        assert(once.path == path.take(first + 1));
        assert(is_first_index_of(once.path, cursor, first));
        lemma_move_back_truncates(once, map, cursor, first);
        assert(once.path.take(first + 1) =~= once.path);
    } else if selection.can_extend_to(map, cursor) {
        assert(once.path == path.push(cursor));
        assert(is_first_index_of(once.path, cursor, path.len() as int));
        lemma_move_back_truncates(once, map, cursor, path.len() as int);
        assert(once.path.take(path.len() as int + 1) =~= once.path);
    }
}

/// Edits the path of the selection as the cursor moves.
pub struct PathSelectSystem;

impl PathSelectSystem {
    /// Takes the tile on which the cursor rests into the path of `can_move`,
    /// as `Selection::moved_to` says.
    #[verifier::loop_isolation(false)]
    pub fn run(map: &TileMap, cursor_pos: &TilePosition, can_move: &mut CanMove)
        ensures
            final(can_move)@ == old(can_move)@.moved_to(*map, cursor_pos.pos),
            old(can_move)@.is_valid(*map) ==> final(can_move)@.is_valid(*map),
    {
        let cursor: TileCoord = cursor_pos.pos;
        proof {
            if old(can_move)@.is_valid(*map) {
                lemma_move_keeps_valid(old(can_move)@, *map, cursor);
            }
        }
        if cursor == can_move.start {
            can_move.path.clear();
            assert(can_move@ =~= old(can_move)@.moved_to(*map, cursor));
            return ;
        }
        let mut i: usize = 0;
        while i < can_move.path.len()
            invariant
                i <= can_move.path.len(),
                *can_move == *old(can_move),
                forall|j: int| 0 <= j < i ==> can_move.path@[j] != cursor,
            decreases can_move.path.len() - i,
        {
            if can_move.path[i] == cursor {
                proof {
                    assert(is_first_index_of(can_move.path@, cursor, i as int));
                    lemma_move_back_truncates(can_move@, *map, cursor, i as int);
                }
                can_move.path.truncate(i + 1);
                assert(can_move@ =~= old(can_move)@.moved_to(*map, cursor));
                return ;
            }
            i += 1;
        }
        let end: TileCoord = if can_move.path.len() == 0 {
            can_move.start
        } else {
            can_move.path[can_move.path.len() - 1]
        };
        let around = get_adjacent_tiles(&end, map);
        if contains_tile(&can_move.dests, &cursor) && contains_tile(&around, &cursor)
            && can_move.path.len() < can_move.distance as usize {
            can_move.path.push(cursor);
            assert(can_move@ =~= old(can_move)@.moved_to(*map, cursor));
        }
    }
}

} // verus!
