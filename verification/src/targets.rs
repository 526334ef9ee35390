//! Which tiles a player can run to and a ball can be passed to.

use vstd::prelude::*;
use crate::components::{Placed, TileCoord};
use crate::resources::TileMap;

verus! {

/// `to` is one step left, right, up or down from `from`. A step to the left
/// or upwards stops at the zero coordinate, a step to the right or downwards
/// at the edge of the map.
pub open spec fn adjacent(map: TileMap, from: TileCoord, to: TileCoord) -> bool {
    ||| from.x >= 1 && to.x == from.x - 1 && to.y == from.y
    ||| from.x + 1 < map.width && to.x == from.x + 1 && to.y == from.y
    ||| from.y >= 1 && to.x == from.x && to.y == from.y - 1
    ||| from.y + 1 < map.height && to.x == from.x && to.y == from.y + 1
}

/// The tiles one step from `tile`, in the order left, right, up, down.
pub open spec fn adjacent_tiles(map: TileMap, tile: TileCoord) -> Seq<TileCoord> {
    let left = if tile.x >= 1 {
        seq![TileCoord { x: (tile.x - 1) as u32, y: tile.y }]
    } else {
        Seq::empty()
    };
    let right = if tile.x + 1 < map.width {
        seq![TileCoord { x: (tile.x + 1) as u32, y: tile.y }]
    } else {
        Seq::empty()
    };
    let up = if tile.y >= 1 {
        seq![TileCoord { x: tile.x, y: (tile.y - 1) as u32 }]
    } else {
        Seq::empty()
    };
    let down = if tile.y + 1 < map.height {
        seq![TileCoord { x: tile.x, y: (tile.y + 1) as u32 }]
    } else {
        Seq::empty()
    };
    left + right + up + down
}

/// The tiles of `adjacent_tiles` are those that `adjacent` relates to `tile`.
pub proof fn lemma_adjacent_tiles(map: TileMap, tile: TileCoord)
    ensures
        forall|to: TileCoord| #[trigger]
            adjacent_tiles(map, tile).contains(to) <==> adjacent(map, tile, to),
        adjacent_tiles(map, tile).no_duplicates(),
        adjacent_tiles(map, tile).len() <= 4,
{
    let tiles = adjacent_tiles(map, tile);
    assert forall|to: TileCoord| adjacent(map, tile, to) implies #[trigger] tiles.contains(to) by {
        let l: int = if tile.x >= 1 { 1 } else { 0 };
        let r: int = if tile.x + 1 < map.width { 1 } else { 0 };
        let u: int = if tile.y >= 1 { 1 } else { 0 };
        if tile.x >= 1 && to.x == tile.x - 1 && to.y == tile.y {
            assert(tiles[0] == to);
        } else if tile.x + 1 < map.width && to.x == tile.x + 1 && to.y == tile.y {
            assert(tiles[l] == to);
        } else if tile.y >= 1 && to.x == tile.x && to.y == tile.y - 1 {
            assert(tiles[l + r] == to);
        } else {
            assert(tiles[l + r + u] == to);
        }
    }
}

/// Walks the four directions from `tile_pos` and keeps the steps that
/// `adjacent` allows.
pub fn get_adjacent_tiles(tile_pos: &TileCoord, map: &TileMap) -> (tiles: Vec<TileCoord>)
    ensures
        tiles@ == adjacent_tiles(*map, *tile_pos),
        forall|to: TileCoord| #[trigger] tiles@.contains(to) <==> adjacent(*map, *tile_pos, to),
{
    let mut tiles: Vec<TileCoord> = Vec::new();
    if tile_pos.x >= 1 {
        tiles.push(TileCoord { x: tile_pos.x - 1, y: tile_pos.y });
    }
    if tile_pos.x < u32::MAX && tile_pos.x + 1 < map.width {
        tiles.push(TileCoord { x: tile_pos.x + 1, y: tile_pos.y });
    }
    if tile_pos.y >= 1 {
        tiles.push(TileCoord { x: tile_pos.x, y: tile_pos.y - 1 });
    }
    if tile_pos.y < u32::MAX && tile_pos.y + 1 < map.height {
        tiles.push(TileCoord { x: tile_pos.x, y: tile_pos.y + 1 });
    }
    proof {
        assert(tiles@ =~= adjacent_tiles(*map, *tile_pos));
        lemma_adjacent_tiles(*map, *tile_pos);
    }
    tiles
}

/// A player stands on `tile`.
pub open spec fn occupied(players: Seq<Placed>, tile: TileCoord) -> bool {
    exists|i: int| 0 <= i < players.len() && (#[trigger] players[i]).pos == tile
}

/// A run from `start` may enter `tile`: no player stands on it, or it is the
/// tile the run began on.
pub open spec fn passable(players: Seq<Placed>, start: TileCoord, tile: TileCoord) -> bool {
    tile == start || !occupied(players, tile)
}

/// The tile from which position `i` of `path` is entered.
pub open spec fn step_origin(start: TileCoord, path: Seq<TileCoord>, i: int) -> TileCoord {
    if i == 0 {
        start
    } else {
        path[i - 1]
    }
}

/// The tile on which `path` ends: its last tile, or `start` where it is
/// empty.
pub open spec fn path_end(start: TileCoord, path: Seq<TileCoord>) -> TileCoord {
    if path.len() == 0 {
        start
    } else {
        path.last()
    }
}

/// Each tile of `path` is one step from the tile before it, the first one
/// from `start`.
pub open spec fn is_chain(map: TileMap, start: TileCoord, path: Seq<TileCoord>) -> bool {
    forall|i: int|
        0 <= i < path.len() ==> adjacent(map, step_origin(start, path, i), #[trigger] path[i])
}

/// `path` is a chain from `start` that enters passable tiles only.
pub open spec fn is_route(
    map: TileMap,
    players: Seq<Placed>,
    start: TileCoord,
    path: Seq<TileCoord>,
) -> bool {
    &&& is_chain(map, start, path)
    &&& forall|i: int| 0 <= i < path.len() ==> passable(players, start, #[trigger] path[i])
}

/// Some route of at most `max_distance` steps leads from `start` to `tile`.
pub open spec fn reachable(
    map: TileMap,
    players: Seq<Placed>,
    start: TileCoord,
    max_distance: nat,
    tile: TileCoord,
) -> bool {
    exists|path: Seq<TileCoord>|
        #[trigger] is_route(map, players, start, path) && path.len() <= max_distance && path_end(
            start,
            path,
        ) == tile
}

/// The start is reached in no step, and nothing else is.
pub proof fn lemma_reachable_zero(
    map: TileMap,
    players: Seq<Placed>,
    start: TileCoord,
    tile: TileCoord,
)
    ensures
        reachable(map, players, start, 0, tile) <==> tile == start,
{
    assert(is_route(map, players, start, Seq::empty()));
}

/// What is reached within a distance is reached within any longer one.
pub proof fn lemma_reachable_further(
    map: TileMap,
    players: Seq<Placed>,
    start: TileCoord,
    near: nat,
    far: nat,
    tile: TileCoord,
)
    requires
        reachable(map, players, start, near, tile),
        near <= far,
    ensures
        reachable(map, players, start, far, tile),
{
}

/// One more step from a reached tile onto a passable one reaches that tile.
pub proof fn lemma_reachable_step(
    map: TileMap,
    players: Seq<Placed>,
    start: TileCoord,
    distance: nat,
    from: TileCoord,
    to: TileCoord,
)
    requires
        reachable(map, players, start, distance, from),
        adjacent(map, from, to),
        passable(players, start, to),
    ensures
        reachable(map, players, start, distance + 1, to),
{
    let path = choose|path: Seq<TileCoord>|
        #[trigger] is_route(map, players, start, path) && path.len() <= distance && path_end(
            start,
            path,
        ) == from;
    let longer = path.push(to);
    assert forall|i: int| 0 <= i < longer.len() implies adjacent(
        map,
        step_origin(start, longer, i),
        #[trigger] longer[i],
    ) && passable(players, start, longer[i]) by {
        if i < path.len() {
            assert(longer[i] == path[i]);
            assert(step_origin(start, longer, i) == step_origin(start, path, i));
        }
    }
    assert(is_route(map, players, start, longer));
    assert(path_end(start, longer) == to);
}

/// A tile reached within `distance + 1` steps was reached within `distance`,
/// or is passable and one step from a tile that was.
pub proof fn lemma_reachable_last_step(
    map: TileMap,
    players: Seq<Placed>,
    start: TileCoord,
    distance: nat,
    tile: TileCoord,
)
    requires
        reachable(map, players, start, distance + 1, tile),
    ensures
        reachable(map, players, start, distance, tile) || (passable(players, start, tile)
            && exists|from: TileCoord|
            #[trigger] reachable(map, players, start, distance, from) && adjacent(map, from, tile)),
{
    let path = choose|path: Seq<TileCoord>|
        #[trigger] is_route(map, players, start, path) && path.len() <= distance + 1 && path_end(
            start,
            path,
        ) == tile;
    if path.len() == distance + 1 {
        let shorter = path.drop_last();
        let from = path_end(start, shorter);
        let last = path.len() - 1;
        assert forall|i: int| 0 <= i < shorter.len() implies adjacent(
            map,
            step_origin(start, shorter, i),
            #[trigger] shorter[i],
        ) && passable(players, start, shorter[i]) by {
            assert(shorter[i] == path[i]);
            assert(step_origin(start, shorter, i) == step_origin(start, path, i));
        }
        assert(is_route(map, players, start, shorter));
        assert(path[last] == tile);
        assert(step_origin(start, path, last) == from);
        assert(reachable(map, players, start, distance, from));
        assert(adjacent(map, from, tile));
    }
}

/// Once a further step reaches nothing new, no number of steps does.
pub proof fn lemma_reachable_settled(
    map: TileMap,
    players: Seq<Placed>,
    start: TileCoord,
    settled: nat,
    distance: nat,
    tile: TileCoord,
)
    requires
        forall|t: TileCoord| #[trigger]
            reachable(map, players, start, settled + 1, t) ==> reachable(
                map,
                players,
                start,
                settled,
                t,
            ),
        reachable(map, players, start, distance, tile),
    ensures
        reachable(map, players, start, settled, tile),
    decreases distance,
{
    if distance <= settled {
        let path = choose|path: Seq<TileCoord>|
            #[trigger] is_route(map, players, start, path) && path.len() <= distance && path_end(
                start,
                path,
            ) == tile;
        assert(is_route(map, players, start, path) && path.len() <= settled);
    } else {
        let nearer = (distance - 1) as nat;
        lemma_reachable_last_step(map, players, start, nearer, tile);
        if reachable(map, players, start, nearer, tile) {
            lemma_reachable_settled(map, players, start, settled, nearer, tile);
        } else {
            let from = choose|from: TileCoord|
                #[trigger] reachable(map, players, start, nearer, from) && adjacent(
                    map,
                    from,
                    tile,
                );
            lemma_reachable_settled(map, players, start, settled, nearer, from);
            lemma_reachable_step(map, players, start, settled, from, tile);
        }
    }
}

/// Looks for `tile` among `tiles`.
pub(crate) fn contains_tile(tiles: &Vec<TileCoord>, tile: &TileCoord) -> (found: bool)
    ensures
        found == tiles@.contains(*tile),
{
    let mut i: usize = 0;
    while i < tiles.len()
        invariant
            i <= tiles.len(),
            forall|j: int| 0 <= j < i ==> tiles@[j] != *tile,
        decreases tiles.len() - i,
    {
        if tiles[i] == *tile {
            return true;
        }
        i += 1;
    }
    false
}

/// Tells whether one of `players` stands on `tile`.
pub fn is_occupied(players: &Vec<Placed>, tile: &TileCoord) -> (found: bool)
    ensures
        found == occupied(players@, *tile),
{
    let mut i: usize = 0;
    while i < players.len()
        invariant
            i <= players.len(),
            forall|j: int| 0 <= j < i ==> players@[j].pos != *tile,
        decreases players.len() - i,
    {
        if players[i].pos == *tile {
            return true;
        }
        i += 1;
    }
    false
}

/// The tiles of `targets` come nearest first: whatever number of steps
/// reaches a tile reaches every tile listed before it.
pub open spec fn nearest_first(
    map: TileMap,
    players: Seq<Placed>,
    start: TileCoord,
    targets: Seq<TileCoord>,
) -> bool {
    forall|i: int, j: int, distance: nat|
        #![trigger targets[i], reachable(map, players, start, distance, targets[j])]
        0 <= i < j < targets.len() && reachable(map, players, start, distance, targets[j])
            ==> reachable(map, players, start, distance, targets[i])
}

/// `targets` lists the tiles that a run of at most `max_distance` steps from
/// `start` can end on: each of them once, the start first and the others
/// nearest first.
pub open spec fn is_run_targets(
    map: TileMap,
    players: Seq<Placed>,
    start: TileCoord,
    max_distance: nat,
    targets: Seq<TileCoord>,
) -> bool {
    &&& targets.len() >= 1
    &&& targets[0] == start
    &&& targets.no_duplicates()
    &&& nearest_first(map, players, start, targets)
    &&& forall|tile: TileCoord| #[trigger]
        targets.contains(tile) <==> reachable(map, players, start, max_distance, tile)
}

/// What holds while the tiles that take `distance + 1` steps are gathered
/// behind `before`, the tiles that take `distance` steps or fewer.
///
/// The first `searched` tiles of `before` take fewer than `distance` steps,
/// so nothing new lies around them. Of the others, those before `done` have
/// been looked around: every passable tile one step from them is listed.
spec fn ring_search(
    map: TileMap,
    players: Seq<Placed>,
    start: TileCoord,
    distance: nat,
    before: Seq<TileCoord>,
    searched: int,
    done: int,
    targets: Seq<TileCoord>,
) -> bool {
    &&& 0 <= searched <= done <= before.len() <= targets.len()
    &&& targets.take(before.len() as int) == before
    &&& targets.no_duplicates()
    &&& nearest_first(map, players, start, targets)
    &&& forall|j: int|
        before.len() <= j < targets.len() ==> reachable(
            map,
            players,
            start,
            distance + 1,
            #[trigger] targets[j],
        )
    &&& forall|j: int, to: TileCoord|
        searched <= j < done && #[trigger] adjacent(map, before[j], to) && passable(
            players,
            start,
            to,
        ) ==> targets.contains(to)
}

/// The gathering begins with nothing looked around and nothing added.
proof fn lemma_ring_begin(
    map: TileMap,
    players: Seq<Placed>,
    start: TileCoord,
    distance: nat,
    before: Seq<TileCoord>,
    searched: int,
)
    requires
        is_run_targets(map, players, start, distance, before),
        0 <= searched <= before.len(),
    ensures
        ring_search(map, players, start, distance, before, searched, searched, before),
{
    assert(before.take(before.len() as int) =~= before);
}

/// A tile that is not listed yet and takes `distance + 1` steps may be added.
proof fn lemma_ring_push(
    map: TileMap,
    players: Seq<Placed>,
    start: TileCoord,
    distance: nat,
    before: Seq<TileCoord>,
    searched: int,
    done: int,
    targets: Seq<TileCoord>,
    next: TileCoord,
)
    requires
        is_run_targets(map, players, start, distance, before),
        ring_search(map, players, start, distance, before, searched, done, targets),
        !targets.contains(next),
        reachable(map, players, start, distance + 1, next),
    ensures
        ring_search(map, players, start, distance, before, searched, done, targets.push(next)),
        forall|to: TileCoord| targets.contains(to) ==> #[trigger] targets.push(next).contains(to),
        targets.push(next).contains(next),
{
    let longer = targets.push(next);
    assert(longer[targets.len() as int] == next);
    assert forall|to: TileCoord| targets.contains(to) implies #[trigger] longer.contains(to) by {
        let at = targets.index_of(to);
        assert(longer[at] == to);
    }
    assert(longer.take(before.len() as int) =~= targets.take(before.len() as int));
    assert forall|i: int, j: int| 0 <= i < longer.len() && 0 <= j < longer.len() && i != j implies longer[i]
        != longer[j] by {
        if i < targets.len() {
            assert(targets[i] == longer[i]);
            assert(targets.contains(targets[i]));
        }
        if j < targets.len() {
            assert(targets[j] == longer[j]);
            assert(targets.contains(targets[j]));
        }
    }
    assert forall|j: int| 0 <= j < before.len() implies reachable(
        map,
        players,
        start,
        distance,
        #[trigger] targets[j],
    ) by {
        assert(targets.take(before.len() as int)[j] == targets[j]);
        assert(before.contains(before[j]));
    }
    if reachable(map, players, start, distance, next) {
        assert(before.contains(next));
        let at = before.index_of(next);
        assert(targets.take(before.len() as int)[at] == targets[at]);
        assert(targets.contains(next));
    }
    lemma_next_ring_keeps_order(map, players, start, distance, targets, before.len() as int, next);
    assert forall|j: int| before.len() <= j < longer.len() implies reachable(
        map,
        players,
        start,
        distance + 1,
        #[trigger] longer[j],
    ) by {
        if j < targets.len() {
            assert(longer[j] == targets[j]);
        }
    }
}

/// A tile that takes `distance + 1` steps, put behind tiles of which none
/// takes more and the first `ring` take fewer, leaves the list nearest
/// first.
proof fn lemma_next_ring_keeps_order(
    map: TileMap,
    players: Seq<Placed>,
    start: TileCoord,
    distance: nat,
    targets: Seq<TileCoord>,
    ring: int,
    next: TileCoord,
)
    requires
        0 <= ring <= targets.len(),
        nearest_first(map, players, start, targets),
        forall|j: int|
            0 <= j < ring ==> reachable(map, players, start, distance, #[trigger] targets[j]),
        forall|j: int|
            ring <= j < targets.len() ==> reachable(
                map,
                players,
                start,
                distance + 1,
                #[trigger] targets[j],
            ),
        !reachable(map, players, start, distance, next),
    ensures
        nearest_first(map, players, start, targets.push(next)),
{
    let longer = targets.push(next);
    assert forall|i: int, j: int, steps: nat|
        #![trigger longer[i], reachable(map, players, start, steps, longer[j])]
        0 <= i < j < longer.len() && reachable(
            map,
            players,
            start,
            steps,
            longer[j],
        ) implies reachable(map, players, start, steps, longer[i]) by {
        assert(longer[i] == targets[i]);
        if j < targets.len() {
            assert(longer[j] == targets[j]);
        } else {
            if steps <= distance {
                lemma_reachable_further(map, players, start, steps, distance, next);
            }
            if i < ring {
                lemma_reachable_further(map, players, start, distance, steps, targets[i]);
            } else {
                lemma_reachable_further(map, players, start, distance + 1, steps, targets[i]);
            }
        }
    }
}

/// Once every tile that takes `distance` steps has been looked around, the
/// list holds the tiles that take `distance + 1` steps or fewer.
proof fn lemma_ring_end(
    map: TileMap,
    players: Seq<Placed>,
    start: TileCoord,
    distance: nat,
    before: Seq<TileCoord>,
    searched: int,
    targets: Seq<TileCoord>,
)
    requires
        is_run_targets(map, players, start, distance, before),
        forall|j: int|
            0 <= j < searched ==> distance > 0 && reachable(
                map,
                players,
                start,
                (distance - 1) as nat,
                #[trigger] before[j],
            ),
        ring_search(
            map,
            players,
            start,
            distance,
            before,
            searched,
            before.len() as int,
            targets,
        ),
    ensures
        is_run_targets(map, players, start, distance + 1, targets),
        forall|j: int|
            0 <= j < before.len() ==> reachable(map, players, start, distance, #[trigger] targets[j]),
{
    let further = distance + 1;
    assert forall|j: int| 0 <= j < before.len() implies targets[j] == before[j] by {
        assert(targets.take(before.len() as int)[j] == targets[j]);
    }
    assert forall|j: int| 0 <= j < before.len() implies reachable(
        map,
        players,
        start,
        distance,
        #[trigger] targets[j],
    ) by {
        assert(before.contains(before[j]));
    }
    assert forall|tile: TileCoord| #[trigger]
        targets.contains(tile) <==> reachable(map, players, start, further, tile) by {
        if targets.contains(tile) {
            let at = targets.index_of(tile);
            if at < before.len() {
                lemma_reachable_further(map, players, start, distance, further, tile);
            }
        }
        if reachable(map, players, start, further, tile) {
            lemma_reachable_last_step(map, players, start, distance, tile);
            if reachable(map, players, start, distance, tile) {
                assert(before.contains(tile));
                let at = before.index_of(tile);
                assert(targets[at] == tile);
            } else {
                let from = choose|from: TileCoord|
                    #[trigger] reachable(map, players, start, distance, from) && adjacent(
                        map,
                        from,
                        tile,
                    );
                assert(before.contains(from));
                let at = before.index_of(from);
                if at < searched {
                    lemma_reachable_step(map, players, start, (distance - 1) as nat, from, tile);
                } else {
                    assert(adjacent(map, before[at], tile));
                }
            }
        }
    }
}

/// Once a further step has added nothing, the list holds the tiles of every
/// greater distance as well.
proof fn lemma_search_settled(
    map: TileMap,
    players: Seq<Placed>,
    start: TileCoord,
    distance: nat,
    max_distance: nat,
    targets: Seq<TileCoord>,
)
    requires
        0 < distance <= max_distance,
        is_run_targets(map, players, start, distance, targets),
        forall|j: int|
            0 <= j < targets.len() ==> reachable(
                map,
                players,
                start,
                (distance - 1) as nat,
                #[trigger] targets[j],
            ),
    ensures
        is_run_targets(map, players, start, max_distance, targets),
{
    let settled = (distance - 1) as nat;
    assert forall|t: TileCoord| #[trigger]
        reachable(map, players, start, settled + 1, t) implies reachable(
        map,
        players,
        start,
        settled,
        t,
    ) by {
        assert(targets.contains(t));
        let at = targets.index_of(t);
        assert(targets[at] == t);
    }
    assert forall|tile: TileCoord| #[trigger]
        targets.contains(tile) <==> reachable(map, players, start, max_distance, tile) by {
        if targets.contains(tile) {
            lemma_reachable_further(map, players, start, distance, max_distance, tile);
        }
        if reachable(map, players, start, max_distance, tile) {
            lemma_reachable_settled(map, players, start, settled, max_distance, tile);
            lemma_reachable_further(map, players, start, settled, distance, tile);
        }
    }
}

/// Looks around the tile at position `at` and adds what is new.
fn search_around(
    targets: &mut Vec<TileCoord>,
    at: usize,
    map: &TileMap,
    players: &Vec<Placed>,
    start: &TileCoord,
    Ghost(distance): Ghost<nat>,
    Ghost(before): Ghost<Seq<TileCoord>>,
    Ghost(searched): Ghost<int>,
)
    requires
        is_run_targets(*map, players@, *start, distance, before),
        ring_search(*map, players@, *start, distance, before, searched, at as int, old(targets)@),
        at < before.len(),
    ensures
        ring_search(*map, players@, *start, distance, before, searched, at + 1, final(targets)@),
{
    let tile: TileCoord = targets[at];
    proof {
        assert(targets@.take(before.len() as int)[at as int] == targets@[at as int]);
        assert(before.contains(before[at as int]));
    }
    let around = get_adjacent_tiles(&tile, map);
    let mut k: usize = 0;
    while k < around.len()
        invariant
            k <= around.len(),
            at < before.len(),
            tile == before[at as int],
            reachable(*map, players@, *start, distance, tile),
            is_run_targets(*map, players@, *start, distance, before),
            ring_search(*map, players@, *start, distance, before, searched, at as int, targets@),
            forall|to: TileCoord| #[trigger] around@.contains(to) <==> adjacent(*map, tile, to),
            forall|m: int|
                0 <= m < k && passable(players@, *start, #[trigger] around@[m])
                    ==> targets@.contains(around@[m]),
        decreases around.len() - k,
    {
        let next: TileCoord = around[k];
        let ghost prior = targets@;
        assert(around@.contains(next));
        if !contains_tile(targets, &next) && !is_occupied(players, &next) {
            proof {
                lemma_reachable_step(*map, players@, *start, distance, tile, next);
                lemma_ring_push(
                    *map,
                    players@,
                    *start,
                    distance,
                    before,
                    searched,
                    at as int,
                    prior,
                    next,
                );
            }
            targets.push(next);
        } else {
            proof {
                if passable(players@, *start, next) && next == *start {
                    assert(before[0] == next);
                    assert(prior.take(before.len() as int)[0] == prior[0]);
                }
            }
        }
        k += 1;
    }
    proof {
        assert forall|j: int, to: TileCoord|
            searched <= j < at + 1 && #[trigger] adjacent(*map, before[j], to) && passable(
                players@,
                *start,
                to,
            ) implies targets@.contains(to) by {
            if j == at {
                assert(around@.contains(to));
                let m = around@.index_of(to);
                assert(around@[m] == to);
            }
        }
    }
}

/// The tiles that a run from `start_pos` can end on: the start itself and
/// every tile that a route of at most `max_distance` steps leads to. A tile
/// on which one of `players` stands is neither entered nor crossed.
///
/// The search goes outwards one step at a time, so the tiles come nearest
/// first, each once.
pub fn calculate_run_targets(
    start_pos: &TileCoord,
    map: &TileMap,
    max_distance: u32,
    players: &Vec<Placed>,
) -> (targets: Vec<TileCoord>)
    ensures
        is_run_targets(*map, players@, *start_pos, max_distance as nat, targets@),
{
    let mut targets: Vec<TileCoord> = Vec::new();
    targets.push(*start_pos);
    // The tiles before this index take fewer steps than `distance`.
    let mut searched: usize = 0;
    let mut distance: u32 = 0;
    proof {
        assert forall|tile: TileCoord| #[trigger]
            targets@.contains(tile) <==> reachable(*map, players@, *start_pos, 0, tile) by {
            lemma_reachable_zero(*map, players@, *start_pos, tile);
            if tile == *start_pos {
                assert(targets@[0] == tile);
            }
        }
    }
    while distance < max_distance && searched < targets.len()
        invariant
            distance <= max_distance,
            searched <= targets.len(),
            distance == 0 ==> searched == 0,
            is_run_targets(*map, players@, *start_pos, distance as nat, targets@),
            forall|j: int|
                0 <= j < searched ==> distance > 0 && reachable(
                    *map,
                    players@,
                    *start_pos,
                    (distance - 1) as nat,
                    #[trigger] targets@[j],
                ),
        decreases max_distance - distance,
    {
        let frontier_end: usize = targets.len();
        let ghost before = targets@;
        let mut i: usize = searched;
        proof {
            lemma_ring_begin(*map, players@, *start_pos, distance as nat, before, searched as int);
        }
        while i < frontier_end
            invariant
                searched <= i <= frontier_end,
                frontier_end == before.len(),
                is_run_targets(*map, players@, *start_pos, distance as nat, before),
                ring_search(
                    *map,
                    players@,
                    *start_pos,
                    distance as nat,
                    before,
                    searched as int,
                    i as int,
                    targets@,
                ),
            decreases frontier_end - i,
        {
            search_around(
                &mut targets,
                i,
                map,
                players,
                start_pos,
                Ghost(distance as nat),
                Ghost(before),
                Ghost(searched as int),
            );
            i += 1;
        }
        proof {
            lemma_ring_end(
                *map,
                players@,
                *start_pos,
                distance as nat,
                before,
                searched as int,
                targets@,
            );
        }
        searched = frontier_end;
        distance += 1;
    }
    proof {
        if distance < max_distance {
            lemma_search_settled(
                *map,
                players@,
                *start_pos,
                distance as nat,
                max_distance as nat,
                targets@,
            );
        }
    }
    targets
}

/// The tiles `offset` steps from `start` along the two axes, in the order
/// left, right, up, down. Left and up stop at the zero coordinate, right and
/// down at the edge of the map.
pub open spec fn pass_targets_at(map: TileMap, start: TileCoord, offset: nat) -> Seq<TileCoord> {
    let left = if start.x >= offset {
        seq![TileCoord { x: (start.x - offset) as u32, y: start.y }]
    } else {
        Seq::empty()
    };
    let right = if start.x + offset < map.width {
        seq![TileCoord { x: (start.x + offset) as u32, y: start.y }]
    } else {
        Seq::empty()
    };
    let up = if start.y >= offset {
        seq![TileCoord { x: start.x, y: (start.y - offset) as u32 }]
    } else {
        Seq::empty()
    };
    let down = if start.y + offset < map.height {
        seq![TileCoord { x: start.x, y: (start.y + offset) as u32 }]
    } else {
        Seq::empty()
    };
    left + right + up + down
}

/// The tiles at the offsets from 1 up to, but not including, `max_distance`,
/// nearest offset first.
pub open spec fn pass_targets(map: TileMap, start: TileCoord, max_distance: nat) -> Seq<TileCoord>
    decreases max_distance,
{
    if max_distance <= 1 {
        Seq::empty()
    } else {
        pass_targets(map, start, (max_distance - 1) as nat) + pass_targets_at(
            map,
            start,
            (max_distance - 1) as nat,
        )
    }
}

/// `tile` lies on the row or the column of `start`, at least one step and
/// fewer than `max_distance` steps away, and not beyond the right or the
/// lower edge of the map.
pub open spec fn is_pass_target(
    map: TileMap,
    start: TileCoord,
    max_distance: nat,
    tile: TileCoord,
) -> bool {
    ||| tile.y == start.y && tile.x < start.x && start.x - tile.x < max_distance
    ||| tile.y == start.y && tile.x > start.x && tile.x - start.x < max_distance && tile.x
        < map.width
    ||| tile.x == start.x && tile.y < start.y && start.y - tile.y < max_distance
    ||| tile.x == start.x && tile.y > start.y && tile.y - start.y < max_distance && tile.y
        < map.height
}

/// `pass_targets` lists the tiles that `is_pass_target` accepts, each once.
pub proof fn lemma_pass_targets(map: TileMap, start: TileCoord, max_distance: nat)
    ensures
        forall|tile: TileCoord| #[trigger]
            pass_targets(map, start, max_distance).contains(tile) <==> is_pass_target(
                map,
                start,
                max_distance,
                tile,
            ),
        pass_targets(map, start, max_distance).no_duplicates(),
    decreases max_distance,
{
    if max_distance > 1 {
        let offset = (max_distance - 1) as nat;
        let nearer = pass_targets(map, start, offset);
        let ring = pass_targets_at(map, start, offset);
        let all = pass_targets(map, start, max_distance);
        lemma_pass_targets(map, start, offset);
        assert(all == nearer + ring);
        let l: int = if start.x >= offset { 1 } else { 0 };
        let r: int = if start.x + offset < map.width { 1 } else { 0 };
        let u: int = if start.y >= offset { 1 } else { 0 };
        assert forall|tile: TileCoord| #[trigger]
            all.contains(tile) <==> is_pass_target(map, start, max_distance, tile) by {
            if all.contains(tile) {
                let at = all.index_of(tile);
                if at < nearer.len() {
                    assert(nearer[at] == tile);
                    assert(nearer.contains(tile));
                } else {
                    assert(ring[at - nearer.len()] == tile);
                }
            }
            if is_pass_target(map, start, max_distance, tile) {
                if is_pass_target(map, start, offset, tile) {
                    assert(nearer.contains(tile));
                    let at = nearer.index_of(tile);
                    assert(all[at] == tile);
                } else if tile.y == start.y && tile.x < start.x {
                    assert(ring[0] == tile);
                    assert(all[nearer.len() as int] == tile);
                } else if tile.y == start.y && tile.x > start.x {
                    assert(ring[l] == tile);
                    assert(all[nearer.len() + l] == tile);
                } else if tile.x == start.x && tile.y < start.y {
                    assert(ring[l + r] == tile);
                    assert(all[nearer.len() + l + r] == tile);
                } else {
                    assert(ring[l + r + u] == tile);
                    assert(all[nearer.len() + l + r + u] == tile);
                }
            }
        }
        assert forall|i: int, j: int| 0 <= i < all.len() && 0 <= j < all.len() && i != j implies all[i]
            != all[j] by {
            if i < nearer.len() {
                assert(nearer.contains(all[i]));
            }
            if j < nearer.len() {
                assert(nearer.contains(all[j]));
            }
            if i >= nearer.len() {
                assert(ring[i - nearer.len()] == all[i]);
            }
            if j >= nearer.len() {
                assert(ring[j - nearer.len()] == all[j]);
            }
        }
    }
}

/// The tiles that a pass from `start_pos` can end on: those on its row and
/// its column that `is_pass_target` accepts. Players do not stand in the way
/// of a pass.
pub fn calculate_pass_targets(start_pos: &TileCoord, map: &TileMap, max_distance: u32) -> (targets:
    Vec<TileCoord>)
    ensures
        targets@ == pass_targets(*map, *start_pos, max_distance as nat),
        targets@.no_duplicates(),
        forall|tile: TileCoord| #[trigger]
            targets@.contains(tile) <==> is_pass_target(
                *map,
                *start_pos,
                max_distance as nat,
                tile,
            ),
{
    let mut targets: Vec<TileCoord> = Vec::new();
    let mut i: u32 = 1;
    while i < max_distance
        invariant
            1 <= i,
            i <= max_distance || i == 1,
            targets@ == pass_targets(*map, *start_pos, i as nat),
        decreases max_distance - i,
    {
        let ghost nearer = targets@;
        if start_pos.x >= i {
            targets.push(TileCoord { x: start_pos.x - i, y: start_pos.y });
        }
        if i < map.width && start_pos.x < map.width - i {
            targets.push(TileCoord { x: start_pos.x + i, y: start_pos.y });
        }
        if start_pos.y >= i {
            targets.push(TileCoord { x: start_pos.x, y: start_pos.y - i });
        }
        if i < map.height && start_pos.y < map.height - i {
            targets.push(TileCoord { x: start_pos.x, y: start_pos.y + i });
        }
        assert(targets@ =~= nearer + pass_targets_at(*map, *start_pos, i as nat));
        i += 1;
    }
    proof {
        if max_distance == 0 {
            assert(i == 1);
            assert(pass_targets(*map, *start_pos, 1) =~= Seq::empty());
            assert(pass_targets(*map, *start_pos, 0) =~= Seq::empty());
        } else {
            assert(i == max_distance);
        }
        lemma_pass_targets(*map, *start_pos, max_distance as nat);
    }
    targets
}

/// The number of steps between two tiles on an empty map.
pub open spec fn manhattan(a: TileCoord, b: TileCoord) -> nat {
    let dx = if a.x >= b.x {
        a.x - b.x
    } else {
        b.x - a.x
    };
    let dy = if a.y >= b.y {
        a.y - b.y
    } else {
        b.y - a.y
    };
    (dx + dy) as nat
}

/// A route from a tile of the map stays on the map and ends no further from
/// its start than it has steps.
pub proof fn lemma_route_stays_near(
    map: TileMap,
    players: Seq<Placed>,
    start: TileCoord,
    path: Seq<TileCoord>,
)
    requires
        map.covers(start),
        is_route(map, players, start, path),
    ensures
        map.covers(path_end(start, path)),
        manhattan(start, path_end(start, path)) <= path.len(),
    decreases path.len(),
{
    if path.len() > 0 {
        let shorter = path.drop_last();
        let last = path.len() - 1;
        assert forall|i: int| 0 <= i < shorter.len() implies adjacent(
            map,
            step_origin(start, shorter, i),
            #[trigger] shorter[i],
        ) && passable(players, start, shorter[i]) by {
            assert(shorter[i] == path[i]);
            assert(step_origin(start, shorter, i) == step_origin(start, path, i));
        }
        lemma_route_stays_near(map, players, start, shorter);
        assert(step_origin(start, path, last) == path_end(start, shorter));
        assert(adjacent(map, path_end(start, shorter), path[last]));
    }
}

/// Where no player stands in the way, a tile of the map is reached in as
/// many steps as it is away.
pub proof fn lemma_unobstructed_route(
    map: TileMap,
    players: Seq<Placed>,
    start: TileCoord,
    tile: TileCoord,
)
    requires
        map.covers(start),
        map.covers(tile),
        forall|t: TileCoord| occupied(players, t) ==> t == start,
    ensures
        reachable(map, players, start, manhattan(start, tile), tile),
    decreases manhattan(start, tile),
{
    if tile == start {
        lemma_reachable_zero(map, players, start, tile);
    } else {
        let from = if tile.x > start.x {
            TileCoord { x: (tile.x - 1) as u32, y: tile.y }
        } else if tile.x < start.x {
            TileCoord { x: (tile.x + 1) as u32, y: tile.y }
        } else if tile.y > start.y {
            TileCoord { x: tile.x, y: (tile.y - 1) as u32 }
        } else {
            TileCoord { x: tile.x, y: (tile.y + 1) as u32 }
        };
        assert(manhattan(start, from) + 1 == manhattan(start, tile));
        lemma_unobstructed_route(map, players, start, from);
        assert(adjacent(map, from, tile));
        lemma_reachable_step(map, players, start, manhattan(start, from), from, tile);
    }
}

/// Where no player stands in the way, a run from a tile of the map reaches
/// the tiles of the map that are at most `max_distance` steps away, and no
/// others.
pub proof fn lemma_reachable_unobstructed(
    map: TileMap,
    players: Seq<Placed>,
    start: TileCoord,
    max_distance: nat,
    tile: TileCoord,
)
    requires
        map.covers(start),
        forall|t: TileCoord| occupied(players, t) ==> t == start,
    ensures
        reachable(map, players, start, max_distance, tile) <==> map.covers(tile) && manhattan(
            start,
            tile,
        ) <= max_distance,
{
    if reachable(map, players, start, max_distance, tile) {
        let path = choose|path: Seq<TileCoord>|
            #[trigger] is_route(map, players, start, path) && path.len() <= max_distance
                && path_end(start, path) == tile;
        lemma_route_stays_near(map, players, start, path);
    }
    if map.covers(tile) && manhattan(start, tile) <= max_distance {
        lemma_unobstructed_route(map, players, start, tile);
        lemma_reachable_further(
            map,
            players,
            start,
            manhattan(start, tile),
            max_distance,
            tile,
        );
    }
}

/// A tile on which a player stands is not reached, however near it is,
/// unless the run began on it.
pub proof fn lemma_occupied_not_reachable(
    map: TileMap,
    players: Seq<Placed>,
    start: TileCoord,
    max_distance: nat,
    tile: TileCoord,
)
    requires
        occupied(players, tile),
        tile != start,
    ensures
        !reachable(map, players, start, max_distance, tile),
{
    if reachable(map, players, start, max_distance, tile) {
        let path = choose|path: Seq<TileCoord>|
            #[trigger] is_route(map, players, start, path) && path.len() <= max_distance
                && path_end(start, path) == tile;
        assert(passable(players, start, path[path.len() - 1]));
    }
}

/// A reached tile is reached by a route that crosses no tile on which a
/// player stands: every tile of the route but the start is free, and every
/// tile of the route is itself reached.
pub proof fn lemma_reachable_route(
    map: TileMap,
    players: Seq<Placed>,
    start: TileCoord,
    max_distance: nat,
    tile: TileCoord,
) -> (path: Seq<TileCoord>)
    requires
        reachable(map, players, start, max_distance, tile),
    ensures
        is_chain(map, start, path),
        path.len() <= max_distance,
        path_end(start, path) == tile,
        forall|i: int|
            0 <= i < path.len() ==> (#[trigger] path[i] == start || !occupied(players, path[i])),
        forall|i: int|
            0 <= i < path.len() ==> reachable(map, players, start, max_distance, #[trigger] path[i]),
{
    let path = choose|path: Seq<TileCoord>|
        #[trigger] is_route(map, players, start, path) && path.len() <= max_distance && path_end(
            start,
            path,
        ) == tile;
    assert forall|i: int| 0 <= i < path.len() implies reachable(
        map,
        players,
        start,
        max_distance,
        #[trigger] path[i],
    ) by {
        let head = path.take(i + 1);
        assert forall|j: int| 0 <= j < head.len() implies adjacent(
            map,
            step_origin(start, head, j),
            #[trigger] head[j],
        ) && passable(players, start, head[j]) by {
            assert(head[j] == path[j]);
            assert(step_origin(start, head, j) == step_origin(start, path, j));
        }
        assert(is_route(map, players, start, head));
        assert(path_end(start, head) == path[i]);
    }
    path
}

/// Players that join those on the map open no new tile to a run.
pub proof fn lemma_more_players_reach_less(
    map: TileMap,
    fewer: Seq<Placed>,
    more: Seq<Placed>,
    start: TileCoord,
    max_distance: nat,
    tile: TileCoord,
)
    requires
        forall|t: TileCoord| occupied(fewer, t) ==> occupied(more, t),
        reachable(map, more, start, max_distance, tile),
    ensures
        reachable(map, fewer, start, max_distance, tile),
{
    let path = choose|path: Seq<TileCoord>|
        #[trigger] is_route(map, more, start, path) && path.len() <= max_distance && path_end(
            start,
            path,
        ) == tile;
    assert(is_route(map, fewer, start, path));
}

} // verus!
