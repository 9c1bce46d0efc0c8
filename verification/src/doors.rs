//! Doors: for each edge of each room, one cell just outside the edge that
//! leads on to floor two steps out.

use vstd::prelude::*;
use vstd::arithmetic::div_mod::lemma_mod_pos_bound;
use crate::corridors::cell_pos;
use crate::draws::after_draw;
use crate::draws::Draws;
use crate::draws::first_draw;
use crate::grid::Grid;
use crate::grid::GridView;
use crate::grid::lemma_dims_bounded;
use crate::grid::lemma_index_of_cell;
use crate::grid::MAX_CELLS;
use crate::grid::Pos;
use crate::level_utils::beside_idx;
use crate::level_utils::cross;
use crate::level_utils::get_tile_at_pos;
use crate::level_utils::lemma_cross_ignores_tiles;
use crate::level_utils::lemma_cross_members;
use crate::reach::beside_room;
use crate::reach::passable;
use crate::room::in_stamp;
use crate::room::Room;
use crate::room::room_fits;
use crate::rooms::all_fit;
use crate::rooms::covered;
use crate::tile::is_room;
use crate::tile::spec_is_room;
use crate::tile::Tile;

verus! {

/// One of the four edges of a room.
#[derive(Clone, Copy, Debug, PartialEq, Eq, Structural)]
pub enum Edge {
    Top,
    Bottom,
    Left,
    Right,
}

/// Number of cell pairs scanned along `edge` of `room`.
pub open spec fn edge_len(room: Room, edge: Edge) -> int {
    match edge {
        Edge::Top | Edge::Bottom => room.size.x as int,
        Edge::Left | Edge::Right => room.size.y as int,
    }
}

/// Position of the `k`-th door cell of `edge`: one step outside the floor
/// of `room`.
pub open spec fn door_pos(room: Room, edge: Edge, k: int) -> (int, int) {
    match edge {
        Edge::Top => (room.pos.x + k, room.pos.y - 1),
        Edge::Bottom => (room.pos.x + k, room.pos.y + room.size.y),
        Edge::Left => (room.pos.x - 1, room.pos.y + k),
        Edge::Right => (room.pos.x + room.size.x, room.pos.y + k),
    }
}

/// Position of the cell behind the `k`-th door cell of `edge`: two steps
/// outside the floor of `room`, on the same axis.
pub open spec fn beyond_pos(room: Room, edge: Edge, k: int) -> (int, int) {
    match edge {
        Edge::Top => (room.pos.x + k, room.pos.y - 2),
        Edge::Bottom => (room.pos.x + k, room.pos.y + room.size.y + 1),
        Edge::Left => (room.pos.x - 2, room.pos.y + k),
        Edge::Right => (room.pos.x + room.size.x + 1, room.pos.y + k),
    }
}

/// Whether the `k`-th pair of `edge` can take a door: both cells lie in the
/// grid, the door cell is no room tile and the cell behind it is one.
pub open spec fn is_candidate(g: GridView, room: Room, edge: Edge, k: int) -> bool {
    let d = door_pos(room, edge, k);
    let b = beyond_pos(room, edge, k);
    match (g.tile_at(d.0, d.1), g.tile_at(b.0, b.1)) {
        (Some(door), Some(beyond)) => !spec_is_room(&door) && spec_is_room(&beyond),
        _ => false,
    }
}

/// The door cells of the candidates among the first `n` pairs of `edge`.
pub open spec fn candidates_upto(g: GridView, room: Room, edge: Edge, n: int) -> Seq<usize>
    decreases n,
{
    if n <= 0 {
        Seq::empty()
    } else if is_candidate(g, room, edge, n - 1) {
        let d = door_pos(room, edge, n - 1);
        candidates_upto(g, room, edge, n - 1).push(g.index(d.0, d.1) as usize)
    } else {
        candidates_upto(g, room, edge, n - 1)
    }
}

/// The door cells of every candidate of `edge`, in scan order.
pub open spec fn candidates(g: GridView, room: Room, edge: Edge) -> Seq<usize> {
    candidates_upto(g, room, edge, edge_len(room, edge))
}

/// Whether `i` is the door cell of the `k`-th pair of `edge`, and that pair
/// is a candidate.
pub open spec fn is_door_of(g: GridView, room: Room, edge: Edge, k: int, i: usize) -> bool {
    is_candidate(g, room, edge, k) && g.index(door_pos(room, edge, k).0, door_pos(room, edge, k).1)
        == i
}

/// The candidates of an edge are the door cells of its candidate pairs.
/// Each is the index of a cell that is no room tile.
pub proof fn lemma_candidates(g: GridView, room: Room, edge: Edge, i: usize)
    requires
        g.wf(),
    ensures
        candidates(g, room, edge).contains(i) <==> exists|k: int|
            0 <= k < edge_len(room, edge) && #[trigger] is_door_of(g, room, edge, k, i),
        candidates(g, room, edge).contains(i) ==> i < g.cells() && !spec_is_room(
            &g.tiles[i as int],
        ),
{
    lemma_candidates_upto(g, room, edge, edge_len(room, edge), i);
}

proof fn lemma_candidates_upto(g: GridView, room: Room, edge: Edge, n: int, i: usize)
    requires
        g.wf(),
    ensures
        candidates_upto(g, room, edge, n).contains(i) <==> exists|k: int|
            0 <= k < n && #[trigger] is_door_of(g, room, edge, k, i),
        candidates_upto(g, room, edge, n).contains(i) ==> i < g.cells() && !spec_is_room(
            &g.tiles[i as int],
        ),
    decreases n,
{
    if n > 0 {
        lemma_candidates_upto(g, room, edge, n - 1, i);
        let prev = candidates_upto(g, room, edge, n - 1);
        let d = door_pos(room, edge, n - 1);
        if is_candidate(g, room, edge, n - 1) {
            lemma_index_of_cell(g, d.0, d.1);
            let m = g.index(d.0, d.1) as usize;
            if prev.push(m).contains(i) {
                let p = choose|p: int| 0 <= p < prev.push(m).len() && prev.push(m)[p] == i;
                if p == prev.len() {
                    assert(is_door_of(g, room, edge, n - 1, i));
                }
            }
            if prev.contains(i) {
                let p = choose|p: int| 0 <= p < prev.len() && prev[p] == i;
                assert(prev.push(m)[p] == i);
            }
            if m == i {
                assert(prev.push(m)[prev.len() as int] == i);
            }
        }
    }
}

/// Whether cell `i` shares an edge with a cell of the floor of `room`.
pub open spec fn beside_stamp(g: GridView, room: Room, i: usize) -> bool {
    exists|r: int|
        0 <= r < g.cells() && in_stamp(room, g.col(r), g.row(r)) && #[trigger] cross(g, r).contains(
            i,
        )
}

/// The cell of the floor of `room` that lies behind the `k`-th door cell
/// of `edge`, one step inwards.
pub open spec fn inner_pos(room: Room, edge: Edge, k: int) -> (int, int) {
    match edge {
        Edge::Top => (room.pos.x + k, room.pos.y as int),
        Edge::Bottom => (room.pos.x + k, room.pos.y + room.size.y - 1),
        Edge::Left => (room.pos.x as int, room.pos.y + k),
        Edge::Right => (room.pos.x + room.size.x - 1, room.pos.y + k),
    }
}

/// The door cell of a candidate pair shares an edge with a cell of the
/// floor of the room, provided the room has floor at all.
pub proof fn lemma_door_is_beside_room(g: GridView, room: Room, edge: Edge, k: int)
    requires
        g.wf(),
        room_fits(g, room),
        room.size.x > 0,
        room.size.y > 0,
        0 <= k < edge_len(room, edge),
        is_candidate(g, room, edge, k),
    ensures
        beside_stamp(g, room, g.index(door_pos(room, edge, k).0, door_pos(room, edge, k).1) as usize),
{
    let d = door_pos(room, edge, k);
    let n = inner_pos(room, edge, k);
    let step: int = match edge {
        Edge::Top => 0,
        Edge::Bottom => 3,
        Edge::Left => 1,
        Edge::Right => 2,
    };
    lemma_index_of_cell(g, n.0, n.1);
    lemma_index_of_cell(g, d.0, d.1);
    let r = g.index(n.0, n.1);
    let i = g.index(d.0, d.1) as usize;
    assert(beside_idx(g, r, step) == Some(i));
    lemma_cross_members(g, r, i);
    assert(in_stamp(room, g.col(r), g.row(r)));
    assert(cross(g, r).contains(i));
}

/// Whether each room of `rooms` is at least one cell wide and high.
pub open spec fn rooms_have_floor(rooms: Seq<Room>) -> bool {
    forall|k: int| 0 <= k < rooms.len() ==> (#[trigger] rooms[k]).size.x > 0 && rooms[k].size.y > 0
}

/// Whether the doors lead out of the rooms: each door is a passable cell
/// that was no room tile in `g`, and lies beside the floor of one of
/// `rooms` where every room has floor; and every cell whose tile differs
/// from the one in `g` is a door.
pub open spec fn doors_lead_out(
    g: GridView,
    now: Seq<Tile>,
    rooms: Seq<Room>,
    doors: Seq<usize>,
) -> bool {
    &&& forall|p: int|
        0 <= p < doors.len() ==> (#[trigger] doors[p]) < g.cells() && passable(
            now[doors[p] as int],
        ) && !spec_is_room(&g.tiles[doors[p] as int]) && (rooms_have_floor(rooms) ==> beside_room(
            g,
            rooms,
            doors[p],
        ))
    &&& forall|i: int|
        0 <= i < now.len() && #[trigger] now[i] != g.tiles[i] ==> doors.contains(i as usize)
}

/// The door that `edge` of `room` gets: none where the edge has no
/// candidate, else the candidate that the next draw picks.
pub open spec fn chosen_door(g: GridView, room: Room, edge: Edge, rest: Seq<u32>) -> Option<usize> {
    let group = candidates(g, room, edge);
    if group.len() > 0 {
        Some(group[first_draw(rest, group.len() as int)])
    } else {
        None
    }
}

/// The tile that a chosen door cell gets: the draw after the one that
/// picked the cell decides between [`Tile::Door`] and [`Tile::Floor`].
pub open spec fn chosen_tile(rest: Seq<u32>) -> Tile {
    if first_draw(after_draw(rest), 2) == 1 {
        Tile::Door
    } else {
        Tile::Floor
    }
}

/// Door placement in progress: the tiles, the draws left, the doors placed
/// and the events recorded.
pub struct DoorRun {
    pub tiles: Seq<Tile>,
    pub rest: Seq<u32>,
    pub doors: Seq<usize>,
    pub events: Seq<(Pos, Tile)>,
}

/// The run after `edge` of `room` has been handled.
pub open spec fn after_edge(g: GridView, run: DoorRun, room: Room, edge: Edge) -> DoorRun {
    match chosen_door(g.with_tiles(run.tiles), room, edge, run.rest) {
        Some(i) => DoorRun {
            tiles: run.tiles.update(i as int, chosen_tile(run.rest)),
            rest: after_draw(after_draw(run.rest)),
            doors: run.doors.push(i),
            events: run.events.push((cell_pos(g, i as int), chosen_tile(run.rest))),
        },
        None => run,
    }
}

/// The run after the four edges of `room` have been handled: top, bottom,
/// left, right.
pub open spec fn after_room(g: GridView, run: DoorRun, room: Room) -> DoorRun {
    after_edge(
        g,
        after_edge(g, after_edge(g, after_edge(g, run, room, Edge::Top), room, Edge::Bottom), room, Edge::Left),
        room,
        Edge::Right,
    )
}

/// The run after every room of `rooms` has been handled, in order.
pub open spec fn after_rooms(g: GridView, run: DoorRun, rooms: Seq<Room>) -> DoorRun
    decreases rooms.len(),
{
    if rooms.len() == 0 {
        run
    } else {
        after_room(g, after_rooms(g, run, rooms.drop_last()), rooms.last())
    }
}

/// Whether a run of door placement on the grid `g` has kept to the rules:
/// only cells that were no room tile have changed, into doors or floor,
/// and the doors lead out of the rooms.
pub open spec fn run_leads_out(g: GridView, run: DoorRun, rooms: Seq<Room>) -> bool {
    &&& only_doors_added(g.tiles, run.tiles)
    &&& doors_lead_out(g, run.tiles, rooms, run.doors)
}

/// Handling one edge of a room keeps a run to the rules.
pub proof fn lemma_after_edge(g: GridView, run: DoorRun, rooms: Seq<Room>, k: int, edge: Edge)
    requires
        g.wf(),
        0 <= k < rooms.len(),
        room_fits(g, rooms[k]),
        run_leads_out(g, run, rooms),
    ensures
        run_leads_out(g, after_edge(g, run, rooms[k], edge), rooms),
{
    let room = rooms[k];
    let here = g.with_tiles(run.tiles);
    let later = after_edge(g, run, room, edge);
    match chosen_door(here, room, edge, run.rest) {
        Some(i) => {
            let group = candidates(here, room, edge);
            let pick = first_draw(run.rest, group.len() as int);
            assert(0 <= pick < group.len()) by {
                if run.rest.len() > 0 {
                    lemma_mod_pos_bound(run.rest[0] as int, group.len() as int);
                }
            }
            assert(group[pick] == i);
            lemma_candidates(here, room, edge, i);
            assert forall|p: int| 0 <= p < later.doors.len() implies (#[trigger] later.doors[p])
                < g.cells() && passable(later.tiles[later.doors[p] as int]) && !spec_is_room(
                &g.tiles[later.doors[p] as int],
            ) && (rooms_have_floor(rooms) ==> beside_room(g, rooms, later.doors[p])) by {
                if p < run.doors.len() {
                    assert(later.doors[p] == run.doors[p]);
                } else {
                    assert(later.doors[p] == i);
                    if rooms_have_floor(rooms) {
                        assert(room.size.x > 0 && room.size.y > 0);
                        let n = choose|n: int|
                            0 <= n < edge_len(room, edge) && #[trigger] is_door_of(
                                here,
                                room,
                                edge,
                                n,
                                i,
                            );
                        lemma_door_is_beside_room(here, room, edge, n);
                        let r = choose|r: int|
                            0 <= r < here.cells() && in_stamp(room, here.col(r), here.row(r))
                                && #[trigger] cross(here, r).contains(i);
                        lemma_cross_ignores_tiles(here, g, r);
                        assert(in_stamp(rooms[k], g.col(r), g.row(r)));
                        assert(covered(rooms, g.col(r), g.row(r)));
                        assert(cross(g, r).contains(i));
                    }
                }
            }
            assert forall|j: int|
                0 <= j < later.tiles.len() && #[trigger] later.tiles[j]
                    != g.tiles[j] implies later.doors.contains(j as usize) by {
                if j == i {
                    assert(later.doors[run.doors.len() as int] == i);
                } else {
                    assert(run.tiles[j] != g.tiles[j]);
                    let q = choose|q: int| 0 <= q < run.doors.len() && run.doors[q] == j as usize;
                    assert(later.doors[q] == j as usize);
                }
            }
        },
        None => {},
    }
}

/// Handling every room keeps a run to the rules.
pub proof fn lemma_after_rooms(g: GridView, run: DoorRun, rooms: Seq<Room>, n: int)
    requires
        g.wf(),
        all_fit(g, rooms),
        0 <= n <= rooms.len(),
        run_leads_out(g, run, rooms),
    ensures
        run_leads_out(g, after_rooms(g, run, rooms.take(n)), rooms),
    decreases n,
{
    if n > 0 {
        let some = rooms.take(n);
        assert(some.drop_last() =~= rooms.take(n - 1));
        assert(some.last() == rooms[n - 1]);
        lemma_after_rooms(g, run, rooms, n - 1);
        let before = after_rooms(g, run, rooms.take(n - 1));
        let room = rooms[n - 1];
        assert(room_fits(g, rooms[n - 1]));
        lemma_after_edge(g, before, rooms, n - 1, Edge::Top);
        let top = after_edge(g, before, room, Edge::Top);
        lemma_after_edge(g, top, rooms, n - 1, Edge::Bottom);
        let bottom = after_edge(g, top, room, Edge::Bottom);
        lemma_after_edge(g, bottom, rooms, n - 1, Edge::Left);
        let left = after_edge(g, bottom, room, Edge::Left);
        lemma_after_edge(g, left, rooms, n - 1, Edge::Right);
    }
}

fn scan_len(room: &Room, edge: Edge) -> (n: i64)
    ensures
        n == edge_len(*room, edge),
{
    match edge {
        Edge::Top | Edge::Bottom => room.size.x,
        Edge::Left | Edge::Right => room.size.y,
    }
}

fn door_at(room: &Room, edge: Edge, k: i64) -> (p: Pos)
    requires
        0 <= room.pos.x <= MAX_CELLS,
        0 <= room.pos.y <= MAX_CELLS,
        0 <= room.size.x <= MAX_CELLS,
        0 <= room.size.y <= MAX_CELLS,
        0 <= k <= MAX_CELLS,
    ensures
        (p.x as int, p.y as int) == door_pos(*room, edge, k as int),
{
    match edge {
        Edge::Top => Pos { x: room.pos.x + k, y: room.pos.y - 1 },
        Edge::Bottom => Pos { x: room.pos.x + k, y: room.pos.y + room.size.y },
        Edge::Left => Pos { x: room.pos.x - 1, y: room.pos.y + k },
        Edge::Right => Pos { x: room.pos.x + room.size.x, y: room.pos.y + k },
    }
}

fn beyond_at(room: &Room, edge: Edge, k: i64) -> (p: Pos)
    requires
        0 <= room.pos.x <= MAX_CELLS,
        0 <= room.pos.y <= MAX_CELLS,
        0 <= room.size.x <= MAX_CELLS,
        0 <= room.size.y <= MAX_CELLS,
        0 <= k <= MAX_CELLS,
    ensures
        (p.x as int, p.y as int) == beyond_pos(*room, edge, k as int),
{
    match edge {
        Edge::Top => Pos { x: room.pos.x + k, y: room.pos.y - 2 },
        Edge::Bottom => Pos { x: room.pos.x + k, y: room.pos.y + room.size.y + 1 },
        Edge::Left => Pos { x: room.pos.x - 2, y: room.pos.y + k },
        Edge::Right => Pos { x: room.pos.x + room.size.x + 1, y: room.pos.y + k },
    }
}

/// The door cells of every candidate of `edge` of `room`, in scan order.
/// The grid is only read.
pub fn door_candidates(map: &Grid, room: &Room, edge: Edge) -> (group: Vec<usize>)
    requires
        map.wf(),
        room_fits(map@, *room),
    ensures
        group@ == candidates(map@, *room, edge),
        forall|p: int| 0 <= p < group@.len() ==> group@[p] < map@.cells(),
{
    proof {
        lemma_dims_bounded(map@);
    }
    let mut group: Vec<usize> = Vec::new();
    let n: i64 = scan_len(room, edge);
    let mut k: i64 = 0;
    while k < n
        invariant
            map.wf(),
            room_fits(map@, *room),
            map@.width <= MAX_CELLS,
            map@.height <= MAX_CELLS,
            n == edge_len(*room, edge),
            0 <= k,
            k <= n || n < 0,
            group@ == candidates_upto(map@, *room, edge, k as int),
            forall|p: int| 0 <= p < group@.len() ==> group@[p] < map@.cells(),
        decreases n - k,
    {
        let door_lookup_pos = door_at(room, edge, k);
        let other_room_pos = beyond_at(room, edge, k);
        let maybe_door_tile = get_tile_at_pos(map, door_lookup_pos);
        let maybe_other_room_tile = get_tile_at_pos(map, other_room_pos);
        match (maybe_door_tile, maybe_other_room_tile) {
            (Some(tile_space), Some(tile_maybe_connection)) => {
                if !is_room(&tile_space) && is_room(&tile_maybe_connection) {
                    match map.idx(door_lookup_pos) {
                        Ok(i) => {
                            group.push(i);
                        },
                        Err(_) => {},
                    }
                }
            },
            _ => {},
        }
        k = k + 1;
    }
    group
}

/// Gives `edge` of `room` its door. Where the edge has candidates, one is
/// drawn, the tile of its door cell becomes [`Tile::Door`] or
/// [`Tile::Floor`] by a second draw, the change is recorded in `timeline`,
/// and the index of the door cell is returned. Where it has none, nothing
/// is drawn or changed.
pub fn generate_doors(
    map: &mut Grid,
    room: &Room,
    edge: Edge,
    draws: &mut Draws,
    timeline: &mut Vec<(Pos, Tile)>,
) -> (door: Option<usize>)
    requires
        old(map).wf(),
        room_fits(old(map)@, *room),
    ensures
        final(map).wf(),
        door == chosen_door(old(map)@, *room, edge, old(draws)@),
        door is Some <==> candidates(old(map)@, *room, edge).len() > 0,
        match door {
            Some(i) => {
                &&& i < old(map)@.cells()
                &&& candidates(old(map)@, *room, edge).contains(i)
                &&& !spec_is_room(&old(map)@.tiles[i as int])
                &&& room.size.x > 0 && room.size.y > 0 ==> beside_stamp(old(map)@, *room, i)
                &&& final(map)@ == old(map)@.with_tiles(
                    old(map)@.tiles.update(i as int, chosen_tile(old(draws)@)),
                )
                &&& final(draws)@ == after_draw(after_draw(old(draws)@))
                &&& final(timeline)@ == old(timeline)@.push(
                    (cell_pos(old(map)@, i as int), chosen_tile(old(draws)@)),
                )
            },
            None => {
                &&& final(map)@ == old(map)@
                &&& final(draws)@ == old(draws)@
                &&& final(timeline)@ == old(timeline)@
            },
        },
{
    let group = door_candidates(map, room, edge);
    if group.len() > 0 {
        let chosen: usize = draws.below(group.len() as u64) as usize;
        proof {
            let door = group@[chosen as int];
            lemma_candidates(map@, *room, edge, door);
            if room.size.x > 0 && room.size.y > 0 {
                let k = choose|k: int|
                    0 <= k < edge_len(*room, edge) && #[trigger] is_door_of(
                        map@,
                        *room,
                        edge,
                        k,
                        door,
                    );
                lemma_door_is_beside_room(map@, *room, edge, k);
            }
        }
        let coin: u64 = draws.below(2);
        let tile = if coin == 1 {
            Tile::Door
        } else {
            Tile::Floor
        };
        let i: usize = group[chosen];
        map.set_tile(i, tile);
        match map.idx_to_vec2(i) {
            Ok(pos) => {
                timeline.push((pos, tile));
            },
            Err(_) => {},
        }
        Some(i)
    } else {
        None
    }
}

/// Whether `now` differs from `before` only in cells that were no room
/// tile and have become a door or floor.
pub open spec fn only_doors_added(before: Seq<Tile>, now: Seq<Tile>) -> bool {
    &&& now.len() == before.len()
    &&& forall|i: int|
        0 <= i < now.len() ==> #[trigger] now[i] == before[i] || (!spec_is_room(&before[i]) && (
            now[i] == Tile::Door || now[i] == Tile::Floor))
}

/// Gives every edge of every room its door: room after room, and for each
/// room the edges top, bottom, left, right. Returns the indices of the door
/// cells in the order in which they were placed.
pub fn place_doors(
    map: &mut Grid,
    rooms: &Vec<Room>,
    draws: &mut Draws,
    timeline: &mut Vec<(Pos, Tile)>,
) -> (doors: Vec<usize>)
    requires
        old(map).wf(),
        all_fit(old(map)@, rooms@),
    ensures
        final(map).wf(),
        ({
            let run = after_rooms(
                old(map)@,
                DoorRun {
                    tiles: old(map)@.tiles,
                    rest: old(draws)@,
                    doors: Seq::empty(),
                    events: old(timeline)@,
                },
                rooms@,
            );
            &&& final(map)@ == old(map)@.with_tiles(run.tiles)
            &&& final(draws)@ == run.rest
            &&& doors@ == run.doors
            &&& final(timeline)@ == run.events
        }),
        forall|p: int| 0 <= p < doors@.len() ==> doors@[p] < old(map)@.cells(),
        only_doors_added(old(map)@.tiles, final(map)@.tiles),
        doors_lead_out(old(map)@, final(map)@.tiles, rooms@, doors@),
        doors@.len() <= 4 * rooms@.len(),
        final(draws)@.len() + 8 * rooms@.len() >= old(draws)@.len(),
{
    let mut doors: Vec<usize> = Vec::new();
    let ghost start = DoorRun {
        tiles: old(map)@.tiles,
        rest: old(draws)@,
        doors: Seq::empty(),
        events: old(timeline)@,
    };
    let ghost mut run = start;
    let mut r: usize = 0;
    while r < rooms.len()
        invariant
            r <= rooms.len(),
            map.wf(),
            old(map).wf(),
            all_fit(old(map)@, rooms@),
            start == (DoorRun {
                tiles: old(map)@.tiles,
                rest: old(draws)@,
                doors: Seq::empty(),
                events: old(timeline)@,
            }),
            run == after_rooms(old(map)@, start, rooms@.take(r as int)),
            map@ == old(map)@.with_tiles(run.tiles),
            draws@ == run.rest,
            doors@ == run.doors,
            timeline@ == run.events,
            forall|p: int| 0 <= p < doors@.len() ==> doors@[p] < old(map)@.cells(),
            only_doors_added(old(map)@.tiles, map@.tiles),
            doors_lead_out(old(map)@, map@.tiles, rooms@, doors@),
            doors@.len() <= 4 * r,
            draws@.len() + 8 * r >= old(draws)@.len(),
        decreases rooms.len() - r,
    {
        let room = rooms[r];
        let ghost before = run;
        let mut e: usize = 0;
        while e < 4
            invariant
                e <= 4,
                r < rooms@.len(),
                room == rooms@[r as int],
                map.wf(),
                old(map).wf(),
                room_fits(old(map)@, room),
                run == if e == 0 {
                    before
                } else if e == 1 {
                    after_edge(old(map)@, before, room, Edge::Top)
                } else if e == 2 {
                    after_edge(
                        old(map)@,
                        after_edge(old(map)@, before, room, Edge::Top),
                        room,
                        Edge::Bottom,
                    )
                } else if e == 3 {
                    after_edge(
                        old(map)@,
                        after_edge(
                            old(map)@,
                            after_edge(old(map)@, before, room, Edge::Top),
                            room,
                            Edge::Bottom,
                        ),
                        room,
                        Edge::Left,
                    )
                } else {
                    after_room(old(map)@, before, room)
                },
                map@ == old(map)@.with_tiles(run.tiles),
                draws@ == run.rest,
                doors@ == run.doors,
                timeline@ == run.events,
                forall|p: int| 0 <= p < doors@.len() ==> doors@[p] < old(map)@.cells(),
                only_doors_added(old(map)@.tiles, map@.tiles),
                doors_lead_out(old(map)@, map@.tiles, rooms@, doors@),
                doors@.len() <= 4 * r + e,
                draws@.len() + 8 * r + 2 * e >= old(draws)@.len(),
            decreases 4 - e,
        {
            let edge = if e == 0 {
                Edge::Top
            } else if e == 1 {
                Edge::Bottom
            } else if e == 2 {
                Edge::Left
            } else {
                Edge::Right
            };
            let ghost here = map@;
            let ghost earlier = doors@;
            match generate_doors(map, &room, edge, draws, timeline) {
                Some(i) => {
                    doors.push(i);
                    proof {
                        let g = old(map)@;
                        assert forall|p: int| 0 <= p < doors@.len() implies (#[trigger] doors@[p])
                            < g.cells() && passable(map@.tiles[doors@[p] as int]) && !spec_is_room(
                            &g.tiles[doors@[p] as int],
                        ) && (rooms_have_floor(rooms@) ==> beside_room(g, rooms@, doors@[p])) by {
                            if p < earlier.len() {
                                assert(doors@[p] == earlier[p]);
                            } else {
                                assert(doors@[p] == i);
                                if rooms_have_floor(rooms@) {
                                    assert(room.size.x > 0 && room.size.y > 0);
                                    let n = choose|n: int|
                                        0 <= n < here.cells() && in_stamp(
                                            room,
                                            here.col(n),
                                            here.row(n),
                                        ) && #[trigger] cross(here, n).contains(i);
                                    lemma_cross_ignores_tiles(here, g, n);
                                    assert(in_stamp(rooms@[r as int], g.col(n), g.row(n)));
                                    assert(covered(rooms@, g.col(n), g.row(n)));
                                    assert(cross(g, n).contains(i));
                                }
                            }
                        }
                        assert forall|j: int|
                            0 <= j < map@.tiles.len() && #[trigger] map@.tiles[j]
                                != g.tiles[j] implies doors@.contains(j as usize) by {
                            if j == i {
                                assert(doors@[earlier.len() as int] == i);
                            } else {
                                assert(here.tiles[j] != g.tiles[j]);
                                let q = choose|q: int|
                                    0 <= q < earlier.len() && earlier[q] == j as usize;
                                assert(doors@[q] == j as usize);
                            }
                        }
                    }
                },
                None => {},
            }
            proof {
                run = after_edge(old(map)@, run, room, edge);
            }
            e = e + 1;
        }
        proof {
            let done = rooms@.take(r as int);
            let more = rooms@.take(r as int + 1);
            assert(more.drop_last() =~= done);
        }
        r = r + 1;
    }
    assert(rooms@.take(rooms@.len() as int) =~= rooms@);
    doors
}

} // verus!
