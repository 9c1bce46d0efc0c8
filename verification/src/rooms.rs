//! Room placement by rejection sampling, and the floor that placed rooms
//! stamp on the grid.

use vstd::prelude::*;
use vstd::arithmetic::div_mod::lemma_fundamental_div_mod_converse;
use crate::draws::after_draw;
use crate::draws::Draws;
use crate::draws::first_draw;
use crate::grid::DungeonError;
use crate::grid::Grid;
use crate::grid::GridView;
use crate::grid::lemma_dims_bounded;
use crate::grid::lemma_index_of_cell;
use crate::grid::lemma_same_cell;
use crate::grid::MAX_CELLS;
use crate::grid::Pos;
use crate::room::in_stamp;
use crate::room::pairwise_apart;
use crate::room::Rect;
use crate::room::Room;
use crate::room::room_fits;
use crate::room::room_size;
use crate::room::ROOM_SIZE_COUNT;
use crate::room::rooms_overlap;
use crate::room::spec_room_size;
use crate::tile::Tile;

verus! {

/// How many positions are tried for one room before placement gives up.
pub const ROOM_GENERATION_ATTEMPTS: usize = 50;

/// Whether `room` can join the rooms placed so far: it fits the grid and
/// overlaps none of them.
pub open spec fn accepts(g: GridView, placed: Seq<Room>, room: Room) -> bool {
    room_fits(g, room) && forall|k: int|
        0 <= k < placed.len() ==> !rooms_overlap(#[trigger] placed[k], room)
}

/// The room of size `size` whose corner the next two draws of `rest` pick
/// within `bounds`: first the column, then the row.
pub open spec fn candidate(size: Pos, bounds: Pos, rest: Seq<u32>) -> Room {
    Room {
        pos: Pos {
            x: first_draw(rest, bounds.x as int) as i64,
            y: first_draw(after_draw(rest), bounds.y as int) as i64,
        },
        size,
    }
}

/// The outcome of at most `attempts` tries to place a room of size `size`:
/// the first candidate that is accepted, if there is one, and the draws
/// left over.
pub open spec fn first_accepted(
    g: GridView,
    placed: Seq<Room>,
    size: Pos,
    bounds: Pos,
    rest: Seq<u32>,
    attempts: nat,
) -> (Option<Room>, Seq<u32>)
    decreases attempts,
{
    if attempts == 0 {
        (None, rest)
    } else {
        let room = candidate(size, bounds, rest);
        let left = after_draw(after_draw(rest));
        if accepts(g, placed, room) {
            (Some(room), left)
        } else {
            first_accepted(g, placed, size, bounds, left, (attempts - 1) as nat)
        }
    }
}

/// The outcome of placing rooms until there are `amount` of them, starting
/// from `placed`. For each room one draw picks its shape from the catalog;
/// then positions are tried. Placement gives up at the first room that
/// finds no spot, and at once where `bounds` holds no position.
pub open spec fn placement(
    g: GridView,
    placed: Seq<Room>,
    amount: nat,
    bounds: Pos,
    rest: Seq<u32>,
) -> (Result<Seq<Room>, DungeonError>, Seq<u32>)
    decreases amount - placed.len(),
{
    if placed.len() >= amount {
        (Ok(placed), rest)
    } else if bounds.x <= 0 || bounds.y <= 0 {
        (Err(DungeonError::PlacementExhausted), rest)
    } else {
        let size = spec_room_size(first_draw(rest, ROOM_SIZE_COUNT as int));
        let (found, left) = first_accepted(
            g,
            placed,
            size,
            bounds,
            after_draw(rest),
            ROOM_GENERATION_ATTEMPTS as nat,
        );
        match found {
            Some(room) => placement(g, placed.push(room), amount, bounds, left),
            None => (Err(DungeonError::PlacementExhausted), left),
        }
    }
}

/// Whether each room of `rooms` fits the grid.
pub open spec fn all_fit(g: GridView, rooms: Seq<Room>) -> bool {
    forall|k: int| 0 <= k < rooms.len() ==> room_fits(g, #[trigger] rooms[k])
}

/// Whether each room of `rooms` has a shape of the catalog.
pub open spec fn all_from_catalog(rooms: Seq<Room>) -> bool {
    forall|k: int|
        0 <= k < rooms.len() ==> (#[trigger] rooms[k]).size == spec_room_size(0) || rooms[k].size
            == spec_room_size(1)
}

/// The room that is found for a shape is accepted and has that shape.
pub proof fn lemma_first_accepted(
    g: GridView,
    placed: Seq<Room>,
    size: Pos,
    bounds: Pos,
    rest: Seq<u32>,
    attempts: nat,
)
    ensures
        first_accepted(g, placed, size, bounds, rest, attempts).0 matches Some(room) ==> accepts(
            g,
            placed,
            room,
        ) && room.size == size,
    decreases attempts,
{
    if attempts > 0 && !accepts(g, placed, candidate(size, bounds, rest)) {
        lemma_first_accepted(
            g,
            placed,
            size,
            bounds,
            after_draw(after_draw(rest)),
            (attempts - 1) as nat,
        );
    }
}

/// Placement that succeeds yields rooms that fit the grid, have a shape of
/// the catalog and do not overlap, as many as were asked for.
pub proof fn lemma_placement(
    g: GridView,
    placed: Seq<Room>,
    amount: nat,
    bounds: Pos,
    rest: Seq<u32>,
)
    requires
        placed.len() <= amount,
        all_fit(g, placed),
        all_from_catalog(placed),
        pairwise_apart(placed),
    ensures
        placement(g, placed, amount, bounds, rest).0 matches Ok(rooms) ==> rooms.len() == amount
            && all_fit(g, rooms) && all_from_catalog(rooms) && pairwise_apart(rooms),
    decreases amount - placed.len(),
{
    if placed.len() < amount && bounds.x > 0 && bounds.y > 0 {
        let size = spec_room_size(first_draw(rest, ROOM_SIZE_COUNT as int));
        lemma_first_accepted(
            g,
            placed,
            size,
            bounds,
            after_draw(rest),
            ROOM_GENERATION_ATTEMPTS as nat,
        );
        let (found, left) = first_accepted(
            g,
            placed,
            size,
            bounds,
            after_draw(rest),
            ROOM_GENERATION_ATTEMPTS as nat,
        );
        match found {
            Some(room) => {
                let more = placed.push(room);
                assert(all_fit(g, more)) by {
                    assert forall|k: int| 0 <= k < more.len() implies room_fits(
                        g,
                        #[trigger] more[k],
                    ) by {
                        if k < placed.len() {
                            assert(more[k] == placed[k]);
                        }
                    }
                }
                assert(all_from_catalog(more)) by {
                    assert forall|k: int| 0 <= k < more.len() implies (#[trigger] more[k]).size
                        == spec_room_size(0) || more[k].size == spec_room_size(1) by {
                        if k < placed.len() {
                            assert(more[k] == placed[k]);
                        }
                    }
                }
                assert(pairwise_apart(more)) by {
                    assert forall|i: int, j: int| 0 <= i < j < more.len() implies !rooms_overlap(
                        #[trigger] more[i],
                        #[trigger] more[j],
                    ) by {
                        assert(more[i] == placed[i]);
                        if j < placed.len() {
                            assert(more[j] == placed[j]);
                        }
                    }
                }
                lemma_placement(g, more, amount, bounds, left);
            },
            None => {},
        }
    }
}

/// Whether `room` overlaps one of `placed`.
pub fn overlaps_any(placed: &Vec<Room>, room: &Room) -> (b: bool)
    ensures
        b == exists|k: int| 0 <= k < placed@.len() && rooms_overlap(#[trigger] placed@[k], *room),
{
    let mut k: usize = 0;
    while k < placed.len()
        invariant
            k <= placed.len(),
            forall|m: int| 0 <= m < k ==> !rooms_overlap(#[trigger] placed@[m], *room),
        decreases placed.len() - k,
    {
        if placed[k].intersects(room) {
            return true;
        }
        k = k + 1;
    }
    false
}

/// Tries up to [`ROOM_GENERATION_ATTEMPTS`] positions for a room of size
/// `size` and returns the first room that is accepted.
pub fn place_room(map: &Grid, placed: &Vec<Room>, size: Pos, bounds: Pos, draws: &mut Draws) -> (r:
    Option<Room>)
    requires
        map.wf(),
        bounds.x > 0,
        bounds.y > 0,
    ensures
        (r, final(draws)@) == first_accepted(
            map@,
            placed@,
            size,
            bounds,
            old(draws)@,
            ROOM_GENERATION_ATTEMPTS as nat,
        ),
        r matches Some(room) ==> accepts(map@, placed@, room) && room.size == size,
        final(draws)@.len() + 100 >= old(draws)@.len(),
{
    let mut attempts: usize = 0;
    while attempts < ROOM_GENERATION_ATTEMPTS
        invariant
            map.wf(),
            bounds.x > 0,
            bounds.y > 0,
            attempts <= ROOM_GENERATION_ATTEMPTS,
            first_accepted(
                map@,
                placed@,
                size,
                bounds,
                old(draws)@,
                ROOM_GENERATION_ATTEMPTS as nat,
            ) == first_accepted(
                map@,
                placed@,
                size,
                bounds,
                draws@,
                (ROOM_GENERATION_ATTEMPTS - attempts) as nat,
            ),
            draws@.len() + 2 * attempts >= old(draws)@.len(),
        decreases ROOM_GENERATION_ATTEMPTS - attempts,
    {
        let x: u64 = draws.below(bounds.x as u64);
        let y: u64 = draws.below(bounds.y as u64);
        let room = Room::new(Pos { x: x as i64, y: y as i64 }, size);
        if room.fits(map) && !overlaps_any(placed, &room) {
            return Some(room);
        }
        attempts = attempts + 1;
    }
    None
}

/// Places `amount` rooms that fit `map` and do not overlap. The corner of
/// each is drawn within `bounds`; a candidate that does not fit or overlaps
/// an earlier room is rejected and another position is tried. Fails with
/// [`DungeonError::PlacementExhausted`] as soon as one room finds no spot
/// within its attempt budget. The grid is only read.
pub fn generate_rooms(amount: usize, bounds: Pos, map: &Grid, draws: &mut Draws) -> (r: Result<
    Vec<Room>,
    DungeonError,
>)
    requires
        map.wf(),
    ensures
        match placement(map@, Seq::empty(), amount as nat, bounds, old(draws)@).0 {
            Ok(rooms) => r matches Ok(v) && v@ == rooms,
            Err(e) => r matches Err(f) && f == e,
        },
        final(draws)@ == placement(map@, Seq::empty(), amount as nat, bounds, old(draws)@).1,
        r matches Ok(v) ==> v@.len() == amount && pairwise_apart(v@) && all_fit(map@, v@)
            && all_from_catalog(v@),
        r matches Err(e) ==> e == DungeonError::PlacementExhausted,
        final(draws)@.len() + 101 * amount >= old(draws)@.len(),
{
    let mut placed_rooms: Vec<Room> = Vec::new();
    while placed_rooms.len() < amount
        invariant
            map.wf(),
            placed_rooms@.len() <= amount,
            placement(map@, Seq::empty(), amount as nat, bounds, old(draws)@) == placement(
                map@,
                placed_rooms@,
                amount as nat,
                bounds,
                draws@,
            ),
            pairwise_apart(placed_rooms@),
            all_fit(map@, placed_rooms@),
            all_from_catalog(placed_rooms@),
            draws@.len() + 101 * placed_rooms@.len() >= old(draws)@.len(),
        decreases amount - placed_rooms@.len(),
    {
        if bounds.x <= 0 || bounds.y <= 0 {
            return Err(DungeonError::PlacementExhausted);
        }
        let shape: u64 = draws.below(ROOM_SIZE_COUNT as u64);
        let size = room_size(shape as usize);
        match place_room(map, &placed_rooms, size, bounds, draws) {
            Some(room) => {
                placed_rooms.push(room);
            },
            None => {
                return Err(DungeonError::PlacementExhausted);
            },
        }
    }
    Ok(placed_rooms)
}

/// Whether one of `rooms` stamps floor on the cell at `(x, y)`.
pub open spec fn covered(rooms: Seq<Room>, x: int, y: int) -> bool {
    exists|k: int| 0 <= k < rooms.len() && in_stamp(#[trigger] rooms[k], x, y)
}

/// The tiles of `g` once every room of `rooms` has stamped its floor.
pub open spec fn stamped(g: GridView, rooms: Seq<Room>) -> Seq<Tile> {
    Seq::new(
        g.tiles.len(),
        |i: int|
            if covered(rooms, g.col(i), g.row(i)) {
                Tile::Floor
            } else {
                g.tiles[i]
            },
    )
}

/// The position of the `j`-th cell that `room` stamps: column by column,
/// each column from top to bottom.
pub open spec fn stamp_pos(room: Room, j: int) -> Pos {
    Pos {
        x: (room.pos.x + j / (room.size.y as int)) as i64,
        y: (room.pos.y + j % (room.size.y as int)) as i64,
    }
}

/// The events that stamping `room` records: one per cell of its stamp.
pub open spec fn room_events(room: Room) -> Seq<(Pos, Tile)> {
    Seq::new(
        (room.size.x * room.size.y) as nat,
        |j: int| (stamp_pos(room, j), Tile::Floor),
    )
}

/// The events that stamping `rooms` records, room after room.
pub open spec fn stamp_events(rooms: Seq<Room>) -> Seq<(Pos, Tile)>
    decreases rooms.len(),
{
    if rooms.len() == 0 {
        Seq::empty()
    } else {
        stamp_events(rooms.drop_last()) + room_events(rooms.last())
    }
}

/// Whether `(x, y)` lies in the box of columns `x0..=x1` and rows
/// `y0..=y1`.
pub open spec fn in_box(x0: int, y0: int, x1: int, y1: int, x: int, y: int) -> bool {
    x0 <= x <= x1 && y0 <= y <= y1
}

/// Whether `now` is `before` with floor on every cell of the box of columns
/// `x0..=x1` and rows `y0..=y1`, and nothing else changed.
pub open spec fn floored_box(
    before: GridView,
    now: GridView,
    x0: int,
    y0: int,
    x1: int,
    y1: int,
) -> bool {
    &&& now.width == before.width
    &&& now.height == before.height
    &&& now.textures == before.textures
    &&& now.tiles.len() == before.tiles.len()
    &&& forall|i: int|
        0 <= i < now.tiles.len() ==> #[trigger] now.tiles[i] == if in_box(
            x0,
            y0,
            x1,
            y1,
            before.col(i),
            before.row(i),
        ) {
            Tile::Floor
        } else {
            before.tiles[i]
        }
}

/// Stamps floor on the cells of one column of `room`: the column `dx`
/// steps right of its corner, as many rows as the room is high, from the
/// row of the corner on. Each stamped cell is recorded in `timeline`.
fn stamp_column(map: &mut Grid, room: &Room, dx: i64, timeline: &mut Vec<(Pos, Tile)>)
    requires
        old(map).wf(),
        room_fits(old(map)@, *room),
        0 <= dx < room.size.x,
    ensures
        final(map).wf(),
        floored_box(
            old(map)@,
            final(map)@,
            room.pos.x + dx,
            room.pos.y as int,
            room.pos.x + dx,
            room.pos.y + room.size.y - 1,
        ),
        final(timeline)@ == old(timeline)@ + Seq::new(
            room.size.y as nat,
            |y: int| (Pos { x: (room.pos.x + dx) as i64, y: (room.pos.y + y) as i64 }, Tile::Floor),
        ),
{
    proof {
        lemma_dims_bounded(map@);
    }
    let x: i64 = room.pos.x + dx;
    let mut dy: i64 = 0;
    while dy < room.size.y
        invariant
            map.wf(),
            old(map).wf(),
            room_fits(old(map)@, *room),
            0 <= dx < room.size.x,
            x == room.pos.x + dx,
            0 <= dy <= room.size.y,
            old(map)@.width <= MAX_CELLS,
            old(map)@.height <= MAX_CELLS,
            floored_box(
                old(map)@,
                map@,
                x as int,
                room.pos.y as int,
                x as int,
                room.pos.y + dy - 1,
            ),
            timeline@ == old(timeline)@ + Seq::new(
                dy as nat,
                |y: int| (Pos { x: x, y: (room.pos.y + y) as i64 }, Tile::Floor),
            ),
        decreases room.size.y - dy,
    {
        let pos = Pos { x, y: room.pos.y + dy };
        let ghost before = map@;
        match map.idx(pos) {
            Ok(i) => {
                map.set_tile(i, Tile::Floor);
                timeline.push((pos, Tile::Floor));
                proof {
                    lemma_index_of_cell(before, pos.x as int, pos.y as int);
                    assert forall|j: int| 0 <= j < map@.tiles.len() implies #[trigger] map@.tiles[j]
                        == if in_box(
                        x as int,
                        room.pos.y as int,
                        x as int,
                        room.pos.y + dy,
                        old(map)@.col(j),
                        old(map)@.row(j),
                    ) {
                        Tile::Floor
                    } else {
                        old(map)@.tiles[j]
                    } by {
                        if j != i && old(map)@.col(j) == pos.x && old(map)@.row(j) == pos.y {
                            lemma_same_cell(before, i as int, j);
                        }
                    }
                }
            },
            Err(_) => {},
        }
        dy = dy + 1;
    }
}

/// Stamps the floor of `room` on the grid: as many columns and rows as its
/// size says, from its corner on, column by column. Each stamped cell is
/// recorded in `timeline`.
pub fn stamp_room(map: &mut Grid, room: &Room, timeline: &mut Vec<(Pos, Tile)>)
    requires
        old(map).wf(),
        room_fits(old(map)@, *room),
    ensures
        final(map).wf(),
        final(map)@ == old(map)@.with_tiles(stamped(old(map)@, seq![*room])),
        final(timeline)@ == old(timeline)@ + room_events(*room),
{
    proof {
        lemma_dims_bounded(map@);
    }
    let mut dx: i64 = 0;
    while dx < room.size.x
        invariant
            map.wf(),
            old(map).wf(),
            room_fits(old(map)@, *room),
            old(map)@.width <= MAX_CELLS,
            0 <= dx <= room.size.x,
            floored_box(
                old(map)@,
                map@,
                room.pos.x as int,
                room.pos.y as int,
                room.pos.x + dx - 1,
                room.pos.y + room.size.y - 1,
            ),
            timeline@ == old(timeline)@ + Seq::new(
                (dx * room.size.y) as nat,
                |j: int| (stamp_pos(*room, j), Tile::Floor),
            ),
        decreases room.size.x - dx,
    {
        stamp_column(map, room, dx, timeline);
        proof {
            let h = room.size.y as int;
            assert((dx + 1) * h == dx * h + h) by (nonlinear_arith);
            assert(0 <= dx * h) by (nonlinear_arith)
                requires
                    0 <= dx,
                    0 <= h,
            ;
            let column = Seq::new(
                h as nat,
                |y: int|
                    (Pos { x: (room.pos.x + dx) as i64, y: (room.pos.y + y) as i64 }, Tile::Floor),
            );
            let longer = Seq::new(((dx + 1) * h) as nat, |j: int| (stamp_pos(*room, j), Tile::Floor));
            assert forall|j: int| dx * h <= j < (dx + 1) * h implies #[trigger] longer[j]
                == column[j - dx * h] by {
                lemma_fundamental_div_mod_converse(j, h, dx as int, j - dx * h);
            }
        }
        dx = dx + 1;
    }
    proof {
        let rooms = seq![*room];
        assert forall|i: int| 0 <= i < map@.tiles.len() implies map@.tiles[i] == stamped(
            old(map)@,
            rooms,
        )[i] by {
            let x = old(map)@.col(i);
            let y = old(map)@.row(i);
            if in_stamp(*room, x, y) {
                assert(in_stamp(rooms[0], x, y));
            }
        }
        assert(map@.tiles =~= stamped(old(map)@, rooms));
    }
}

/// Stamps the floor of every room of `rooms` on the grid, room after room,
/// and records each stamped cell in `timeline`.
pub fn stamp_rooms(map: &mut Grid, rooms: &Vec<Room>, timeline: &mut Vec<(Pos, Tile)>)
    requires
        old(map).wf(),
        all_fit(old(map)@, rooms@),
    ensures
        final(map).wf(),
        final(map)@ == old(map)@.with_tiles(stamped(old(map)@, rooms@)),
        final(timeline)@ == old(timeline)@ + stamp_events(rooms@),
{
    let mut r: usize = 0;
    assert(map@.tiles =~= stamped(old(map)@, rooms@.take(0)));
    while r < rooms.len()
        invariant
            r <= rooms.len(),
            map.wf(),
            old(map).wf(),
            all_fit(old(map)@, rooms@),
            map@ == old(map)@.with_tiles(stamped(old(map)@, rooms@.take(r as int))),
            timeline@ == old(timeline)@ + stamp_events(rooms@.take(r as int)),
        decreases rooms.len() - r,
    {
        let room = rooms[r];
        stamp_room(map, &room, timeline);
        proof {
            let done = rooms@.take(r as int);
            let more = rooms@.take(r as int + 1);
            assert(more.drop_last() =~= done);
            assert forall|i: int| 0 <= i < map@.tiles.len() implies map@.tiles[i] == stamped(
                old(map)@,
                more,
            )[i] by {
                let x = old(map)@.col(i);
                let y = old(map)@.row(i);
                let one = seq![room];
                if covered(one, x, y) {
                    assert(in_stamp(more[r as int], x, y));
                }
                if covered(done, x, y) {
                    let k = choose|k: int| 0 <= k < done.len() && in_stamp(#[trigger] done[k], x, y);
                    assert(in_stamp(more[k], x, y));
                }
                if covered(more, x, y) {
                    let k = choose|k: int| 0 <= k < more.len() && in_stamp(#[trigger] more[k], x, y);
                    if k < r {
                        assert(in_stamp(done[k], x, y));
                    } else {
                        assert(in_stamp(one[0], x, y));
                    }
                }
            }
            assert(map@.tiles =~= stamped(old(map)@, more));
        }
        r = r + 1;
    }
    assert(rooms@.take(rooms@.len() as int) =~= rooms@);
}

} // verus!
