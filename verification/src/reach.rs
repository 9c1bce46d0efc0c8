//! Reachability: which cells one can walk on are joined to the floor of a
//! room by a path of such cells.

use vstd::prelude::*;
use crate::corridors::all_cells;
use crate::corridors::blocked;
use crate::corridors::carved;
use crate::corridors::has_link;
use crate::corridors::in_corridors;
use crate::corridors::lemma_touches_door_ignores_tiles;
use crate::corridors::linked;
use crate::corridors::orphaned;
use crate::corridors::pruned;
use crate::corridors::touches_door;
use crate::doors::doors_lead_out;
use crate::doors::only_doors_added;
use crate::doors::rooms_have_floor;
use crate::grid::GridView;
use crate::level_utils::cross;
use crate::level_utils::lemma_cross_ignores_tiles;
use crate::level_utils::lemma_cross_symmetric;
use crate::room::Room;
use crate::rooms::covered;
use crate::rooms::stamped;
use crate::tile::spec_is_room;
use crate::tile::Tile;
use crate::walls::walled;

verus! {

/// Whether one can walk on `tile`: floor and doors.
pub open spec fn passable(tile: Tile) -> bool {
    tile == Tile::Floor || tile == Tile::Door
}

/// Whether `path` is a walk over the grid: it holds at least one cell,
/// each of its cells is passable, and each shares an edge with the one
/// before it.
pub open spec fn is_path(g: GridView, path: Seq<usize>) -> bool {
    &&& path.len() > 0
    &&& forall|k: int|
        0 <= k < path.len() ==> #[trigger] path[k] < g.cells() && passable(g.tiles[path[k] as int])
    &&& forall|k: int|
        0 < k < path.len() ==> cross(g, path[k - 1] as int).contains(#[trigger] path[k])
}

/// Whether `path` starts on the floor of one of `rooms` and ends at cell
/// `i`.
pub open spec fn leads_to(g: GridView, rooms: Seq<Room>, path: Seq<usize>, i: usize) -> bool {
    &&& is_path(g, path)
    &&& covered(rooms, g.col(path[0] as int), g.row(path[0] as int))
    &&& path.last() == i
}

/// Whether cell `i` can be reached from the floor of one of `rooms`.
pub open spec fn reachable(g: GridView, rooms: Seq<Room>, i: usize) -> bool {
    exists|path: Seq<usize>| #[trigger] leads_to(g, rooms, path, i)
}

/// Whether cell `i` shares an edge with a cell on the floor of one of
/// `rooms`.
pub open spec fn beside_room(g: GridView, rooms: Seq<Room>, i: usize) -> bool {
    exists|r: int|
        0 <= r < g.cells() && covered(rooms, g.col(r), g.row(r)) && #[trigger] cross(
            g,
            r,
        ).contains(i)
}

/// Whether every cell of `cells` is passable.
pub open spec fn all_passable(g: GridView, cells: Seq<usize>) -> bool {
    forall|p: int| 0 <= p < cells.len() ==> passable(g.tiles[#[trigger] cells[p] as int])
}

/// A passable cell on the floor of a room is reached by standing on it.
pub proof fn lemma_room_cell_is_reachable(g: GridView, rooms: Seq<Room>, i: usize)
    requires
        i < g.cells(),
        passable(g.tiles[i as int]),
        covered(rooms, g.col(i as int), g.row(i as int)),
    ensures
        reachable(g, rooms, i),
{
    let path = seq![i];
    assert(leads_to(g, rooms, path, i));
}

/// A passable cell that shares an edge with a reachable cell is reachable.
pub proof fn lemma_step(g: GridView, rooms: Seq<Room>, from: usize, to: usize)
    requires
        reachable(g, rooms, from),
        to < g.cells(),
        passable(g.tiles[to as int]),
        cross(g, from as int).contains(to),
    ensures
        reachable(g, rooms, to),
{
    let path = choose|path: Seq<usize>| #[trigger] leads_to(g, rooms, path, from);
    let longer = path.push(to);
    assert forall|k: int| 0 <= k < longer.len() implies #[trigger] longer[k] < g.cells()
        && passable(g.tiles[longer[k] as int]) by {
        if k < path.len() {
            assert(longer[k] == path[k]);
        }
    }
    assert forall|k: int| 0 < k < longer.len() implies cross(g, longer[k - 1] as int).contains(
        #[trigger] longer[k],
    ) by {
        if k < path.len() {
            assert(longer[k] == path[k]);
            assert(longer[k - 1] == path[k - 1]);
        } else {
            assert(longer[k - 1] == path.last());
        }
    }
    assert(longer[0] == path[0]);
    assert(leads_to(g, rooms, longer, to));
}

/// In a corridor whose cells hang together, the first cell is reachable
/// once any cell is.
pub proof fn lemma_towards_start(g: GridView, rooms: Seq<Room>, cells: Seq<usize>, p: int)
    requires
        g.wf(),
        all_cells(g, cells),
        all_passable(g, cells),
        linked(g, cells, 0),
        0 <= p < cells.len(),
        reachable(g, rooms, cells[p]),
    ensures
        reachable(g, rooms, cells[0]),
    decreases p,
{
    if p > 0 {
        assert(has_link(g, cells, 0, p));
        let q = choose|q: int| 0 <= q < p && #[trigger] cross(g, cells[q] as int).contains(cells[p]);
        lemma_cross_symmetric(g, cells[q] as int, cells[p] as int);
        lemma_step(g, rooms, cells[p], cells[q]);
        lemma_towards_start(g, rooms, cells, q);
    }
}

/// In a corridor whose cells hang together, every cell is reachable once
/// the first one is.
pub proof fn lemma_from_start(g: GridView, rooms: Seq<Room>, cells: Seq<usize>, p: int)
    requires
        g.wf(),
        all_cells(g, cells),
        all_passable(g, cells),
        linked(g, cells, 0),
        0 <= p < cells.len(),
        reachable(g, rooms, cells[0]),
    ensures
        reachable(g, rooms, cells[p]),
    decreases p,
{
    if p > 0 {
        assert(has_link(g, cells, 0, p));
        let q = choose|q: int| 0 <= q < p && #[trigger] cross(g, cells[q] as int).contains(cells[p]);
        lemma_from_start(g, rooms, cells, q);
        lemma_step(g, rooms, cells[q], cells[p]);
    }
}

/// Whether every door of `doors` is a passable cell beside the floor of a
/// room.
pub open spec fn doors_open_rooms(g: GridView, rooms: Seq<Room>, doors: Seq<usize>) -> bool {
    forall|d: int|
        0 <= d < doors.len() ==> (#[trigger] doors[d]) < g.cells() && passable(
            g.tiles[doors[d] as int],
        ) && beside_room(g, rooms, doors[d])
}

/// Whether cell `i` belongs to a corridor of `corridors` that touches a
/// door.
pub open spec fn in_kept(
    g: GridView,
    corridors: Seq<Seq<usize>>,
    doors: Seq<usize>,
    i: usize,
) -> bool {
    exists|c: int|
        0 <= c < corridors.len() && touches_door(g, #[trigger] corridors[c], doors)
            && corridors[c].contains(i)
}

/// Whether no cell of `cells` belongs to a corridor that touches no door.
pub open spec fn spared(
    g: GridView,
    corridors: Seq<Seq<usize>>,
    doors: Seq<usize>,
    cells: Seq<usize>,
) -> bool {
    forall|q: int| 0 <= q < cells.len() ==> !orphaned(g, corridors, doors, #[trigger] cells[q])
}

/// What holds of the floor of a finished dungeon.
///
/// Every door is a passable cell beside the floor of a room, and can be
/// reached from it. No cell of a corridor that touches no door is
/// passable. Every passable cell lies on the floor of a room, is a door,
/// or belongs to a corridor that touches a door. And every cell of a
/// corridor that touches a door can be reached, provided the corridor
/// shares no cell with one that touches none. Where it shares one, that
/// cell is reverted and the corridor may be cut.
pub open spec fn floor_is_sound(
    g: GridView,
    rooms: Seq<Room>,
    corridors: Seq<Seq<usize>>,
    doors: Seq<usize>,
) -> bool {
    &&& doors_open_rooms(g, rooms, doors)
    &&& forall|d: int| 0 <= d < doors.len() ==> reachable(g, rooms, #[trigger] doors[d])
    &&& forall|i: int|
        0 <= i < g.cells() && orphaned(g, corridors, doors, i as usize) ==> !passable(
            #[trigger] g.tiles[i],
        )
    &&& forall|i: int|
        0 <= i < g.cells() && passable(#[trigger] g.tiles[i]) ==> covered(rooms, g.col(i), g.row(i))
            || doors.contains(i as usize) || in_kept(g, corridors, doors, i as usize)
    &&& forall|c: int, p: int|
        0 <= c < corridors.len() && 0 <= p < corridors[c].len() && touches_door(
            g,
            corridors[c],
            doors,
        ) && spared(g, corridors, doors, corridors[c]) ==> reachable(
            g,
            rooms,
            #[trigger] corridors[c][p],
        )
}

/// Every cell of a whole corridor that touches an open door is reachable.
pub proof fn lemma_kept_corridor_is_reachable(
    g: GridView,
    rooms: Seq<Room>,
    cells: Seq<usize>,
    doors: Seq<usize>,
    p: int,
)
    requires
        g.wf(),
        doors_open_rooms(g, rooms, doors),
        forall|r: int|
            0 <= r < g.cells() && covered(rooms, g.col(r), g.row(r)) ==> passable(
                #[trigger] g.tiles[r],
            ),
        all_cells(g, cells),
        all_passable(g, cells),
        linked(g, cells, 0),
        touches_door(g, cells, doors),
        0 <= p < cells.len(),
    ensures
        reachable(g, rooms, cells[p]),
{
    let (m, q) = choose|m: int, q: int|
        0 <= m < cells.len() && 0 <= q < cross(g, cells[m] as int).len() && doors.contains(
            #[trigger] cross(g, cells[m] as int)[q],
        );
    let door = cross(g, cells[m] as int)[q];
    let d = choose|d: int| 0 <= d < doors.len() && doors[d] == door;
    assert(doors[d] < g.cells() && passable(g.tiles[doors[d] as int]) && beside_room(
        g,
        rooms,
        doors[d],
    ));
    let r = choose|r: int|
        0 <= r < g.cells() && covered(rooms, g.col(r), g.row(r)) && #[trigger] cross(g, r).contains(
            door,
        );
    assert(passable(g.tiles[r]));
    lemma_room_cell_is_reachable(g, rooms, r as usize);
    lemma_step(g, rooms, r as usize, door);
    assert(cross(g, cells[m] as int).contains(door));
    lemma_cross_symmetric(g, cells[m] as int, door as int);
    lemma_step(g, rooms, door, cells[m]);
    lemma_towards_start(g, rooms, cells, m);
    lemma_from_start(g, rooms, cells, p);
}

/// Whether two grids have the same shape.
pub open spec fn same_shape(a: GridView, b: GridView) -> bool {
    a.width == b.width && a.height == b.height && a.tiles.len() == b.tiles.len()
}

/// Whether the cells of a corridor hang together depends on the shape of
/// the grid only.
pub proof fn lemma_linked_reads_shape(a: GridView, b: GridView, cells: Seq<usize>)
    requires
        same_shape(a, b),
        linked(a, cells, 0),
    ensures
        linked(b, cells, 0),
{
    assert forall|p: int| 0 < p < cells.len() implies #[trigger] has_link(b, cells, 0, p) by {
        assert(has_link(a, cells, 0, p));
        let q = choose|q: int| 0 <= q < p && #[trigger] cross(a, cells[q] as int).contains(cells[p]);
        lemma_cross_ignores_tiles(a, b, cells[q] as int);
        assert(cross(b, cells[q] as int).contains(cells[p]));
    }
}

/// Whether a cell belongs to a corridor that touches no door depends on
/// the shape of the grid only.
pub proof fn lemma_orphaned_reads_shape(
    a: GridView,
    b: GridView,
    corridors: Seq<Seq<usize>>,
    doors: Seq<usize>,
    i: usize,
)
    requires
        same_shape(a, b),
        orphaned(a, corridors, doors, i),
    ensures
        orphaned(b, corridors, doors, i),
{
    let c = choose|c: int|
        0 <= c < corridors.len() && !touches_door(a, #[trigger] corridors[c], doors)
            && corridors[c].contains(i);
    lemma_touches_door_ignores_tiles(a, b, corridors[c], doors);
    assert(!touches_door(b, corridors[c], doors));
}

/// Whether every corridor of `corridors` is a walk over cells that `g`
/// leaves free: its cells are cells of the grid, hang together, and none
/// is blocked.
pub open spec fn corridors_are_walks(g: GridView, corridors: Seq<Seq<usize>>) -> bool {
    forall|c: int|
        0 <= c < corridors.len() ==> all_cells(g, #[trigger] corridors[c]) && linked(
            g,
            corridors[c],
            0,
        ) && forall|p: int|
            0 <= p < corridors[c].len() ==> !blocked(g, #[trigger] corridors[c][p] as int)
}

/// Whether `g` is the finished grid of a dungeon that was built step by
/// step on `blank`: from rooms that have floor, with corridors that are
/// walks on the grid that holds the rooms, with doors that lead out of the
/// rooms and leave the tiles `with_doors`, then pruned and walled.
pub open spec fn finished(
    blank: GridView,
    rooms: Seq<Room>,
    corridors: Seq<Seq<usize>>,
    with_doors: Seq<Tile>,
    doors: Seq<usize>,
    g: GridView,
) -> bool {
    &&& blank.wf()
    &&& forall|i: int| 0 <= i < blank.cells() ==> blank.tiles[i] == Tile::Dirt
    &&& rooms_have_floor(rooms)
    &&& corridors_are_walks(blank.with_tiles(stamped(blank, rooms)), corridors)
    &&& only_doors_added(carved(stamped(blank, rooms), corridors), with_doors)
    &&& doors_lead_out(
        blank.with_tiles(carved(stamped(blank, rooms), corridors)),
        with_doors,
        rooms,
        doors,
    )
    &&& g.wf()
    &&& same_shape(blank, g)
    &&& g.tiles == walled(
        blank.with_tiles(pruned(blank.with_tiles(with_doors), corridors, doors)),
    )
}

/// Before the pruning, every cell of every corridor is floor, and none
/// lies on the floor of a room.
pub proof fn lemma_corridor_cells(
    blank: GridView,
    rooms: Seq<Room>,
    corridors: Seq<Seq<usize>>,
    with_doors: Seq<Tile>,
    doors: Seq<usize>,
    g: GridView,
    c: int,
    p: int,
)
    requires
        finished(blank, rooms, corridors, with_doors, doors, g),
        0 <= c < corridors.len(),
        0 <= p < corridors[c].len(),
    ensures
        corridors[c][p] < blank.cells(),
        with_doors[corridors[c][p] as int] == Tile::Floor,
        !covered(rooms, blank.col(corridors[c][p] as int), blank.row(corridors[c][p] as int)),
{
    let with_rooms = blank.with_tiles(stamped(blank, rooms));
    let cell = corridors[c][p];
    assert(all_cells(with_rooms, corridors[c]));
    assert(!blocked(with_rooms, cell as int));
    assert(corridors[c].contains(cell));
    assert(in_corridors(corridors, cell));
    assert(carved(stamped(blank, rooms), corridors)[cell as int] == Tile::Floor);
}

/// In the finished grid, the floor of every room is floor.
pub proof fn lemma_rooms_stay(
    blank: GridView,
    rooms: Seq<Room>,
    corridors: Seq<Seq<usize>>,
    with_doors: Seq<Tile>,
    doors: Seq<usize>,
    g: GridView,
    r: int,
)
    requires
        finished(blank, rooms, corridors, with_doors, doors, g),
        0 <= r < g.cells(),
        covered(rooms, g.col(r), g.row(r)),
    ensures
        g.tiles[r] == Tile::Floor,
{
    let doored = blank.with_tiles(with_doors);
    let pruned_grid = blank.with_tiles(pruned(doored, corridors, doors));
    assert(stamped(blank, rooms)[r] == Tile::Floor);
    assert(carved(stamped(blank, rooms), corridors)[r] == Tile::Floor);
    assert(with_doors[r] == Tile::Floor);
    if orphaned(doored, corridors, doors, r as usize) {
        let c = choose|c: int|
            0 <= c < corridors.len() && !touches_door(doored, #[trigger] corridors[c], doors)
                && corridors[c].contains(r as usize);
        let p = choose|p: int| 0 <= p < corridors[c].len() && corridors[c][p] == r as usize;
        lemma_corridor_cells(blank, rooms, corridors, with_doors, doors, g, c, p);
    }
    assert(pruned_grid.tiles[r] == Tile::Floor);
}

/// In the finished grid, every door is a passable cell beside the floor of
/// a room, and can be reached from it.
pub proof fn lemma_doors_stay(
    blank: GridView,
    rooms: Seq<Room>,
    corridors: Seq<Seq<usize>>,
    with_doors: Seq<Tile>,
    doors: Seq<usize>,
    g: GridView,
    d: int,
)
    requires
        finished(blank, rooms, corridors, with_doors, doors, g),
        0 <= d < doors.len(),
    ensures
        doors[d] < g.cells(),
        passable(g.tiles[doors[d] as int]),
        beside_room(g, rooms, doors[d]),
        reachable(g, rooms, doors[d]),
{
    let with_corridors = blank.with_tiles(carved(stamped(blank, rooms), corridors));
    let doored = blank.with_tiles(with_doors);
    let pruned_grid = blank.with_tiles(pruned(doored, corridors, doors));
    let door = doors[d];
    assert(door < with_corridors.cells() && passable(with_doors[door as int]) && !spec_is_room(
        &with_corridors.tiles[door as int],
    ) && beside_room(with_corridors, rooms, door));
    if orphaned(doored, corridors, doors, door) {
        let c = choose|c: int|
            0 <= c < corridors.len() && !touches_door(doored, #[trigger] corridors[c], doors)
                && corridors[c].contains(door);
        let p = choose|p: int| 0 <= p < corridors[c].len() && corridors[c][p] == door;
        lemma_corridor_cells(blank, rooms, corridors, with_doors, doors, g, c, p);
        assert(with_corridors.tiles[door as int] == Tile::Floor);
    }
    assert(pruned_grid.tiles[door as int] == with_doors[door as int]);
    let r = choose|r: int|
        0 <= r < with_corridors.cells() && covered(
            rooms,
            with_corridors.col(r),
            with_corridors.row(r),
        ) && #[trigger] cross(with_corridors, r).contains(door);
    lemma_cross_ignores_tiles(with_corridors, g, r);
    assert(cross(g, r).contains(door));
    lemma_rooms_stay(blank, rooms, corridors, with_doors, doors, g, r);
    lemma_room_cell_is_reachable(g, rooms, r as usize);
    lemma_step(g, rooms, r as usize, door);
}

/// In the finished grid, no cell of a corridor that touches no door is
/// passable.
pub proof fn lemma_orphans_go(
    blank: GridView,
    rooms: Seq<Room>,
    corridors: Seq<Seq<usize>>,
    with_doors: Seq<Tile>,
    doors: Seq<usize>,
    g: GridView,
    i: int,
)
    requires
        finished(blank, rooms, corridors, with_doors, doors, g),
        0 <= i < g.cells(),
        orphaned(g, corridors, doors, i as usize),
    ensures
        !passable(g.tiles[i]),
{
    let doored = blank.with_tiles(with_doors);
    let pruned_grid = blank.with_tiles(pruned(doored, corridors, doors));
    lemma_orphaned_reads_shape(g, doored, corridors, doors, i as usize);
    assert(pruned_grid.tiles[i] == Tile::Dirt);
}

/// In the finished grid, every passable cell lies on the floor of a room,
/// is a door, or belongs to a corridor that touches a door.
pub proof fn lemma_passable_cells(
    blank: GridView,
    rooms: Seq<Room>,
    corridors: Seq<Seq<usize>>,
    with_doors: Seq<Tile>,
    doors: Seq<usize>,
    g: GridView,
    i: int,
)
    requires
        finished(blank, rooms, corridors, with_doors, doors, g),
        0 <= i < g.cells(),
        passable(g.tiles[i]),
    ensures
        covered(rooms, g.col(i), g.row(i)) || doors.contains(i as usize) || in_kept(
            g,
            corridors,
            doors,
            i as usize,
        ),
{
    let with_rooms = stamped(blank, rooms);
    let with_corridors = carved(with_rooms, corridors);
    let doored = blank.with_tiles(with_doors);
    let pruned_grid = blank.with_tiles(pruned(doored, corridors, doors));
    assert(pruned_grid.tiles[i] == g.tiles[i]);
    assert(with_doors[i] == pruned_grid.tiles[i]);
    assert(!orphaned(doored, corridors, doors, i as usize));
    if with_doors[i] == with_corridors[i] {
        if in_corridors(corridors, i as usize) {
            let c = choose|c: int|
                0 <= c < corridors.len() && (#[trigger] corridors[c]).contains(i as usize);
            assert(touches_door(doored, corridors[c], doors));
            lemma_touches_door_ignores_tiles(doored, g, corridors[c], doors);
            assert(in_kept(g, corridors, doors, i as usize));
        } else {
            assert(with_rooms[i] == with_corridors[i]);
            assert(covered(rooms, blank.col(i), blank.row(i)));
        }
    }
}

/// In the finished grid, every cell of a corridor that touches a door can
/// be reached, provided the corridor shares no cell with one that touches
/// no door.
pub proof fn lemma_spared_corridor(
    blank: GridView,
    rooms: Seq<Room>,
    corridors: Seq<Seq<usize>>,
    with_doors: Seq<Tile>,
    doors: Seq<usize>,
    g: GridView,
    c: int,
    p: int,
)
    requires
        finished(blank, rooms, corridors, with_doors, doors, g),
        0 <= c < corridors.len(),
        0 <= p < corridors[c].len(),
        touches_door(g, corridors[c], doors),
        spared(g, corridors, doors, corridors[c]),
    ensures
        reachable(g, rooms, corridors[c][p]),
{
    let with_rooms = blank.with_tiles(stamped(blank, rooms));
    let doored = blank.with_tiles(with_doors);
    let pruned_grid = blank.with_tiles(pruned(doored, corridors, doors));
    let cells = corridors[c];
    assert(all_cells(with_rooms, cells));
    assert(all_cells(g, cells));
    lemma_linked_reads_shape(with_rooms, g, cells);
    assert forall|q: int| 0 <= q < cells.len() implies passable(
        g.tiles[#[trigger] cells[q] as int],
    ) by {
        lemma_corridor_cells(blank, rooms, corridors, with_doors, doors, g, c, q);
        assert(!orphaned(g, corridors, doors, cells[q]));
        if orphaned(doored, corridors, doors, cells[q]) {
            lemma_orphaned_reads_shape(doored, g, corridors, doors, cells[q]);
        }
        assert(pruned_grid.tiles[cells[q] as int] == Tile::Floor);
    }
    assert(doors_open_rooms(g, rooms, doors)) by {
        assert forall|d: int| 0 <= d < doors.len() implies (#[trigger] doors[d]) < g.cells()
            && passable(g.tiles[doors[d] as int]) && beside_room(g, rooms, doors[d]) by {
            lemma_doors_stay(blank, rooms, corridors, with_doors, doors, g, d);
        }
    }
    assert forall|r: int|
        0 <= r < g.cells() && covered(rooms, g.col(r), g.row(r)) implies passable(
        #[trigger] g.tiles[r],
    ) by {
        lemma_rooms_stay(blank, rooms, corridors, with_doors, doors, g, r);
    }
    lemma_kept_corridor_is_reachable(g, rooms, cells, doors, p);
}

/// The floor of a dungeon that is built step by step is sound.
pub proof fn lemma_floor_is_sound(
    blank: GridView,
    rooms: Seq<Room>,
    corridors: Seq<Seq<usize>>,
    with_doors: Seq<Tile>,
    doors: Seq<usize>,
    g: GridView,
)
    requires
        finished(blank, rooms, corridors, with_doors, doors, g),
    ensures
        floor_is_sound(g, rooms, corridors, doors),
{
    assert(doors_open_rooms(g, rooms, doors)) by {
        assert forall|d: int| 0 <= d < doors.len() implies (#[trigger] doors[d]) < g.cells()
            && passable(g.tiles[doors[d] as int]) && beside_room(g, rooms, doors[d]) by {
            lemma_doors_stay(blank, rooms, corridors, with_doors, doors, g, d);
        }
    }
    assert forall|d: int| 0 <= d < doors.len() implies reachable(g, rooms, #[trigger] doors[d]) by {
        lemma_doors_stay(blank, rooms, corridors, with_doors, doors, g, d);
    }
    assert forall|i: int|
        0 <= i < g.cells() && orphaned(g, corridors, doors, i as usize) implies !passable(
        #[trigger] g.tiles[i],
    ) by {
        lemma_orphans_go(blank, rooms, corridors, with_doors, doors, g, i);
    }
    assert forall|i: int| 0 <= i < g.cells() && passable(#[trigger] g.tiles[i]) implies covered(
        rooms,
        g.col(i),
        g.row(i),
    ) || doors.contains(i as usize) || in_kept(g, corridors, doors, i as usize) by {
        lemma_passable_cells(blank, rooms, corridors, with_doors, doors, g, i);
    }
    assert forall|c: int, p: int|
        0 <= c < corridors.len() && 0 <= p < corridors[c].len() && touches_door(
            g,
            corridors[c],
            doors,
        ) && spared(g, corridors, doors, corridors[c]) implies reachable(
        g,
        rooms,
        #[trigger] corridors[c][p],
    ) by {
        lemma_spared_corridor(blank, rooms, corridors, with_doors, doors, g, c, p);
    }
}

} // verus!
