//! The generation pipeline: rooms, corridors, doors, pruning, walls and
//! textures, in that order.

use vstd::prelude::*;
use crate::corridors::all_cells;
use crate::corridors::blocked;
use crate::corridors::carved;
use crate::corridors::cell_events;
use crate::corridors::commit_corridors;
use crate::corridors::corridor_events;
use crate::corridors::CORRIDOR_MAX_LENGTH;
use crate::corridors::corridors_of;
use crate::corridors::find_corridors;
use crate::corridors::lemma_corridors_are_walks;
use crate::corridors::linked;
use crate::corridors::lists;
use crate::corridors::prune_corridors;
use crate::corridors::pruned;
use crate::corridors::record_cells;
use crate::doors::after_rooms;
use crate::doors::DoorRun;
use crate::doors::lemma_after_rooms;
use crate::doors::place_doors;
use crate::doors::rooms_have_floor;
use crate::draws::after_draw;
use crate::draws::DRAW_LIMIT;
use crate::draws::Draws;
use crate::draws::first_draw;
use crate::grid::blank_view;
use crate::grid::DungeonError;
use crate::grid::Grid;
use crate::grid::GridView;
use crate::grid::lemma_dims_bounded;
use crate::grid::MAX_CELLS;
use crate::grid::Pos;
use crate::level_utils::lemma_cross_ignores_tiles;
use crate::level_utils::ring;
use crate::reach::corridors_are_walks;
use crate::reach::floor_is_sound;
use crate::reach::lemma_floor_is_sound;
use crate::room::pairwise_apart;
use crate::room::Room;
use crate::room::room_fits;
use crate::room::ROOM_SIZE_COUNT;
use crate::room::spec_room_size;
use crate::rooms::all_fit;
use crate::rooms::covered;
use crate::rooms::first_accepted;
use crate::rooms::generate_rooms;
use crate::rooms::lemma_placement;
use crate::rooms::placement;
use crate::rooms::ROOM_GENERATION_ATTEMPTS;
use crate::rooms::stamp_events;
use crate::rooms::stamp_rooms;
use crate::rooms::stamped;
use crate::tile::Tile;
use crate::walls::add_walls;
use crate::walls::borders_floor;
use crate::walls::floor_is_enclosed;
use crate::walls::resolve_textures;
use crate::walls::resolved;
use crate::walls::wall_cells;
use crate::walls::walled;

verus! {

/// The least number of rooms of a dungeon.
pub const MIN_ROOMS: usize = 8;

/// How many room counts are possible: a dungeon has at least [`MIN_ROOMS`]
/// rooms and fewer than `MIN_ROOMS + ROOM_COUNT_SPREAD`.
pub const ROOM_COUNT_SPREAD: usize = 4;

/// How many numbers [`generate_dungeon`] draws before it starts. No run
/// reads more.
pub const DRAW_BUDGET: usize = 1200;

/// What a generation run leaves behind: the grid, the recorded events and
/// the draws that were not read.
pub struct Outcome {
    pub grid: GridView,
    pub events: Seq<(Pos, Tile)>,
    pub rest: Seq<u32>,
}

/// The dungeon that `rooms` give on a blank grid of `width` by `height`
/// cells: the rooms stamp their floor, one corridor is walked from every
/// seed and committed, every edge of every room gets its door, corridors
/// that touch no door are reverted, walls are derived and textures
/// resolved. The events are those of the stamps, the corridors, the doors
/// and the walls, in that order.
pub open spec fn built(
    width: int,
    height: int,
    rooms: Seq<Room>,
    max_len: nat,
    rest: Seq<u32>,
) -> Outcome {
    let blank = blank_view(width, height);
    let with_rooms = blank.with_tiles(stamped(blank, rooms));
    let corridors = corridors_of(with_rooms, max_len);
    let with_corridors = with_rooms.with_tiles(carved(with_rooms.tiles, corridors));
    let run = after_rooms(
        with_corridors,
        DoorRun {
            tiles: with_corridors.tiles,
            rest,
            doors: Seq::empty(),
            events: stamp_events(rooms) + corridor_events(with_rooms, corridors),
        },
        rooms,
    );
    let with_doors = with_corridors.with_tiles(run.tiles);
    let cleared = with_doors.with_tiles(pruned(with_doors, corridors, run.doors));
    let with_walls = cleared.with_tiles(walled(cleared));
    Outcome {
        grid: with_walls.with_textures(resolved(with_walls)),
        events: run.events + cell_events(cleared, wall_cells(cleared), Tile::Wall),
        rest: run.rest,
    }
}

/// The number of rooms that the first draw of `rest` asks for.
pub open spec fn room_count(rest: Seq<u32>) -> nat {
    (MIN_ROOMS + first_draw(rest, ROOM_COUNT_SPREAD as int)) as nat
}

/// The rooms that a run on a grid of `width` by `height` cells places with
/// the draws `rest`, or the reason why it found none, and the draws left.
pub open spec fn drawn_rooms(width: int, height: int, rest: Seq<u32>) -> (
    Result<Seq<Room>, DungeonError>,
    Seq<u32>,
) {
    placement(
        blank_view(width, height),
        Seq::empty(),
        room_count(rest),
        Pos { x: width as i64, y: height as i64 },
        after_draw(rest),
    )
}

/// What a whole run on a grid of `width` by `height` cells leaves behind,
/// as a function of the draws alone. Where no room finds a spot the grid
/// stays blank and nothing is recorded.
pub open spec fn generated(width: int, height: int, rest: Seq<u32>) -> Outcome {
    match drawn_rooms(width, height, rest).0 {
        Ok(rooms) => built(
            width,
            height,
            rooms,
            CORRIDOR_MAX_LENGTH as nat,
            drawn_rooms(width, height, rest).1,
        ),
        Err(_) => Outcome {
            grid: blank_view(width, height),
            events: Seq::empty(),
            rest: drawn_rooms(width, height, rest).1,
        },
    }
}

/// Two runs on grids of the same shape that read the same draws leave the
/// same grid, the same events and the same draws, whatever the grids held
/// before.
pub proof fn lemma_same_draws_same_dungeon(
    width: int,
    height: int,
    first: Seq<u32>,
    second: Seq<u32>,
)
    requires
        first =~= second,
    ensures
        generated(width, height, first) == generated(width, height, second),
{
}

/// The corridors of the dungeon that `rooms` give: one walk from every
/// seed of the grid that holds the rooms only.
pub open spec fn built_corridors(width: int, height: int, rooms: Seq<Room>, max_len: nat) -> Seq<
    Seq<usize>,
> {
    let blank = blank_view(width, height);
    corridors_of(blank.with_tiles(stamped(blank, rooms)), max_len)
}

/// The doors of the dungeon that `rooms` give, in the order in which they
/// are placed.
pub open spec fn built_doors(
    width: int,
    height: int,
    rooms: Seq<Room>,
    max_len: nat,
    rest: Seq<u32>,
) -> Seq<usize> {
    let blank = blank_view(width, height);
    let with_rooms = blank.with_tiles(stamped(blank, rooms));
    let corridors = corridors_of(with_rooms, max_len);
    let with_corridors = with_rooms.with_tiles(carved(with_rooms.tiles, corridors));
    after_rooms(
        with_corridors,
        DoorRun {
            tiles: with_corridors.tiles,
            rest,
            doors: Seq::empty(),
            events: stamp_events(rooms) + corridor_events(with_rooms, corridors),
        },
        rooms,
    ).doors
}

/// The floor of every generated dungeon is sound: its doors can be reached
/// from the rooms, no corridor that touches no door is left as floor, and
/// a corridor that touches a door can be reached throughout unless it
/// shares a cell with a reverted one.
pub proof fn lemma_generated_floor_is_sound(width: int, height: int, rest: Seq<u32>)
    requires
        0 < width,
        0 < height,
        width * height <= MAX_CELLS,
    ensures
        drawn_rooms(width, height, rest).0 matches Ok(rooms) ==> floor_is_sound(
            generated(width, height, rest).grid,
            rooms,
            built_corridors(width, height, rooms, CORRIDOR_MAX_LENGTH as nat),
            built_doors(
                width,
                height,
                rooms,
                CORRIDOR_MAX_LENGTH as nat,
                drawn_rooms(width, height, rest).1,
            ),
        ),
{
    let blank = blank_view(width, height);
    lemma_placement(
        blank,
        Seq::empty(),
        room_count(rest),
        Pos { x: width as i64, y: height as i64 },
        after_draw(rest),
    );
    match drawn_rooms(width, height, rest).0 {
        Ok(rooms) => {
            lemma_built_floor_is_sound(
                width,
                height,
                rooms,
                CORRIDOR_MAX_LENGTH as nat,
                drawn_rooms(width, height, rest).1,
            );
        },
        Err(_) => {},
    }
}

/// The floor of every dungeon that is built from rooms that fit the grid
/// and have floor is sound.
pub proof fn lemma_built_floor_is_sound(
    width: int,
    height: int,
    rooms: Seq<Room>,
    max_len: nat,
    rest: Seq<u32>,
)
    requires
        0 < width,
        0 < height,
        width * height <= MAX_CELLS,
        all_fit(blank_view(width, height), rooms),
        rooms_have_floor(rooms),
    ensures
        floor_is_sound(
            built(width, height, rooms, max_len, rest).grid,
            rooms,
            built_corridors(width, height, rooms, max_len),
            built_doors(width, height, rooms, max_len, rest),
        ),
{
    let blank = blank_view(width, height);
    let with_rooms = blank.with_tiles(stamped(blank, rooms));
    let corridors = corridors_of(with_rooms, max_len);
    let with_corridors = with_rooms.with_tiles(carved(with_rooms.tiles, corridors));
    let start = DoorRun {
        tiles: with_corridors.tiles,
        rest,
        doors: Seq::empty(),
        events: stamp_events(rooms) + corridor_events(with_rooms, corridors),
    };
    let run = after_rooms(with_corridors, start, rooms);
    let with_doors = with_corridors.with_tiles(run.tiles);
    assert forall|c: int| 0 <= c < corridors.len() implies all_cells(
        with_rooms,
        #[trigger] corridors[c],
    ) && linked(with_rooms, corridors[c], 0) && forall|p: int|
        0 <= p < corridors[c].len() ==> !blocked(with_rooms, #[trigger] corridors[c][p] as int) by {
        lemma_corridors_are_walks(with_rooms, max_len, c);
    }
    assert(all_fit(with_corridors, rooms)) by {
        assert forall|k: int| 0 <= k < rooms.len() implies room_fits(
            with_corridors,
            #[trigger] rooms[k],
        ) by {
            assert(room_fits(blank, rooms[k]));
        }
    }
    assert(rooms.take(rooms.len() as int) =~= rooms);
    lemma_after_rooms(with_corridors, start, rooms, rooms.len() as int);
    assert(with_corridors == blank.with_tiles(carved(stamped(blank, rooms), corridors)));
    assert(with_doors == blank.with_tiles(run.tiles));
    lemma_floor_is_sound(
        blank,
        rooms,
        corridors,
        run.tiles,
        run.doors,
        built(width, height, rooms, max_len, rest).grid,
    );
}

/// Whether every cell that one of `rooms` stamps is floor.
pub open spec fn rooms_are_floor(g: GridView, rooms: Seq<Room>) -> bool {
    forall|i: int|
        0 <= i < g.cells() && covered(rooms, g.col(i), g.row(i)) ==> #[trigger] g.tiles[i]
            == Tile::Floor
}

/// A wall that borders floor has something beside or around it: one of the
/// eight cells around it is floor, a door, or a wall that borders floor
/// itself.
pub proof fn lemma_no_wall_stands_alone(g: GridView, i: int)
    requires
        g.wf(),
        walls_border_floor(g),
        0 <= i < g.cells(),
        g.tiles[i] == Tile::Wall,
    ensures
        exists|p: int|
            0 <= p < ring(g, i).len() && {
                let around = #[trigger] ring(g, i)[p] as int;
                ||| g.tiles[around] == Tile::Floor
                ||| g.tiles[around] == Tile::Door
                ||| g.tiles[around] == Tile::Wall && borders_floor(g, around)
            },
{
    let p = choose|p: int|
        0 <= p < ring(g, i).len() && g.tiles[#[trigger] ring(g, i)[p] as int] == Tile::Floor;
}

/// Whether every wall of the grid borders floor.
pub open spec fn walls_border_floor(g: GridView) -> bool {
    forall|i: int| 0 <= i < g.cells() && #[trigger] g.tiles[i] == Tile::Wall ==> borders_floor(g, i)
}

/// Whether every room of `rooms` fits `map`.
pub fn rooms_fit(map: &Grid, rooms: &Vec<Room>) -> (b: bool)
    requires
        map.wf(),
    ensures
        b == all_fit(map@, rooms@),
{
    let mut k: usize = 0;
    while k < rooms.len()
        invariant
            k <= rooms.len(),
            map.wf(),
            forall|m: int| 0 <= m < k ==> room_fits(map@, #[trigger] rooms@[m]),
        decreases rooms.len() - k,
    {
        if !rooms[k].fits(map) {
            return false;
        }
        k = k + 1;
    }
    true
}

/// Builds the dungeon that `rooms` give: the grid is reset, then the rooms
/// are stamped, corridors walked and committed, doors placed, corridors
/// without a door reverted, walls derived and textures resolved. Returns
/// the recorded events. Where a room does not fit the grid, nothing is
/// changed and [`DungeonError::InvalidCoordinate`] is returned.
pub fn build_dungeon(map: &mut Grid, rooms: &Vec<Room>, max_len: usize, draws: &mut Draws) -> (r:
    Result<Vec<(Pos, Tile)>, DungeonError>)
    requires
        old(map).wf(),
    ensures
        final(map).wf(),
        r is Ok <==> all_fit(old(map)@, rooms@),
        r matches Ok(timeline) ==> {
            let outcome = built(
                old(map)@.width,
                old(map)@.height,
                rooms@,
                max_len as nat,
                old(draws)@,
            );
            &&& final(map)@ == outcome.grid
            &&& timeline@ == outcome.events
            &&& final(draws)@ == outcome.rest
            &&& walls_border_floor(final(map)@)
            &&& floor_is_enclosed(final(map)@)
            &&& rooms_are_floor(final(map)@, rooms@)
            &&& rooms_have_floor(rooms@) ==> floor_is_sound(
                final(map)@,
                rooms@,
                built_corridors(old(map)@.width, old(map)@.height, rooms@, max_len as nat),
                built_doors(
                    old(map)@.width,
                    old(map)@.height,
                    rooms@,
                    max_len as nat,
                    old(draws)@,
                ),
            )
        },
        r matches Err(e) ==> e == DungeonError::InvalidCoordinate && final(map)@ == old(map)@
            && final(draws)@ == old(draws)@,
        final(draws)@.len() + 8 * rooms@.len() >= old(draws)@.len(),
{
    if !rooms_fit(map, rooms) {
        return Err(DungeonError::InvalidCoordinate);
    }
    let mut timeline: Vec<(Pos, Tile)> = Vec::new();
    map.reset();
    let ghost blank = map@;

    // place rooms
    stamp_rooms(map, rooms, &mut timeline);
    let ghost with_rooms = map@;

    // place corridors
    let corridors = find_corridors(map, max_len);
    proof {
        assert forall|c: int| 0 <= c < lists(corridors@).len() implies all_cells(
            with_rooms,
            #[trigger] lists(corridors@)[c],
        ) && linked(with_rooms, lists(corridors@)[c], 0) && forall|p: int|
            0 <= p < lists(corridors@)[c].len() ==> !blocked(
                with_rooms,
                #[trigger] lists(corridors@)[c][p] as int,
            ) by {
            let cells = corridors@[c]@;
            assert(lists(corridors@)[c] == cells);
            assert(all_cells(with_rooms, cells));
        }
        assert(corridors_are_walks(with_rooms, lists(corridors@)));
    }
    commit_corridors(map, &corridors, &mut timeline);

    // pick one door for each edge of each room
    let doors = place_doors(map, rooms, draws, &mut timeline);
    let ghost with_doors = map@;

    // remove the corridors that lead nowhere
    prune_corridors(map, &corridors, &doors);

    // add walls
    let walls = add_walls(map);
    record_cells(map, &walls, Tile::Wall, &mut timeline);
    let ghost with_walls = map@;
    resolve_textures(map);
    proof {
        if rooms_have_floor(rooms@) {
            lemma_floor_is_sound(
                blank,
                rooms@,
                lists(corridors@),
                with_doors.tiles,
                doors@,
                map@,
            );
        }
    }
    assert(floor_is_enclosed(map@)) by {
        assert forall|i: int, p: int|
            0 <= i < map@.cells() && map@.tiles[i] == Tile::Floor && 0 <= p < ring(
                map@,
                i,
            ).len() implies map@.tiles[#[trigger] ring(map@, i)[p] as int] != Tile::Dirt by {
            lemma_cross_ignores_tiles(with_walls, map@, i);
        }
    }
    assert(walls_border_floor(map@)) by {
        assert forall|i: int| 0 <= i < map@.cells() && #[trigger] map@.tiles[i]
            == Tile::Wall implies borders_floor(map@, i) by {
            lemma_borders_floor_ignores_textures(with_walls, map@, i);
        }
    }
    Ok(timeline)
}

/// Whether a cell borders floor depends on the shape of the grid and on
/// its tiles only.
pub proof fn lemma_borders_floor_ignores_textures(a: GridView, b: GridView, i: int)
    requires
        a.width == b.width,
        a.height == b.height,
        a.tiles == b.tiles,
    ensures
        borders_floor(a, i) == borders_floor(b, i),
{
    lemma_cross_ignores_tiles(a, b, i);
}

/// Generates a sparse dungeon with rooms and corridors from the draws of
/// `draws`: the first draw picks the number of rooms, the next ones place
/// them, the rest picks the doors. Returns the recorded events. Where a
/// room finds no spot, the grid is left blank and
/// [`DungeonError::PlacementExhausted`] is returned.
pub fn dungeon_1(map: &mut Grid, draws: &mut Draws) -> (r: Result<Vec<(Pos, Tile)>, DungeonError>)
    requires
        old(map).wf(),
    ensures
        final(map).wf(),
        ({
            let outcome = generated(old(map)@.width, old(map)@.height, old(draws)@);
            &&& final(map)@ == outcome.grid
            &&& final(draws)@ == outcome.rest
            &&& r matches Ok(timeline) ==> timeline@ == outcome.events
        }),
        r is Ok <==> drawn_rooms(old(map)@.width, old(map)@.height, old(draws)@).0 is Ok,
        r matches Err(e) ==> e == DungeonError::PlacementExhausted,
        r is Ok ==> walls_border_floor(final(map)@) && floor_is_enclosed(final(map)@),
        drawn_rooms(old(map)@.width, old(map)@.height, old(draws)@).0 matches Ok(rooms)
            ==> rooms_are_floor(final(map)@, rooms) && pairwise_apart(rooms) && all_fit(
            final(map)@,
            rooms,
        ) && MIN_ROOMS <= rooms.len() < MIN_ROOMS + ROOM_COUNT_SPREAD && floor_is_sound(
            final(map)@,
            rooms,
            built_corridors(
                old(map)@.width,
                old(map)@.height,
                rooms,
                CORRIDOR_MAX_LENGTH as nat,
            ),
            built_doors(
                old(map)@.width,
                old(map)@.height,
                rooms,
                CORRIDOR_MAX_LENGTH as nat,
                drawn_rooms(old(map)@.width, old(map)@.height, old(draws)@).1,
            ),
        ),
        final(draws)@.len() + DRAW_BUDGET >= old(draws)@.len(),
{
    proof {
        lemma_dims_bounded(map@);
    }
    let spread: u64 = draws.below(ROOM_COUNT_SPREAD as u64);
    let amount: usize = MIN_ROOMS + spread as usize;
    let bounds = Pos { x: map.width() as i64, y: map.height() as i64 };
    proof {
        lemma_placement_reads_shape(
            map@,
            blank_view(map@.width, map@.height),
            Seq::empty(),
            amount as nat,
            bounds,
            draws@,
        );
    }
    match generate_rooms(amount, bounds, map, draws) {
        Ok(rooms) => {
            match build_dungeon(map, &rooms, CORRIDOR_MAX_LENGTH, draws) {
                Ok(timeline) => Ok(timeline),
                Err(_) => Err(DungeonError::PlacementExhausted),
            }
        },
        Err(e) => {
            map.reset();
            Err(e)
        },
    }
}

/// Room placement reads the shape of the grid only.
pub proof fn lemma_placement_reads_shape(
    a: GridView,
    b: GridView,
    placed: Seq<Room>,
    amount: nat,
    bounds: Pos,
    rest: Seq<u32>,
)
    requires
        a.width == b.width,
        a.height == b.height,
    ensures
        placement(a, placed, amount, bounds, rest) == placement(b, placed, amount, bounds, rest),
    decreases amount - placed.len(),
{
    if placed.len() < amount && bounds.x > 0 && bounds.y > 0 {
        let size = spec_room_size(first_draw(rest, ROOM_SIZE_COUNT as int));
        lemma_first_accepted_reads_shape(
            a,
            b,
            placed,
            size,
            bounds,
            after_draw(rest),
            ROOM_GENERATION_ATTEMPTS as nat,
        );
        let (found, left) = first_accepted(
            a,
            placed,
            size,
            bounds,
            after_draw(rest),
            ROOM_GENERATION_ATTEMPTS as nat,
        );
        match found {
            Some(room) => {
                lemma_placement_reads_shape(a, b, placed.push(room), amount, bounds, left);
            },
            None => {},
        }
    }
}

proof fn lemma_first_accepted_reads_shape(
    a: GridView,
    b: GridView,
    placed: Seq<Room>,
    size: Pos,
    bounds: Pos,
    rest: Seq<u32>,
    attempts: nat,
)
    requires
        a.width == b.width,
        a.height == b.height,
    ensures
        first_accepted(a, placed, size, bounds, rest, attempts)
            == first_accepted(b, placed, size, bounds, rest, attempts),
    decreases attempts,
{
    if attempts > 0 {
        lemma_first_accepted_reads_shape(
            a,
            b,
            placed,
            size,
            bounds,
            after_draw(after_draw(rest)),
            (attempts - 1) as nat,
        );
    }
}

/// Generates a dungeon on `map` with numbers drawn from the process-wide
/// random generator: [`DRAW_BUDGET`] numbers are drawn, then [`dungeon_1`]
/// runs on them. Whatever is drawn, the outcome is the one that
/// [`generated`] gives for some such numbers.
pub fn generate_dungeon(map: &mut Grid) -> (r: Result<Vec<(Pos, Tile)>, DungeonError>)
    requires
        old(map).wf(),
    ensures
        final(map).wf(),
        exists|drawn: Seq<u32>|
            {
                &&& drawn.len() == DRAW_BUDGET
                &&& forall|i: int| 0 <= i < drawn.len() ==> drawn[i] < DRAW_LIMIT
                &&& final(map)@ == (#[trigger] generated(
                    old(map)@.width,
                    old(map)@.height,
                    drawn,
                )).grid
                &&& r matches Ok(timeline) ==> timeline@ == generated(
                    old(map)@.width,
                    old(map)@.height,
                    drawn,
                ).events
                &&& r is Ok <==> drawn_rooms(old(map)@.width, old(map)@.height, drawn).0 is Ok
                &&& drawn_rooms(old(map)@.width, old(map)@.height, drawn).0 matches Ok(rooms)
                    ==> floor_is_sound(
                    final(map)@,
                    rooms,
                    built_corridors(
                        old(map)@.width,
                        old(map)@.height,
                        rooms,
                        CORRIDOR_MAX_LENGTH as nat,
                    ),
                    built_doors(
                        old(map)@.width,
                        old(map)@.height,
                        rooms,
                        CORRIDOR_MAX_LENGTH as nat,
                        drawn_rooms(old(map)@.width, old(map)@.height, drawn).1,
                    ),
                )
            },
        r matches Err(e) ==> e == DungeonError::PlacementExhausted,
        r is Ok ==> walls_border_floor(final(map)@) && floor_is_enclosed(final(map)@),
{
    let mut draws = Draws::random(DRAW_BUDGET);
    dungeon_1(map, &mut draws)
}

} // verus!
