//! Corridors: bounded walks through the cells that keep clear of every room.

use vstd::prelude::*;
use crate::grid::Grid;
use crate::grid::GridView;
use crate::grid::Pos;
use crate::level_utils::adjecent_idxs;
use crate::level_utils::cross;
use crate::level_utils::is_adjecent_to_room;
use crate::level_utils::is_seed;
use crate::level_utils::lemma_cross_cells;
use crate::level_utils::lemma_cross_ignores_tiles;
use crate::level_utils::lemma_seeds;
use crate::level_utils::neighbourless_idxs;
use crate::level_utils::seeds;
use crate::level_utils::touches_room;
use crate::tile::is_room;
use crate::tile::spec_is_room;
use crate::tile::Tile;

verus! {

/// Default cap on the number of cells of one corridor.
pub const CORRIDOR_MAX_LENGTH: usize = 15;

/// Whether a walk may not enter cell `i`: the cell is a room tile or touches
/// one.
pub open spec fn blocked(g: GridView, i: int) -> bool {
    spec_is_room(&g.tiles[i]) || touches_room(g, i)
}

/// Whether cell `n` shares an edge with a visited cell other than `cur`.
/// Entering such a cell would close a loop or fuse two branches.
pub open spec fn crowded(g: GridView, visited: Seq<usize>, n: int, cur: int) -> bool {
    exists|p: int|
        0 <= p < cross(g, n).len() && cross(g, n)[p] != cur && visited.contains(
            #[trigger] cross(g, n)[p],
        )
}

/// The cells visited once a depth-first walk that has already visited
/// `visited` has tried to enter cell `i`. The walk enters `i` unless it has
/// `max_len` cells already or `i` is blocked, and then tries the cells
/// beside `i` in turn.
pub open spec fn walk(g: GridView, max_len: nat, visited: Seq<usize>, i: int) -> Seq<usize>
    decreases max_len - visited.len(), 0int, 0int,
{
    if visited.len() >= max_len || blocked(g, i) {
        visited
    } else {
        spread(g, max_len, visited.push(i as usize), i, 0)
    }
}

/// The cells visited once a walk standing on cell `i` has tried the cells
/// beside `i` from the `p`-th on. A cell is tried unless it was visited
/// already or is crowded. The tests on the lengths only show that the walk
/// ends: by [`lemma_walk`] none of them ever fails.
pub open spec fn spread(g: GridView, max_len: nat, visited: Seq<usize>, i: int, p: int) -> Seq<
    usize,
>
    decreases max_len - visited.len(), 1int, cross(g, i).len() - p,
{
    if p < 0 || p >= cross(g, i).len() || visited.len() > max_len {
        visited
    } else {
        let n = cross(g, i)[p];
        let next = if !visited.contains(n) && !crowded(g, visited, n as int, i) {
            walk(g, max_len, visited, n as int)
        } else {
            visited
        };
        if next.len() < visited.len() || next.len() > max_len {
            visited
        } else {
            spread(g, max_len, next, i, p + 1)
        }
    }
}

/// A walk only adds cells, and never goes beyond `max_len` of them.
pub proof fn lemma_walk(g: GridView, max_len: nat, visited: Seq<usize>, i: int)
    requires
        visited.len() <= max_len,
    ensures
        extends(visited, walk(g, max_len, visited, i)),
        walk(g, max_len, visited, i).len() <= max_len,
    decreases max_len - visited.len(), 0int, 0int,
{
    if visited.len() < max_len && !blocked(g, i) {
        lemma_spread(g, max_len, visited.push(i as usize), i, 0);
    }
}

/// Trying the cells beside a cell only adds cells, and never goes beyond
/// `max_len` of them.
pub proof fn lemma_spread(g: GridView, max_len: nat, visited: Seq<usize>, i: int, p: int)
    requires
        visited.len() <= max_len,
        0 <= p,
    ensures
        extends(visited, spread(g, max_len, visited, i, p)),
        spread(g, max_len, visited, i, p).len() <= max_len,
    decreases max_len - visited.len(), 1int, cross(g, i).len() - p,
{
    if p < cross(g, i).len() {
        let n = cross(g, i)[p];
        if !visited.contains(n) && !crowded(g, visited, n as int, i) {
            lemma_walk(g, max_len, visited, n as int);
            lemma_spread(g, max_len, walk(g, max_len, visited, n as int), i, p + 1);
        } else {
            lemma_spread(g, max_len, visited, i, p + 1);
        }
    }
}

/// Whether `cells` is a walk from its `from`-th cell on: its entries are
/// cells of the grid, and from the `from`-th on none is blocked and each
/// hangs on to an earlier one.
pub open spec fn is_walk(g: GridView, cells: Seq<usize>, from: int) -> bool {
    &&& all_cells(g, cells)
    &&& linked(g, cells, from)
    &&& forall|p: int| from <= p < cells.len() ==> !blocked(g, #[trigger] cells[p] as int)
}

/// Entering a cell keeps a walk a walk, provided the cell shares an edge
/// with a cell of the walk or starts it.
pub proof fn lemma_walk_is_walk(g: GridView, max_len: nat, visited: Seq<usize>, i: int, from: int)
    requires
        g.wf(),
        0 <= i < g.cells(),
        visited.len() <= max_len,
        0 <= from <= visited.len(),
        is_walk(g, visited, from),
        visited.len() > from ==> has_link(g, visited.push(i as usize), from, visited.len() as int),
    ensures
        is_walk(g, walk(g, max_len, visited, i), from),
        extends(visited, walk(g, max_len, visited, i)),
        walk(g, max_len, visited, i).len() <= max_len,
    decreases max_len - visited.len(), 0int, 0int,
{
    if visited.len() < max_len && !blocked(g, i) {
        let entered = visited.push(i as usize);
        assert forall|p: int| from < p < entered.len() implies #[trigger] has_link(
            g,
            entered,
            from,
            p,
        ) by {
            if p < visited.len() {
                assert(has_link(g, visited, from, p));
                let q = choose|q: int|
                    from <= q < p && #[trigger] cross(g, visited[q] as int).contains(visited[p]);
                assert(cross(g, entered[q] as int).contains(entered[p]));
            }
        }
        assert forall|p: int| from <= p < entered.len() implies !blocked(
            g,
            #[trigger] entered[p] as int,
        ) by {
            if p < visited.len() {
                assert(entered[p] == visited[p]);
            }
        }
        assert(all_cells(g, entered)) by {
            assert forall|p: int| 0 <= p < entered.len() implies #[trigger] entered[p]
                < g.cells() by {
                if p < visited.len() {
                    assert(entered[p] == visited[p]);
                }
            }
        }
        lemma_spread_is_walk(g, max_len, entered, i, 0, from, visited.len() as int);
    }
}

/// Trying the cells beside a cell of a walk keeps the walk a walk.
pub proof fn lemma_spread_is_walk(
    g: GridView,
    max_len: nat,
    visited: Seq<usize>,
    i: int,
    p: int,
    from: int,
    at: int,
)
    requires
        g.wf(),
        0 <= i < g.cells(),
        visited.len() <= max_len,
        0 <= from <= at < visited.len(),
        visited[at] == i,
        is_walk(g, visited, from),
        0 <= p,
    ensures
        is_walk(g, spread(g, max_len, visited, i, p), from),
        extends(visited, spread(g, max_len, visited, i, p)),
        spread(g, max_len, visited, i, p).len() <= max_len,
    decreases max_len - visited.len(), 1int, cross(g, i).len() - p,
{
    if p < cross(g, i).len() {
        let n = cross(g, i)[p];
        lemma_cross_cells(g, i, p);
        if !visited.contains(n) && !crowded(g, visited, n as int, i) {
            assert(has_link(g, visited.push(n), from, visited.len() as int)) by {
                assert(visited.push(n)[at] == visited[at]);
                assert(cross(g, visited.push(n)[at] as int).contains(
                    visited.push(n)[visited.len() as int],
                ));
            }
            lemma_walk_is_walk(g, max_len, visited, n as int, from);
            let next = walk(g, max_len, visited, n as int);
            assert(next[at] == visited[at]);
            lemma_spread_is_walk(g, max_len, next, i, p + 1, from, at);
        } else {
            lemma_spread_is_walk(g, max_len, visited, i, p + 1, from, at);
        }
    }
}

/// Every corridor of the grid is a walk from its first cell on.
pub proof fn lemma_corridors_are_walks(g: GridView, max_len: nat, c: int)
    requires
        g.wf(),
        0 <= c < corridors_of(g, max_len).len(),
    ensures
        is_walk(g, corridors_of(g, max_len)[c], 0),
{
    lemma_corridors_upto_are_walks(g, max_len, seeds(g).len() as int, c);
}

proof fn lemma_corridors_upto_are_walks(g: GridView, max_len: nat, n: int, c: int)
    requires
        g.wf(),
        0 <= n <= seeds(g).len(),
        0 <= c < corridors_upto(g, max_len, seeds(g), n).len(),
    ensures
        is_walk(g, corridors_upto(g, max_len, seeds(g), n)[c], 0),
    decreases n,
{
    if n > 0 {
        let seed = seeds(g)[n - 1];
        lemma_seeds(g, seed);
        assert(seeds(g).contains(seed));
        let found = corridor_from(g, max_len, seed as int);
        let earlier = corridors_upto(g, max_len, seeds(g), n - 1);
        if c < earlier.len() {
            lemma_corridors_upto_are_walks(g, max_len, n - 1, c);
        } else {
            assert(is_walk(g, Seq::<usize>::empty(), 0));
            lemma_walk_is_walk(g, max_len, Seq::empty(), seed as int, 0);
        }
    }
}

/// No corridor has more than `max_len` cells.
pub proof fn lemma_corridor_is_bounded(g: GridView, max_len: nat, seed: int)
    ensures
        corridor_from(g, max_len, seed).len() <= max_len,
{
    lemma_walk(g, max_len, Seq::empty(), seed);
}

/// The corridor that starts at cell `seed`.
pub open spec fn corridor_from(g: GridView, max_len: nat, seed: int) -> Seq<usize> {
    walk(g, max_len, Seq::empty(), seed)
}

/// The corridors that start at the first `n` of `starts`, one per start,
/// without the empty ones.
pub open spec fn corridors_upto(g: GridView, max_len: nat, starts: Seq<usize>, n: int) -> Seq<
    Seq<usize>,
>
    decreases n,
{
    if n <= 0 {
        Seq::empty()
    } else {
        let found = corridor_from(g, max_len, starts[n - 1] as int);
        if found.len() > 0 {
            corridors_upto(g, max_len, starts, n - 1).push(found)
        } else {
            corridors_upto(g, max_len, starts, n - 1)
        }
    }
}

/// Every corridor of the grid: one walk from each seed, in ascending order
/// of the seeds.
pub open spec fn corridors_of(g: GridView, max_len: nat) -> Seq<Seq<usize>> {
    corridors_upto(g, max_len, seeds(g), seeds(g).len() as int)
}

/// The cell lists of `v` as sequences.
pub open spec fn lists(v: Seq<Vec<usize>>) -> Seq<Seq<usize>> {
    Seq::new(v.len(), |k: int| v[k]@)
}

/// Whether `longer` starts with the entries of `shorter`.
pub open spec fn extends(shorter: Seq<usize>, longer: Seq<usize>) -> bool {
    &&& shorter.len() <= longer.len()
    &&& forall|q: int| 0 <= q < shorter.len() ==> #[trigger] longer[q] == shorter[q]
}

/// Whether the `p`-th cell of `cells` shares an edge with an earlier one
/// that is not before the one at `from`.
pub open spec fn has_link(g: GridView, cells: Seq<usize>, from: int, p: int) -> bool {
    exists|q: int| from <= q < p && #[trigger] cross(g, cells[q] as int).contains(cells[p])
}

/// Whether every cell of `cells` after the one at `from` shares an edge
/// with a cell between `from` and itself.
pub open spec fn linked(g: GridView, cells: Seq<usize>, from: int) -> bool {
    forall|p: int| from < p < cells.len() ==> #[trigger] has_link(g, cells, from, p)
}

/// Whether every entry of `cells` is the index of a cell.
pub open spec fn all_cells(g: GridView, cells: Seq<usize>) -> bool {
    forall|p: int| 0 <= p < cells.len() ==> #[trigger] cells[p] < g.cells()
}

/// Whether `v` holds `x`.
pub fn contains(v: &Vec<usize>, x: usize) -> (b: bool)
    ensures
        b == v@.contains(x),
{
    let mut p: usize = 0;
    while p < v.len()
        invariant
            p <= v.len(),
            forall|q: int| 0 <= q < p ==> v@[q] != x,
        decreases v.len() - p,
    {
        if v[p] == x {
            return true;
        }
        p = p + 1;
    }
    false
}

/// Whether cell `n` shares an edge with a visited cell other than `cur`.
pub fn adjecent_to_any_visited(map: &Grid, visited: &Vec<usize>, n: usize, cur: usize) -> (b:
    bool)
    requires
        map.wf(),
        n < map@.cells(),
    ensures
        b == crowded(map@, visited@, n as int, cur as int),
{
    let beside = adjecent_idxs(map, n);
    let mut p: usize = 0;
    while p < beside.len()
        invariant
            p <= beside.len(),
            beside@ == cross(map@, n as int),
            forall|q: int|
                0 <= q < p ==> !(cross(map@, n as int)[q] != cur && visited@.contains(
                    #[trigger] cross(map@, n as int)[q],
                )),
        decreases beside.len() - p,
    {
        if beside[p] != cur && contains(visited, beside[p]) {
            return true;
        }
        p = p + 1;
    }
    false
}

/// Depth-first walk from cell `idx` over the cells that keep clear of
/// every room. `visited` holds the cells of the walk so far and receives
/// the new ones, in the order in which the walk enters them.
pub fn dfs(map: &Grid, max_len: usize, visited: &mut Vec<usize>, idx: usize)
    requires
        map.wf(),
        idx < map@.cells(),
        all_cells(map@, old(visited)@),
    ensures
        final(visited)@ == walk(map@, max_len as nat, old(visited)@, idx as int),
        all_cells(map@, final(visited)@),
        extends(old(visited)@, final(visited)@),
        final(visited)@.len() <= max_len || final(visited)@ == old(visited)@,
        forall|p: int|
            old(visited)@.len() <= p < final(visited)@.len() ==> !blocked(
                map@,
                #[trigger] final(visited)@[p] as int,
            ),
        final(visited)@.len() > old(visited)@.len() <==> old(visited)@.len() < max_len && !blocked(
            map@,
            idx as int,
        ),
        final(visited)@.len() > old(visited)@.len() ==> final(visited)@[old(visited)@.len() as int]
            == idx,
        old(visited)@.no_duplicates() && !old(visited)@.contains(idx)
            ==> final(visited)@.no_duplicates(),
        linked(map@, final(visited)@, old(visited)@.len() as int),
    decreases max_len - old(visited)@.len(),
{
    if visited.len() >= max_len {
        return ;
    }
    let tile = map.tile(idx);
    if is_room(&tile) || is_adjecent_to_room(map, idx) {
        return ;
    }
    visited.push(idx);
    let adjecent = adjecent_idxs(map, idx);
    let ghost entered = visited@;
    let mut p: usize = 0;
    while p < adjecent.len()
        invariant
            map.wf(),
            idx < map@.cells(),
            p <= adjecent.len(),
            adjecent@ == cross(map@, idx as int),
            forall|q: int| 0 <= q < adjecent@.len() ==> adjecent@[q] < map@.cells(),
            all_cells(map@, visited@),
            entered == old(visited)@.push(idx),
            extends(entered, visited@),
            visited@.len() <= max_len,
            old(visited)@.len() < max_len,
            !blocked(map@, idx as int),
            spread(map@, max_len as nat, entered, idx as int, 0) == spread(
                map@,
                max_len as nat,
                visited@,
                idx as int,
                p as int,
            ),
            forall|q: int|
                old(visited)@.len() <= q < visited@.len() ==> !blocked(
                    map@,
                    #[trigger] visited@[q] as int,
                ),
            old(visited)@.no_duplicates() && !old(visited)@.contains(idx)
                ==> visited@.no_duplicates(),
            linked(map@, visited@, old(visited)@.len() as int),
        decreases adjecent.len() - p,
    {
        let adj = adjecent[p];
        let ghost before = visited@;
        if !contains(visited, adj) && !adjecent_to_any_visited(map, visited, adj, idx) {
            dfs(map, max_len, visited, adj);
            proof {
                let from = old(visited)@.len() as int;
                assert forall|m: int| from < m < visited@.len() implies #[trigger] has_link(
                    map@,
                    visited@,
                    from,
                    m,
                ) by {
                    if m < before.len() {
                        assert(has_link(map@, before, from, m));
                        let q = choose|q: int|
                            from <= q < m && #[trigger] cross(map@, before[q] as int).contains(
                                before[m],
                            );
                        assert(cross(map@, visited@[q] as int).contains(visited@[m]));
                    } else if m == before.len() {
                        assert(cross(map@, visited@[from] as int).contains(visited@[m]));
                    } else {
                        assert(has_link(map@, visited@, before.len() as int, m));
                    }
                }
            }
        }
        p = p + 1;
    }
}

/// One walk from each seed of the grid, in ascending order of the seeds,
/// without the empty ones. The grid is only read.
pub fn find_corridors(map: &Grid, max_len: usize) -> (r: Vec<Vec<usize>>)
    requires
        map.wf(),
    ensures
        lists(r@) == corridors_of(map@, max_len as nat),
        forall|k: int|
            0 <= k < r@.len() ==> 0 < (#[trigger] r@[k])@.len() <= max_len && all_cells(
                map@,
                r@[k]@,
            ) && r@[k]@.no_duplicates() && linked(map@, r@[k]@, 0) && is_seed(
                map@,
                r@[k]@[0] as int,
            ) && forall|p: int| 0 <= p < r@[k]@.len() ==> !blocked(map@, #[trigger] r@[k]@[p] as int),
        max_len > 0 ==> r@.len() == seeds(map@).len() && forall|k: int|
            0 <= k < r@.len() ==> (#[trigger] r@[k])@[0] == seeds(map@)[k],
{
    let starting_points = neighbourless_idxs(map);
    let mut corridors: Vec<Vec<usize>> = Vec::new();
    let mut s: usize = 0;
    while s < starting_points.len()
        invariant
            map.wf(),
            s <= starting_points.len(),
            starting_points@ == seeds(map@),
            forall|p: int|
                0 <= p < starting_points@.len() ==> starting_points@[p] < map@.cells(),
            lists(corridors@) == corridors_upto(
                map@,
                max_len as nat,
                starting_points@,
                s as int,
            ),
            forall|k: int|
                0 <= k < corridors@.len() ==> 0 < (#[trigger] corridors@[k])@.len() <= max_len
                    && all_cells(map@, corridors@[k]@) && corridors@[k]@.no_duplicates() && linked(
                    map@,
                    corridors@[k]@,
                    0,
                ) && is_seed(map@, corridors@[k]@[0] as int) && forall|p: int|
                    0 <= p < corridors@[k]@.len() ==> !blocked(
                        map@,
                        #[trigger] corridors@[k]@[p] as int,
                    ),
            max_len > 0 ==> corridors@.len() == s && forall|k: int|
                0 <= k < corridors@.len() ==> (#[trigger] corridors@[k])@[0] == seeds(map@)[k],
        decreases starting_points.len() - s,
    {
        let mut visited: Vec<usize> = Vec::new();
        let start: usize = starting_points[s];
        proof {
            lemma_seeds(map@, start);
        }
        dfs(map, max_len, &mut visited, start);
        if visited.len() > 0 {
            corridors.push(visited);
        }
        s = s + 1;
    }
    corridors
}

/// The coordinate of the cell with index `i`.
pub open spec fn cell_pos(g: GridView, i: int) -> Pos {
    Pos { x: g.col(i) as i64, y: g.row(i) as i64 }
}

/// The events that turning every cell of `cells` into `tile` records: one
/// per entry, in order.
pub open spec fn cell_events(g: GridView, cells: Seq<usize>, tile: Tile) -> Seq<(Pos, Tile)> {
    Seq::new(cells.len(), |p: int| (cell_pos(g, cells[p] as int), tile))
}

/// The events that committing `corridors` records, corridor after corridor.
pub open spec fn corridor_events(g: GridView, corridors: Seq<Seq<usize>>) -> Seq<(Pos, Tile)>
    decreases corridors.len(),
{
    if corridors.len() == 0 {
        Seq::empty()
    } else {
        corridor_events(g, corridors.drop_last()) + cell_events(g, corridors.last(), Tile::Floor)
    }
}

/// Whether cell `i` belongs to one of `corridors`.
pub open spec fn in_corridors(corridors: Seq<Seq<usize>>, i: usize) -> bool {
    exists|c: int| 0 <= c < corridors.len() && (#[trigger] corridors[c]).contains(i)
}

/// The tiles once every cell of `corridors` is floor.
pub open spec fn carved(tiles: Seq<Tile>, corridors: Seq<Seq<usize>>) -> Seq<Tile> {
    Seq::new(
        tiles.len(),
        |i: int|
            if in_corridors(corridors, i as usize) {
                Tile::Floor
            } else {
                tiles[i]
            },
    )
}

/// Whether each list of `corridors` holds indices of cells only.
pub open spec fn all_lists_cells(g: GridView, corridors: Seq<Seq<usize>>) -> bool {
    forall|c: int| 0 <= c < corridors.len() ==> all_cells(g, #[trigger] corridors[c])
}

/// Turns every cell of `cells` into `tile`.
pub fn set_cells(map: &mut Grid, cells: &Vec<usize>, tile: Tile)
    requires
        old(map).wf(),
        all_cells(old(map)@, cells@),
    ensures
        final(map).wf(),
        final(map)@.width == old(map)@.width,
        final(map)@.height == old(map)@.height,
        final(map)@.textures == old(map)@.textures,
        final(map)@.tiles.len() == old(map)@.tiles.len(),
        forall|i: int|
            0 <= i < old(map)@.tiles.len() ==> #[trigger] final(map)@.tiles[i] == if cells@.contains(
                i as usize,
            ) {
                tile
            } else {
                old(map)@.tiles[i]
            },
{
    let mut p: usize = 0;
    while p < cells.len()
        invariant
            p <= cells.len(),
            map.wf(),
            old(map).wf(),
            all_cells(old(map)@, cells@),
            map@.width == old(map)@.width,
            map@.height == old(map)@.height,
            map@.textures == old(map)@.textures,
            map@.tiles.len() == old(map)@.tiles.len(),
            forall|i: int|
                0 <= i < old(map)@.tiles.len() ==> #[trigger] map@.tiles[i] == if cells@.take(
                    p as int,
                ).contains(i as usize) {
                    tile
                } else {
                    old(map)@.tiles[i]
                },
        decreases cells.len() - p,
    {
        let v: usize = cells[p];
        let ghost done = cells@.take(p as int);
        let ghost more = cells@.take(p as int + 1);
        map.set_tile(v, tile);
        proof {
            assert forall|i: int| 0 <= i < old(map)@.tiles.len() implies #[trigger] map@.tiles[i]
                == if more.contains(i as usize) {
                tile
            } else {
                old(map)@.tiles[i]
            } by {
                if i == v {
                    assert(more[p as int] == v);
                } else {
                    if done.contains(i as usize) {
                        let q = choose|q: int| 0 <= q < done.len() && done[q] == i as usize;
                    }
                    if more.contains(i as usize) {
                        let q = choose|q: int| 0 <= q < more.len() && more[q] == i as usize;
                    }
                }
            }
        }
        p = p + 1;
    }
    assert(cells@.take(cells@.len() as int) =~= cells@);
}

/// Records in `timeline` that every cell of `cells` has become `tile`: one
/// event per entry, in order. The grid is only read.
pub fn record_cells(map: &Grid, cells: &Vec<usize>, tile: Tile, timeline: &mut Vec<(Pos, Tile)>)
    requires
        map.wf(),
        all_cells(map@, cells@),
    ensures
        final(timeline)@ == old(timeline)@ + cell_events(map@, cells@, tile),
{
    let mut p: usize = 0;
    while p < cells.len()
        invariant
            p <= cells.len(),
            map.wf(),
            all_cells(map@, cells@),
            timeline@ == old(timeline)@ + cell_events(map@, cells@.take(p as int), tile),
        decreases cells.len() - p,
    {
        match map.idx_to_vec2(cells[p]) {
            Ok(pos) => {
                timeline.push((pos, tile));
            },
            Err(_) => {},
        }
        p = p + 1;
    }
}

/// Commits every corridor of `corridors` to the grid: each of their cells
/// becomes floor and is recorded in `timeline`, corridor after corridor.
pub fn commit_corridors(
    map: &mut Grid,
    corridors: &Vec<Vec<usize>>,
    timeline: &mut Vec<(Pos, Tile)>,
)
    requires
        old(map).wf(),
        all_lists_cells(old(map)@, lists(corridors@)),
    ensures
        final(map).wf(),
        final(map)@ == old(map)@.with_tiles(carved(old(map)@.tiles, lists(corridors@))),
        final(timeline)@ == old(timeline)@ + corridor_events(old(map)@, lists(corridors@)),
{
    let ghost all = lists(corridors@);
    let mut c: usize = 0;
    assert(map@.tiles =~= carved(old(map)@.tiles, all.take(0)));
    while c < corridors.len()
        invariant
            c <= corridors.len(),
            all == lists(corridors@),
            map.wf(),
            old(map).wf(),
            all_lists_cells(old(map)@, all),
            map@ == old(map)@.with_tiles(carved(old(map)@.tiles, all.take(c as int))),
            timeline@ == old(timeline)@ + corridor_events(old(map)@, all.take(c as int)),
        decreases corridors.len() - c,
    {
        let ghost done = all.take(c as int);
        let ghost more = all.take(c as int + 1);
        let ghost cells = corridors@[c as int]@;
        assert(all_cells(old(map)@, all[c as int]));
        set_cells(map, &corridors[c], Tile::Floor);
        record_cells(map, &corridors[c], Tile::Floor, timeline);
        proof {
            assert(more.drop_last() =~= done);
            assert forall|i: int| 0 <= i < map@.tiles.len() implies map@.tiles[i] == carved(
                old(map)@.tiles,
                more,
            )[i] by {
                if cells.contains(i as usize) {
                    assert(more[c as int].contains(i as usize));
                }
                if in_corridors(done, i as usize) {
                    let k = choose|k: int|
                        0 <= k < done.len() && (#[trigger] done[k]).contains(i as usize);
                    assert(more[k].contains(i as usize));
                }
                if in_corridors(more, i as usize) {
                    let k = choose|k: int|
                        0 <= k < more.len() && (#[trigger] more[k]).contains(i as usize);
                    if k < c {
                        assert(done[k].contains(i as usize));
                    }
                }
            }
            assert(map@.tiles =~= carved(old(map)@.tiles, more));
        }
        c = c + 1;
    }
    assert(all.take(all.len() as int) =~= all);
}

/// Whether a cell of `cells` shares an edge with one of `doors`.
pub open spec fn touches_door(g: GridView, cells: Seq<usize>, doors: Seq<usize>) -> bool {
    exists|p: int, q: int|
        0 <= p < cells.len() && 0 <= q < cross(g, cells[p] as int).len() && doors.contains(
            #[trigger] cross(g, cells[p] as int)[q],
        )
}

/// Whether cell `i` belongs to a corridor of `corridors` that touches no
/// door.
pub open spec fn orphaned(
    g: GridView,
    corridors: Seq<Seq<usize>>,
    doors: Seq<usize>,
    i: usize,
) -> bool {
    exists|c: int|
        0 <= c < corridors.len() && !touches_door(g, #[trigger] corridors[c], doors)
            && corridors[c].contains(i)
}

/// The tiles once every corridor that touches no door is reverted to
/// [`Tile::Dirt`], cell by cell. A cell that such a corridor shares with a
/// corridor that touches a door reverts too.
pub open spec fn pruned(g: GridView, corridors: Seq<Seq<usize>>, doors: Seq<usize>) -> Seq<Tile> {
    Seq::new(
        g.tiles.len(),
        |i: int|
            if orphaned(g, corridors, doors, i as usize) {
                Tile::Dirt
            } else {
                g.tiles[i]
            },
    )
}

/// Whether a cell of `cells` shares an edge with one of `doors`.
pub fn corridor_touches_door(map: &Grid, cells: &Vec<usize>, doors: &Vec<usize>) -> (b: bool)
    requires
        map.wf(),
        all_cells(map@, cells@),
    ensures
        b == touches_door(map@, cells@, doors@),
{
    let mut p: usize = 0;
    while p < cells.len()
        invariant
            p <= cells.len(),
            map.wf(),
            all_cells(map@, cells@),
            forall|m: int, q: int|
                0 <= m < p && 0 <= q < cross(map@, cells@[m] as int).len() ==> !doors@.contains(
                    #[trigger] cross(map@, cells@[m] as int)[q],
                ),
        decreases cells.len() - p,
    {
        let beside = adjecent_idxs(map, cells[p]);
        let mut q: usize = 0;
        while q < beside.len()
            invariant
                q <= beside.len(),
                p < cells.len(),
                beside@ == cross(map@, cells@[p as int] as int),
                forall|n: int| 0 <= n < q ==> !doors@.contains(#[trigger] beside@[n]),
            decreases beside.len() - q,
        {
            if contains(doors, beside[q]) {
                return true;
            }
            q = q + 1;
        }
        p = p + 1;
    }
    false
}

/// Discards every corridor none of whose cells shares an edge with a door:
/// each cell of such a corridor reverts to [`Tile::Dirt`], also where a
/// kept corridor holds the cell too. The result tells for each corridor
/// whether it was kept, which is the case exactly if it touches a door. A
/// cell that no discarded corridor holds is left as it was.
pub fn prune_corridors(map: &mut Grid, corridors: &Vec<Vec<usize>>, doors: &Vec<usize>) -> (kept:
    Vec<bool>)
    requires
        old(map).wf(),
        all_lists_cells(old(map)@, lists(corridors@)),
    ensures
        final(map).wf(),
        final(map)@ == old(map)@.with_tiles(pruned(old(map)@, lists(corridors@), doors@)),
        kept@.len() == corridors@.len(),
        forall|c: int|
            0 <= c < corridors@.len() ==> #[trigger] kept@[c] == touches_door(
                old(map)@,
                corridors@[c]@,
                doors@,
            ),
        forall|c: int, p: int|
            0 <= c < corridors@.len() && !kept@[c] && 0 <= p < corridors@[c]@.len()
                ==> final(map)@.tiles[#[trigger] corridors@[c]@[p] as int] == Tile::Dirt,
        forall|i: int|
            0 <= i < old(map)@.cells() && !orphaned(
                old(map)@,
                lists(corridors@),
                doors@,
                i as usize,
            ) ==> #[trigger] final(map)@.tiles[i] == old(map)@.tiles[i],
{
    let ghost all = lists(corridors@);
    let mut kept: Vec<bool> = Vec::new();
    let mut c: usize = 0;
    assert(map@.tiles =~= pruned(old(map)@, all.take(0), doors@));
    while c < corridors.len()
        invariant
            c <= corridors.len(),
            all == lists(corridors@),
            map.wf(),
            old(map).wf(),
            all_lists_cells(old(map)@, all),
            map@ == old(map)@.with_tiles(pruned(old(map)@, all.take(c as int), doors@)),
            kept@.len() == c,
            forall|k: int|
                0 <= k < c ==> #[trigger] kept@[k] == touches_door(
                    old(map)@,
                    corridors@[k]@,
                    doors@,
                ),
        decreases corridors.len() - c,
    {
        let ghost done = all.take(c as int);
        let ghost more = all.take(c as int + 1);
        let ghost cells = corridors@[c as int]@;
        assert(all_cells(old(map)@, all[c as int]));
        let connected = corridor_touches_door(map, &corridors[c], doors);
        assert(connected == touches_door(old(map)@, cells, doors@)) by {
            lemma_touches_door_ignores_tiles(map@, old(map)@, cells, doors@);
        }
        if !connected {
            set_cells(map, &corridors[c], Tile::Dirt);
        }
        kept.push(connected);
        proof {
            assert forall|i: int| 0 <= i < map@.tiles.len() implies map@.tiles[i] == pruned(
                old(map)@,
                more,
                doors@,
            )[i] by {
                if !connected && cells.contains(i as usize) {
                    assert(more[c as int].contains(i as usize));
                }
                if orphaned(old(map)@, done, doors@, i as usize) {
                    let k = choose|k: int|
                        0 <= k < done.len() && !touches_door(old(map)@, #[trigger] done[k], doors@)
                            && done[k].contains(i as usize);
                    assert(more[k].contains(i as usize));
                }
                if orphaned(old(map)@, more, doors@, i as usize) {
                    let k = choose|k: int|
                        0 <= k < more.len() && !touches_door(old(map)@, #[trigger] more[k], doors@)
                            && more[k].contains(i as usize);
                    if k < c {
                        assert(done[k].contains(i as usize));
                    }
                }
            }
            assert(map@.tiles =~= pruned(old(map)@, more, doors@));
        }
        c = c + 1;
    }
    assert(all.take(all.len() as int) =~= all);
    proof {
        assert forall|w: int, p: int|
            0 <= w < corridors@.len() && !kept@[w] && 0 <= p < corridors@[w]@.len() implies map@.tiles[#[trigger] corridors@[w]@[p] as int]
            == Tile::Dirt by {
            let cell = corridors@[w]@[p];
            assert(all_cells(old(map)@, all[w]));
            assert(all[w].contains(cell));
            assert(orphaned(old(map)@, all, doors@, cell));
        }
    }
    kept
}

/// Whether a corridor touches a door depends on the shape of the grid
/// only, not on its tiles.
pub proof fn lemma_touches_door_ignores_tiles(
    a: GridView,
    b: GridView,
    cells: Seq<usize>,
    doors: Seq<usize>,
)
    requires
        a.width == b.width,
        a.height == b.height,
    ensures
        touches_door(a, cells, doors) == touches_door(b, cells, doors),
{
    assert forall|i: int| cross(a, i) == cross(b, i) by {
        lemma_cross_ignores_tiles(a, b, i);
    }
    if touches_door(a, cells, doors) {
        let (p, q) = choose|p: int, q: int|
            0 <= p < cells.len() && 0 <= q < cross(a, cells[p] as int).len() && doors.contains(
                #[trigger] cross(a, cells[p] as int)[q],
            );
    }
    if touches_door(b, cells, doors) {
        let (p, q) = choose|p: int, q: int|
            0 <= p < cells.len() && 0 <= q < cross(b, cells[p] as int).len() && doors.contains(
                #[trigger] cross(b, cells[p] as int)[q],
            );
    }
}

} // verus!
