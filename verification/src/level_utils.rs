//! Neighbourhood queries on a grid, and the wall pattern table.

use vstd::prelude::*;
use crate::grid::Grid;
use crate::grid::GridView;
use crate::grid::lemma_cell_of_index;
use crate::grid::lemma_shifted;
use crate::grid::Pos;
use crate::grid::Texture;
use crate::tile::is_room;
use crate::tile::spec_is_room;
use crate::tile::Tile;

verus! {

/// Offset of the `k`-th of the eight cells around a cell, clockwise from
/// the top left corner.
pub open spec fn around(k: int) -> (int, int) {
    if k == 0 {
        (-1, -1)
    } else if k == 1 {
        (0, -1)
    } else if k == 2 {
        (1, -1)
    } else if k == 3 {
        (1, 0)
    } else if k == 4 {
        (1, 1)
    } else if k == 5 {
        (0, 1)
    } else if k == 6 {
        (-1, 1)
    } else {
        (-1, 0)
    }
}

/// Offset of the `k`-th of the four cells that share an edge with a cell:
/// top, left, right, bottom.
pub open spec fn beside(k: int) -> (int, int) {
    if k == 0 {
        (0, -1)
    } else if k == 1 {
        (-1, 0)
    } else if k == 2 {
        (1, 0)
    } else {
        (0, 1)
    }
}

fn around_offset(k: usize) -> (d: Pos)
    requires
        k < 8,
    ensures
        (d.x as int, d.y as int) == around(k as int),
{
    if k == 0 {
        Pos { x: -1, y: -1 }
    } else if k == 1 {
        Pos { x: 0, y: -1 }
    } else if k == 2 {
        Pos { x: 1, y: -1 }
    } else if k == 3 {
        Pos { x: 1, y: 0 }
    } else if k == 4 {
        Pos { x: 1, y: 1 }
    } else if k == 5 {
        Pos { x: 0, y: 1 }
    } else if k == 6 {
        Pos { x: -1, y: 1 }
    } else {
        Pos { x: -1, y: 0 }
    }
}

fn beside_offset(k: usize) -> (d: Pos)
    requires
        k < 4,
    ensures
        (d.x as int, d.y as int) == beside(k as int),
{
    if k == 0 {
        Pos { x: 0, y: -1 }
    } else if k == 1 {
        Pos { x: -1, y: 0 }
    } else if k == 2 {
        Pos { x: 1, y: 0 }
    } else {
        Pos { x: 0, y: 1 }
    }
}

/// Index of the `k`-th cell around the cell with index `i`, if it lies in
/// the grid.
pub open spec fn around_idx(g: GridView, i: int, k: int) -> Option<usize> {
    g.shifted(i, around(k).0, around(k).1)
}

/// Tile of the `k`-th cell around the cell with index `i`, if it lies in
/// the grid.
pub open spec fn around_tile(g: GridView, i: int, k: int) -> Option<Tile> {
    g.tile_at(g.col(i) + around(k).0, g.row(i) + around(k).1)
}

/// Index of the `k`-th cell beside the cell with index `i`, if it lies in
/// the grid.
pub open spec fn beside_idx(g: GridView, i: int, k: int) -> Option<usize> {
    g.shifted(i, beside(k).0, beside(k).1)
}

/// The indices of those of the first `n` cells around cell `i` that lie in
/// the grid, in clockwise order.
pub open spec fn ring_upto(g: GridView, i: int, n: int) -> Seq<usize>
    decreases n,
{
    if n <= 0 {
        Seq::empty()
    } else {
        match around_idx(g, i, n - 1) {
            Some(j) => ring_upto(g, i, n - 1).push(j),
            None => ring_upto(g, i, n - 1),
        }
    }
}

/// The indices of the cells around cell `i`: up to eight, fewer at the
/// border of the grid.
pub open spec fn ring(g: GridView, i: int) -> Seq<usize> {
    ring_upto(g, i, 8)
}

/// The indices of those of the first `n` cells beside cell `i` that lie in
/// the grid.
pub open spec fn cross_upto(g: GridView, i: int, n: int) -> Seq<usize>
    decreases n,
{
    if n <= 0 {
        Seq::empty()
    } else {
        match beside_idx(g, i, n - 1) {
            Some(j) => cross_upto(g, i, n - 1).push(j),
            None => cross_upto(g, i, n - 1),
        }
    }
}

/// The indices of the cells that share an edge with cell `i`: up to four,
/// in the order top, left, right, bottom.
pub open spec fn cross(g: GridView, i: int) -> Seq<usize> {
    cross_upto(g, i, 4)
}

/// Whether `t` is the tile of a cell, and a room tile.
pub open spec fn room_tile(t: Option<Tile>) -> bool {
    match t {
        Some(tile) => spec_is_room(&tile),
        None => false,
    }
}

/// Whether one of the eight cells around cell `i` is a room tile.
pub open spec fn touches_room(g: GridView, i: int) -> bool {
    exists|k: int| 0 <= k < 8 && room_tile(#[trigger] around_tile(g, i, k))
}

/// Whether cell `i` can start a corridor: it is no room tile and touches
/// none, not even diagonally.
pub open spec fn is_seed(g: GridView, i: int) -> bool {
    !spec_is_room(&g.tiles[i]) && !touches_room(g, i)
}

/// The seeds among the first `n` cells, in ascending order.
pub open spec fn seeds_upto(g: GridView, n: int) -> Seq<usize>
    decreases n,
{
    if n <= 0 {
        Seq::empty()
    } else if is_seed(g, n - 1) {
        seeds_upto(g, n - 1).push((n - 1) as usize)
    } else {
        seeds_upto(g, n - 1)
    }
}

/// Every seed of the grid, in ascending order.
pub open spec fn seeds(g: GridView) -> Seq<usize> {
    seeds_upto(g, g.cells())
}

/// A cell is among the cells around `i` exactly if it is one of the eight
/// neighbours that lie in the grid.
pub proof fn lemma_ring_members(g: GridView, i: int, j: usize)
    ensures
        ring(g, i).contains(j) <==> exists|k: int| 0 <= k < 8 && #[trigger] around_idx(g, i, k) == Some(j),
        ring(g, i).len() <= 8,
{
    lemma_ring_upto_members(g, i, 8, j);
}

proof fn lemma_ring_upto_members(g: GridView, i: int, n: int, j: usize)
    requires
        0 <= n,
    ensures
        ring_upto(g, i, n).contains(j) <==> exists|k: int| 0 <= k < n && #[trigger] around_idx(g, i, k) == Some(j),
        ring_upto(g, i, n).len() <= n,
    decreases n,
{
    if n > 0 {
        lemma_ring_upto_members(g, i, n - 1, j);
        let prev = ring_upto(g, i, n - 1);
        match around_idx(g, i, n - 1) {
            Some(m) => {
                assert(prev.push(m).contains(j) <==> prev.contains(j) || m == j) by {
                    if prev.contains(j) {
                        let p = choose|p: int| 0 <= p < prev.len() && prev[p] == j;
                        assert(prev.push(m)[p] == j);
                    }
                    if m == j {
                        assert(prev.push(m)[prev.len() as int] == j);
                    }
                }
            },
            None => {},
        }
    }
}

/// A cell is among the cells beside `i` exactly if it is one of the four
/// edge neighbours that lie in the grid.
pub proof fn lemma_cross_members(g: GridView, i: int, j: usize)
    ensures
        cross(g, i).contains(j) <==> exists|k: int| 0 <= k < 4 && #[trigger] beside_idx(g, i, k) == Some(j),
        cross(g, i).len() <= 4,
{
    lemma_cross_upto_members(g, i, 4, j);
}

proof fn lemma_cross_upto_members(g: GridView, i: int, n: int, j: usize)
    requires
        0 <= n,
    ensures
        cross_upto(g, i, n).contains(j) <==> exists|k: int| 0 <= k < n && #[trigger] beside_idx(g, i, k) == Some(j),
        cross_upto(g, i, n).len() <= n,
    decreases n,
{
    if n > 0 {
        lemma_cross_upto_members(g, i, n - 1, j);
        let prev = cross_upto(g, i, n - 1);
        match beside_idx(g, i, n - 1) {
            Some(m) => {
                assert(prev.push(m).contains(j) <==> prev.contains(j) || m == j) by {
                    if prev.contains(j) {
                        let p = choose|p: int| 0 <= p < prev.len() && prev[p] == j;
                        assert(prev.push(m)[p] == j);
                    }
                    if m == j {
                        assert(prev.push(m)[prev.len() as int] == j);
                    }
                }
            },
            None => {},
        }
    }
}

/// Stepping to the `k`-th cell around a cell and from there to the cell in
/// the opposite direction leads back.
pub proof fn lemma_around_back(g: GridView, i: int, k: int)
    requires
        g.wf(),
        0 <= i < g.cells(),
        0 <= k < 8,
        around_idx(g, i, k) is Some,
    ensures
        around_idx(g, around_idx(g, i, k).unwrap() as int, (k + 4) % 8) == Some(i as usize),
{
    lemma_shifted(g, i, around(k).0, around(k).1);
    lemma_cell_of_index(g, i);
}

/// Lying around a cell is mutual: `j` is among the cells around `i`
/// exactly if `i` is among the cells around `j`.
pub proof fn lemma_ring_symmetric(g: GridView, i: int, j: int)
    requires
        g.wf(),
        0 <= i < g.cells(),
        0 <= j < g.cells(),
    ensures
        ring(g, i).contains(j as usize) == ring(g, j).contains(i as usize),
{
    lemma_ring_members(g, i, j as usize);
    lemma_ring_members(g, j, i as usize);
    if ring(g, i).contains(j as usize) {
        let k = choose|k: int| 0 <= k < 8 && #[trigger] around_idx(g, i, k) == Some(j as usize);
        lemma_around_back(g, i, k);
    }
    if ring(g, j).contains(i as usize) {
        let k = choose|k: int| 0 <= k < 8 && #[trigger] around_idx(g, j, k) == Some(i as usize);
        lemma_around_back(g, j, k);
    }
}

/// Stepping to the `k`-th cell beside a cell and from there to the cell in
/// the opposite direction leads back.
pub proof fn lemma_beside_back(g: GridView, i: int, k: int)
    requires
        g.wf(),
        0 <= i < g.cells(),
        0 <= k < 4,
        beside_idx(g, i, k) is Some,
    ensures
        beside_idx(g, beside_idx(g, i, k).unwrap() as int, 3 - k) == Some(i as usize),
{
    lemma_shifted(g, i, beside(k).0, beside(k).1);
    lemma_cell_of_index(g, i);
}

/// Sharing an edge is mutual: `j` is among the cells beside `i` exactly if
/// `i` is among the cells beside `j`.
pub proof fn lemma_cross_symmetric(g: GridView, i: int, j: int)
    requires
        g.wf(),
        0 <= i < g.cells(),
        0 <= j < g.cells(),
    ensures
        cross(g, i).contains(j as usize) == cross(g, j).contains(i as usize),
{
    lemma_cross_members(g, i, j as usize);
    lemma_cross_members(g, j, i as usize);
    if cross(g, i).contains(j as usize) {
        let k = choose|k: int| 0 <= k < 4 && #[trigger] beside_idx(g, i, k) == Some(j as usize);
        lemma_beside_back(g, i, k);
        assert(beside_idx(g, j, 3 - k) == Some(i as usize));
    }
    if cross(g, j).contains(i as usize) {
        let k = choose|k: int| 0 <= k < 4 && #[trigger] beside_idx(g, j, k) == Some(i as usize);
        lemma_beside_back(g, j, k);
        assert(beside_idx(g, i, 3 - k) == Some(j as usize));
    }
}

/// The seeds are the cells that are no room tile and touch none, each
/// listed once, in ascending order.
pub proof fn lemma_seeds(g: GridView, i: usize)
    requires
        g.wf(),
    ensures
        seeds(g).contains(i) <==> i < g.cells() && is_seed(g, i as int),
        forall|p: int, q: int|
            0 <= p < q < seeds(g).len() ==> #[trigger] seeds(g)[p] < #[trigger] seeds(g)[q],
{
    lemma_seeds_upto(g, g.cells(), i);
}

proof fn lemma_seeds_upto(g: GridView, n: int, i: usize)
    requires
        0 <= n <= usize::MAX,
    ensures
        seeds_upto(g, n).contains(i) <==> i < n && is_seed(g, i as int),
        forall|p: int| 0 <= p < seeds_upto(g, n).len() ==> #[trigger] seeds_upto(g, n)[p] < n,
        forall|p: int, q: int|
            0 <= p < q < seeds_upto(g, n).len() ==> #[trigger] seeds_upto(g, n)[p]
                < #[trigger] seeds_upto(g, n)[q],
    decreases n,
{
    if n > 0 {
        lemma_seeds_upto(g, n - 1, i);
        let prev = seeds_upto(g, n - 1);
        if is_seed(g, n - 1) {
            let m = (n - 1) as usize;
            assert(prev.push(m).contains(i) <==> prev.contains(i) || m == i) by {
                if prev.contains(i) {
                    let p = choose|p: int| 0 <= p < prev.len() && prev[p] == i;
                    assert(prev.push(m)[p] == i);
                }
                if m == i {
                    assert(prev.push(m)[prev.len() as int] == i);
                }
            }
        }
    }
}

/// Every entry of the cells around a cell is the index of a cell.
pub proof fn lemma_ring_cells(g: GridView, i: int, p: int)
    requires
        g.wf(),
        0 <= p < ring(g, i).len(),
    ensures
        ring(g, i)[p] < g.cells(),
{
    lemma_ring_upto_cells(g, i, 8, p);
}

proof fn lemma_ring_upto_cells(g: GridView, i: int, n: int, p: int)
    requires
        g.wf(),
        0 <= n,
        0 <= p < ring_upto(g, i, n).len(),
    ensures
        ring_upto(g, i, n)[p] < g.cells(),
    decreases n,
{
    if n > 0 {
        lemma_shifted(g, i, around(n - 1).0, around(n - 1).1);
        if p < ring_upto(g, i, n - 1).len() {
            lemma_ring_upto_cells(g, i, n - 1, p);
        }
    }
}

/// Every entry of the cells beside a cell is the index of a cell.
pub proof fn lemma_cross_cells(g: GridView, i: int, p: int)
    requires
        g.wf(),
        0 <= p < cross(g, i).len(),
    ensures
        cross(g, i)[p] < g.cells(),
{
    lemma_cross_upto_cells(g, i, 4, p);
}

proof fn lemma_cross_upto_cells(g: GridView, i: int, n: int, p: int)
    requires
        g.wf(),
        0 <= n,
        0 <= p < cross_upto(g, i, n).len(),
    ensures
        cross_upto(g, i, n)[p] < g.cells(),
    decreases n,
{
    if n > 0 {
        lemma_shifted(g, i, beside(n - 1).0, beside(n - 1).1);
        if p < cross_upto(g, i, n - 1).len() {
            lemma_cross_upto_cells(g, i, n - 1, p);
        }
    }
}

/// Which cells lie beside or around a cell depends on the shape of the
/// grid only, not on its tiles.
pub proof fn lemma_cross_ignores_tiles(a: GridView, b: GridView, i: int)
    requires
        a.width == b.width,
        a.height == b.height,
    ensures
        cross(a, i) == cross(b, i),
        ring(a, i) == ring(b, i),
{
    reveal_with_fuel(cross_upto, 5);
    reveal_with_fuel(ring_upto, 9);
}

/// The tile at `pos`, or `None` where `pos` is outside the grid.
pub fn get_tile_at_pos(map: &Grid, pos: Pos) -> (t: Option<Tile>)
    requires
        map.wf(),
    ensures
        t == map@.tile_at(pos.x as int, pos.y as int),
{
    map.tile_at_pos(pos)
}

/// The tiles of the eight cells around cell `idx`, clockwise from the top
/// left corner, `None` standing for a position outside the grid.
pub fn surrounding_tiles(map: &Grid, idx: usize) -> (r: Vec<Option<Tile>>)
    requires
        map.wf(),
        idx < map@.cells(),
    ensures
        r@ == Seq::new(8, |k: int| around_tile(map@, idx as int, k)),
{
    let mut out: Vec<Option<Tile>> = Vec::new();
    let mut k: usize = 0;
    while k < 8
        invariant
            k <= 8,
            map.wf(),
            idx < map@.cells(),
            out@ == Seq::new(k as nat, |m: int| around_tile(map@, idx as int, m)),
        decreases 8 - k,
    {
        let d = around_offset(k);
        proof {
            lemma_shifted(map@, idx as int, d.x as int, d.y as int);
        }
        let t = match map.neighbour(idx, d.x, d.y) {
            Some(j) => Some(map.tile(j)),
            None => None,
        };
        out.push(t);
        k = k + 1;
    }
    out
}

/// The indices of the cells around cell `idx` that lie in the grid,
/// clockwise from the top left corner.
pub fn surrounding_idxs(map: &Grid, idx: usize) -> (r: Vec<usize>)
    requires
        map.wf(),
        idx < map@.cells(),
    ensures
        r@ == ring(map@, idx as int),
        forall|p: int| 0 <= p < r@.len() ==> r@[p] < map@.cells(),
{
    let mut out: Vec<usize> = Vec::new();
    let mut k: usize = 0;
    while k < 8
        invariant
            k <= 8,
            map.wf(),
            idx < map@.cells(),
            out@ == ring_upto(map@, idx as int, k as int),
            forall|p: int| 0 <= p < out@.len() ==> out@[p] < map@.cells(),
        decreases 8 - k,
    {
        let d = around_offset(k);
        match map.neighbour(idx, d.x, d.y) {
            Some(j) => {
                out.push(j);
            },
            None => {},
        }
        k = k + 1;
    }
    out
}

/// The indices of the cells that share an edge with cell `idx` and lie in
/// the grid, in the order top, left, right, bottom.
pub fn adjecent_idxs(map: &Grid, idx: usize) -> (r: Vec<usize>)
    requires
        map.wf(),
        idx < map@.cells(),
    ensures
        r@ == cross(map@, idx as int),
        forall|p: int| 0 <= p < r@.len() ==> r@[p] < map@.cells(),
{
    let mut out: Vec<usize> = Vec::new();
    let mut k: usize = 0;
    while k < 4
        invariant
            k <= 4,
            map.wf(),
            idx < map@.cells(),
            out@ == cross_upto(map@, idx as int, k as int),
            forall|p: int| 0 <= p < out@.len() ==> out@[p] < map@.cells(),
        decreases 4 - k,
    {
        let d = beside_offset(k);
        match map.neighbour(idx, d.x, d.y) {
            Some(j) => {
                out.push(j);
            },
            None => {},
        }
        k = k + 1;
    }
    out
}

/// The shape of a wall cell, told by which of the four cells beside it are
/// walls too.
#[derive(Clone, Copy, Debug, PartialEq, Eq, Structural)]
pub enum WallPattern {
    /// The wall goes on to the left only.
    RightEnd,
    /// The wall goes on to the right only.
    LeftEnd,
    /// The wall goes on downwards only.
    TopEnd,
    /// The wall goes on upwards only.
    BottomEnd,
    /// The wall goes on in all four directions.
    Cross,
    /// The wall goes on upwards and downwards.
    VertLine,
    /// The wall goes on to the left and to the right.
    HorLine,
    /// Every direction but upwards.
    UprightT,
    /// Every direction but downwards.
    DownrightT,
    /// Every direction but to the right.
    RightLyingT,
    /// Every direction but to the left.
    LeftLyingT,
    /// To the right and downwards.
    TopLeftCorner,
    /// To the left and downwards.
    TopRightCorner,
    /// Upwards and to the right.
    BottomLeftCorner,
    /// Upwards and to the left.
    BottomRightCorner,
    /// No wall beside it.
    Lone,
}

/// The pattern of a wall cell with walls on the given sides.
pub open spec fn spec_wall_pattern(top: bool, left: bool, right: bool, bottom: bool) -> WallPattern {
    match (top, left, right, bottom) {
        (false, true, false, false) => WallPattern::RightEnd,
        (false, false, true, false) => WallPattern::LeftEnd,
        (false, false, false, true) => WallPattern::TopEnd,
        (true, false, false, false) => WallPattern::BottomEnd,
        (true, true, true, true) => WallPattern::Cross,
        (true, false, false, true) => WallPattern::VertLine,
        (false, true, true, false) => WallPattern::HorLine,
        (false, true, true, true) => WallPattern::UprightT,
        (true, true, true, false) => WallPattern::DownrightT,
        (true, true, false, true) => WallPattern::RightLyingT,
        (true, false, true, true) => WallPattern::LeftLyingT,
        (false, false, true, true) => WallPattern::TopLeftCorner,
        (false, true, false, true) => WallPattern::TopRightCorner,
        (true, false, true, false) => WallPattern::BottomLeftCorner,
        (true, true, false, false) => WallPattern::BottomRightCorner,
        (false, false, false, false) => WallPattern::Lone,
    }
}

/// The atlas coordinate of each wall pattern. A wall with no wall beside
/// it gets the fallback coordinate.
pub open spec fn spec_pattern_texture(pattern: WallPattern) -> Texture {
    match pattern {
        WallPattern::RightEnd => Texture(Pos { x: 0, y: 3 }),
        WallPattern::LeftEnd => Texture(Pos { x: 1, y: 3 }),
        WallPattern::TopEnd => Texture(Pos { x: 2, y: 3 }),
        WallPattern::BottomEnd => Texture(Pos { x: 3, y: 3 }),
        WallPattern::Cross => Texture(Pos { x: 0, y: 4 }),
        WallPattern::VertLine => Texture(Pos { x: 1, y: 4 }),
        WallPattern::HorLine => Texture(Pos { x: 2, y: 4 }),
        WallPattern::UprightT => Texture(Pos { x: 0, y: 5 }),
        WallPattern::DownrightT => Texture(Pos { x: 1, y: 5 }),
        WallPattern::RightLyingT => Texture(Pos { x: 2, y: 5 }),
        WallPattern::LeftLyingT => Texture(Pos { x: 3, y: 5 }),
        WallPattern::TopLeftCorner => Texture(Pos { x: 0, y: 6 }),
        WallPattern::TopRightCorner => Texture(Pos { x: 1, y: 6 }),
        WallPattern::BottomLeftCorner => Texture(Pos { x: 2, y: 6 }),
        WallPattern::BottomRightCorner => Texture(Pos { x: 3, y: 6 }),
        WallPattern::Lone => Texture(Pos { x: 8, y: 0 }),
    }
}

/// Whether `t` is the tile of a cell, and a wall.
pub open spec fn wall_tile(t: Option<Tile>) -> bool {
    t == Some(Tile::Wall)
}

/// The atlas coordinate of a wall cell whose eight neighbours, clockwise
/// from the top left corner, hold `around`. Only the four cells beside the
/// wall count. Anything but eight entries gets the fallback coordinate.
pub open spec fn spec_wall_atlas_pos(around: Seq<Option<Tile>>) -> Texture {
    if around.len() == 8 {
        spec_pattern_texture(
            spec_wall_pattern(
                wall_tile(around[1]),
                wall_tile(around[7]),
                wall_tile(around[3]),
                wall_tile(around[5]),
            ),
        )
    } else {
        spec_pattern_texture(WallPattern::Lone)
    }
}

/// The pattern of a wall cell with walls on the given sides.
pub fn wall_pattern(top: bool, left: bool, right: bool, bottom: bool) -> (pattern: WallPattern)
    ensures
        pattern == spec_wall_pattern(top, left, right, bottom),
{
    match (top, left, right, bottom) {
        (false, true, false, false) => WallPattern::RightEnd,
        (false, false, true, false) => WallPattern::LeftEnd,
        (false, false, false, true) => WallPattern::TopEnd,
        (true, false, false, false) => WallPattern::BottomEnd,
        (true, true, true, true) => WallPattern::Cross,
        (true, false, false, true) => WallPattern::VertLine,
        (false, true, true, false) => WallPattern::HorLine,
        (false, true, true, true) => WallPattern::UprightT,
        (true, true, true, false) => WallPattern::DownrightT,
        (true, true, false, true) => WallPattern::RightLyingT,
        (true, false, true, true) => WallPattern::LeftLyingT,
        (false, false, true, true) => WallPattern::TopLeftCorner,
        (false, true, false, true) => WallPattern::TopRightCorner,
        (true, false, true, false) => WallPattern::BottomLeftCorner,
        (true, true, false, false) => WallPattern::BottomRightCorner,
        (false, false, false, false) => WallPattern::Lone,
    }
}

/// The atlas coordinate of each wall pattern.
pub fn pattern_texture(pattern: WallPattern) -> (texture: Texture)
    ensures
        texture == spec_pattern_texture(pattern),
{
    match pattern {
        WallPattern::RightEnd => Texture(Pos { x: 0, y: 3 }),
        WallPattern::LeftEnd => Texture(Pos { x: 1, y: 3 }),
        WallPattern::TopEnd => Texture(Pos { x: 2, y: 3 }),
        WallPattern::BottomEnd => Texture(Pos { x: 3, y: 3 }),
        WallPattern::Cross => Texture(Pos { x: 0, y: 4 }),
        WallPattern::VertLine => Texture(Pos { x: 1, y: 4 }),
        WallPattern::HorLine => Texture(Pos { x: 2, y: 4 }),
        WallPattern::UprightT => Texture(Pos { x: 0, y: 5 }),
        WallPattern::DownrightT => Texture(Pos { x: 1, y: 5 }),
        WallPattern::RightLyingT => Texture(Pos { x: 2, y: 5 }),
        WallPattern::LeftLyingT => Texture(Pos { x: 3, y: 5 }),
        WallPattern::TopLeftCorner => Texture(Pos { x: 0, y: 6 }),
        WallPattern::TopRightCorner => Texture(Pos { x: 1, y: 6 }),
        WallPattern::BottomLeftCorner => Texture(Pos { x: 2, y: 6 }),
        WallPattern::BottomRightCorner => Texture(Pos { x: 3, y: 6 }),
        WallPattern::Lone => Texture(Pos { x: 8, y: 0 }),
    }
}

fn is_wall_at(tiles: &Vec<Tile>, idx: usize) -> (b: bool)
    ensures
        b == (idx < tiles@.len() && tiles@[idx as int] == Tile::Wall),
{
    if idx < tiles.len() {
        match tiles[idx] {
            Tile::Wall => true,
            _ => false,
        }
    } else {
        false
    }
}

/// The tiles that `tiles` holds under the indices of `surrounding`, in
/// order. An index outside `tiles` stands for a place outside the grid and
/// yields `None`.
pub open spec fn looked_up(tiles: Seq<Tile>, surrounding: Seq<usize>) -> Seq<Option<Tile>> {
    Seq::new(
        surrounding.len(),
        |k: int|
            if surrounding[k] < tiles.len() {
                Some(tiles[surrounding[k] as int])
            } else {
                None
            },
    )
}

/// The eight places around cell `i`, clockwise from the top left corner:
/// the index of the cell there, or the number of cells where the place
/// lies outside the grid.
pub open spec fn places_around(g: GridView, i: int) -> Seq<usize> {
    Seq::new(
        8,
        |k: int|
            match around_idx(g, i, k) {
                Some(j) => j,
                None => g.cells() as usize,
            },
    )
}

/// The eight places around cell `idx`, clockwise from the top left corner:
/// the index of the cell there, or the number of cells, which is no index,
/// where the place lies outside the grid.
pub fn surrounding_places(map: &Grid, idx: usize) -> (r: Vec<usize>)
    requires
        map.wf(),
        idx < map@.cells(),
    ensures
        r@ == places_around(map@, idx as int),
        looked_up(map@.tiles, r@) == Seq::new(8, |k: int| around_tile(map@, idx as int, k)),
{
    let mut out: Vec<usize> = Vec::new();
    let outside: usize = map.len();
    let mut k: usize = 0;
    while k < 8
        invariant
            k <= 8,
            map.wf(),
            idx < map@.cells(),
            outside == map@.cells(),
            out@ == Seq::new(
                k as nat,
                |m: int|
                    match around_idx(map@, idx as int, m) {
                        Some(j) => j,
                        None => map@.cells() as usize,
                    },
            ),
            forall|m: int|
                0 <= m < k ==> #[trigger] looked_up(map@.tiles, out@)[m] == around_tile(
                    map@,
                    idx as int,
                    m,
                ),
        decreases 8 - k,
    {
        let d = around_offset(k);
        proof {
            lemma_shifted(map@, idx as int, d.x as int, d.y as int);
        }
        let ghost before = out@;
        match map.neighbour(idx, d.x, d.y) {
            Some(j) => {
                out.push(j);
            },
            None => {
                out.push(outside);
            },
        }
        proof {
            assert forall|m: int| 0 <= m < k + 1 implies #[trigger] looked_up(map@.tiles, out@)[m]
                == around_tile(map@, idx as int, m) by {
                if m < k {
                    assert(looked_up(map@.tiles, before)[m] == around_tile(map@, idx as int, m));
                    assert(out@[m] == before[m]);
                }
            }
        }
        k = k + 1;
    }
    assert(looked_up(map@.tiles, out@) =~= Seq::new(
        8,
        |k: int| around_tile(map@, idx as int, k),
    ));
    out
}

/// The atlas coordinate of a wall cell, told by the tiles that `tiles`
/// holds under the indices of `surrounding`: the eight places around the
/// wall, clockwise from the top left corner. An index outside `tiles`
/// counts as no wall.
pub fn get_wall_atlas_pos(tiles: &Vec<Tile>, surrounding: &Vec<usize>) -> (texture: Texture)
    ensures
        texture == spec_wall_atlas_pos(looked_up(tiles@, surrounding@)),
{
    if surrounding.len() != 8 {
        return pattern_texture(WallPattern::Lone);
    }
    let top = is_wall_at(tiles, surrounding[1]);
    let right = is_wall_at(tiles, surrounding[3]);
    let bottom = is_wall_at(tiles, surrounding[5]);
    let left = is_wall_at(tiles, surrounding[7]);
    pattern_texture(wall_pattern(top, left, right, bottom))
}

/// Whether one of the eight cells around cell `idx` is a room tile.
pub fn is_adjecent_to_room(map: &Grid, idx: usize) -> (b: bool)
    requires
        map.wf(),
        idx < map@.cells(),
    ensures
        b == touches_room(map@, idx as int),
{
    let around = surrounding_tiles(map, idx);
    let mut k: usize = 0;
    while k < 8
        invariant
            k <= 8,
            around@ == Seq::new(8, |m: int| around_tile(map@, idx as int, m)),
            forall|m: int| 0 <= m < k ==> !room_tile(#[trigger] around_tile(map@, idx as int, m)),
        decreases 8 - k,
    {
        match around[k] {
            Some(t) => {
                if is_room(&t) {
                    return true;
                }
            },
            None => {},
        }
        k = k + 1;
    }
    false
}

/// Whether none of the eight cells around cell `idx` is a room tile.
pub fn is_neighbourless_idx(map: &Grid, idx: usize) -> (b: bool)
    requires
        map.wf(),
        idx < map@.cells(),
    ensures
        b == !touches_room(map@, idx as int),
{
    !is_adjecent_to_room(map, idx)
}

/// The cells a corridor can start from, in ascending order: every cell that
/// is no room tile and touches none.
pub fn neighbourless_idxs(map: &Grid) -> (r: Vec<usize>)
    requires
        map.wf(),
    ensures
        r@ == seeds(map@),
        forall|p: int| 0 <= p < r@.len() ==> r@[p] < map@.cells(),
{
    let mut starting_points: Vec<usize> = Vec::new();
    let n: usize = map.len();
    let mut idx: usize = 0;
    while idx < n
        invariant
            idx <= n,
            n == map@.cells(),
            map.wf(),
            starting_points@ == seeds_upto(map@, idx as int),
            forall|p: int| 0 <= p < starting_points@.len() ==> starting_points@[p] < map@.cells(),
        decreases n - idx,
    {
        let tile = map.tile(idx);
        if !is_room(&tile) && is_neighbourless_idx(map, idx) {
            starting_points.push(idx);
        }
        idx = idx + 1;
    }
    starting_points
}

} // verus!
