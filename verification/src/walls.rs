//! Walls: the shell of wall cells around floor, and the atlas coordinate
//! of every cell.

use vstd::prelude::*;
use crate::corridors::all_cells;
use crate::corridors::set_cells;
use crate::grid::Grid;
use crate::grid::GridView;
use crate::grid::Pos;
use crate::grid::Texture;
use crate::level_utils::around_tile;
use crate::level_utils::get_wall_atlas_pos;
use crate::level_utils::lemma_cross_ignores_tiles;
use crate::level_utils::lemma_ring_cells;
use crate::level_utils::lemma_ring_symmetric;
use crate::level_utils::looked_up;
use crate::level_utils::ring;
use crate::level_utils::spec_wall_atlas_pos;
use crate::level_utils::surrounding_idxs;
use crate::level_utils::surrounding_places;
use crate::tile::is_floor;
use crate::tile::Tile;

verus! {

/// What a wall is built of.
#[derive(Clone, Copy, Debug, PartialEq, Eq, Structural)]
pub enum WallMaterial {
    Stone,
    Brick,
}

/// The coarse shape of a wall piece.
#[derive(Clone, Copy, Debug, PartialEq, Eq, Structural)]
pub enum WallType {
    Cross,
    HorinzontalCenter,
    HorisonalLeftEnd,
    HorisonalRightEnd,
    VerticalCenter,
    ReverseL,
    L,
    T,
    ReverseT,
}

/// A wall piece: material, shape and atlas coordinate.
#[derive(Clone, Copy, Debug, PartialEq, Eq, Structural)]
pub struct Wall {
    pub material: WallMaterial,
    pub wall_type: WallType,
    pub atlas_pos: Pos,
}

/// Whether one of the cells around cell `i` is floor.
pub open spec fn borders_floor(g: GridView, i: int) -> bool {
    exists|p: int|
        0 <= p < ring(g, i).len() && g.tiles[#[trigger] ring(g, i)[p] as int] == Tile::Floor
}

/// Whether cell `i` turns into a wall: it is unused and borders floor.
pub open spec fn becomes_wall(g: GridView, i: int) -> bool {
    g.tiles[i] == Tile::Dirt && borders_floor(g, i)
}

/// Those of the first `n` cells that turn into walls, in ascending order.
pub open spec fn walls_upto(g: GridView, n: int) -> Seq<usize>
    decreases n,
{
    if n <= 0 {
        Seq::empty()
    } else if becomes_wall(g, n - 1) {
        walls_upto(g, n - 1).push((n - 1) as usize)
    } else {
        walls_upto(g, n - 1)
    }
}

/// Every cell that turns into a wall, in ascending order.
pub open spec fn wall_cells(g: GridView) -> Seq<usize> {
    walls_upto(g, g.cells())
}

/// The tiles once the walls are derived.
pub open spec fn walled(g: GridView) -> Seq<Tile> {
    Seq::new(
        g.tiles.len(),
        |i: int|
            if becomes_wall(g, i) {
                Tile::Wall
            } else {
                g.tiles[i]
            },
    )
}

/// Every unused cell around a floor cell turns into a wall.
pub proof fn lemma_floor_is_walled_in(g: GridView, floor: int, p: int)
    requires
        g.wf(),
        0 <= floor < g.cells(),
        g.tiles[floor] == Tile::Floor,
        0 <= p < ring(g, floor).len(),
        g.tiles[ring(g, floor)[p] as int] == Tile::Dirt,
    ensures
        ring(g, floor)[p] < g.cells(),
        walled(g)[ring(g, floor)[p] as int] == Tile::Wall,
        wall_cells(g).contains(ring(g, floor)[p]),
{
    let n = ring(g, floor)[p];
    lemma_ring_cells(g, floor, p);
    lemma_ring_symmetric(g, floor, n as int);
    let q = choose|q: int| 0 <= q < ring(g, n as int).len() && ring(g, n as int)[q] == floor as usize;
    lemma_wall_cells(g, g.cells(), n);
}

/// Whether no floor cell has an unused cell among the cells around it.
pub open spec fn floor_is_enclosed(g: GridView) -> bool {
    forall|i: int, p: int|
        0 <= i < g.cells() && g.tiles[i] == Tile::Floor && 0 <= p < ring(g, i).len()
            ==> g.tiles[#[trigger] ring(g, i)[p] as int] != Tile::Dirt
}

/// The cells that turn into walls are the unused cells that border floor,
/// each listed once, in ascending order.
pub proof fn lemma_wall_cells(g: GridView, n: int, i: usize)
    requires
        0 <= n <= usize::MAX,
    ensures
        walls_upto(g, n).contains(i) <==> i < n && becomes_wall(g, i as int),
        forall|p: int| 0 <= p < walls_upto(g, n).len() ==> #[trigger] walls_upto(g, n)[p] < n,
        forall|p: int, q: int|
            0 <= p < q < walls_upto(g, n).len() ==> #[trigger] walls_upto(g, n)[p]
                < #[trigger] walls_upto(g, n)[q],
    decreases n,
{
    if n > 0 {
        lemma_wall_cells(g, n - 1, i);
        let prev = walls_upto(g, n - 1);
        if becomes_wall(g, n - 1) {
            let m = (n - 1) as usize;
            assert(prev.push(m).contains(i) <==> prev.contains(i) || m == i) by {
                if prev.contains(i) {
                    let p = choose|p: int| 0 <= p < prev.len() && prev[p] == i;
                    assert(prev.push(m)[p] == i);
                }
                if m == i {
                    assert(prev.push(m)[prev.len() as int] == i);
                }
            }
        }
    }
}

/// Whether one of the cells around cell `idx` is floor.
pub fn has_floor_neighbour(map: &Grid, idx: usize) -> (b: bool)
    requires
        map.wf(),
        idx < map@.cells(),
    ensures
        b == borders_floor(map@, idx as int),
{
    let surrounding = surrounding_idxs(map, idx);
    let mut p: usize = 0;
    while p < surrounding.len()
        invariant
            p <= surrounding.len(),
            surrounding@ == ring(map@, idx as int),
            forall|q: int| 0 <= q < surrounding@.len() ==> surrounding@[q] < map@.cells(),
            forall|q: int|
                0 <= q < p ==> map@.tiles[#[trigger] ring(map@, idx as int)[q] as int]
                    != Tile::Floor,
        decreases surrounding.len() - p,
    {
        let tile = map.tile(surrounding[p]);
        if is_floor(&tile) {
            return true;
        }
        p = p + 1;
    }
    false
}

/// The cells that turn into walls, in ascending order. The grid is only
/// read.
pub fn find_walls(map: &Grid) -> (walls: Vec<usize>)
    requires
        map.wf(),
    ensures
        walls@ == wall_cells(map@),
        all_cells(map@, walls@),
{
    let mut walls: Vec<usize> = Vec::new();
    let n: usize = map.len();
    let mut idx: usize = 0;
    while idx < n
        invariant
            idx <= n,
            n == map@.cells(),
            map.wf(),
            walls@ == walls_upto(map@, idx as int),
            all_cells(map@, walls@),
        decreases n - idx,
    {
        let tile = map.tile(idx);
        if tile == Tile::Dirt && has_floor_neighbour(map, idx) {
            walls.push(idx);
        }
        idx = idx + 1;
    }
    walls
}

/// Derives the walls: every unused cell that borders floor becomes a wall.
/// Returns the new wall cells in ascending order.
pub fn add_walls(map: &mut Grid) -> (walls: Vec<usize>)
    requires
        old(map).wf(),
    ensures
        final(map).wf(),
        final(map)@ == old(map)@.with_tiles(walled(old(map)@)),
        walls@ == wall_cells(old(map)@),
        all_cells(old(map)@, walls@),
        forall|i: int|
            0 <= i < old(map)@.cells() && old(map)@.tiles[i] != Tile::Wall
                && #[trigger] final(map)@.tiles[i] == Tile::Wall ==> borders_floor(final(map)@, i),
        floor_is_enclosed(final(map)@),
{
    let walls = find_walls(map);
    set_cells(map, &walls, Tile::Wall);
    proof {
        let g = old(map)@;
        assert forall|i: int| 0 <= i < g.tiles.len() implies map@.tiles[i] == walled(g)[i] by {
            lemma_wall_cells(g, g.cells(), i as usize);
        }
        assert(map@.tiles =~= walled(g));
        assert forall|i: int|
            0 <= i < g.cells() && g.tiles[i] != Tile::Wall && #[trigger] map@.tiles[i]
                == Tile::Wall implies borders_floor(map@, i) by {
            lemma_cross_ignores_tiles(g, map@, i);
            let p = choose|p: int|
                0 <= p < ring(g, i).len() && g.tiles[#[trigger] ring(g, i)[p] as int]
                    == Tile::Floor;
            lemma_ring_cells(g, i, p);
        }
        assert forall|i: int, p: int|
            0 <= i < map@.cells() && map@.tiles[i] == Tile::Floor && 0 <= p < ring(
                map@,
                i,
            ).len() implies map@.tiles[#[trigger] ring(map@, i)[p] as int] != Tile::Dirt by {
            lemma_cross_ignores_tiles(g, map@, i);
            lemma_ring_cells(g, i, p);
            if g.tiles[ring(g, i)[p] as int] == Tile::Dirt {
                lemma_floor_is_walled_in(g, i, p);
            }
        }
    }
    walls
}

/// The atlas coordinate of floor.
pub open spec fn floor_texture() -> Texture {
    Texture(Pos { x: 8, y: 8 })
}

/// The atlas coordinate of a door.
pub open spec fn door_texture() -> Texture {
    Texture(Pos { x: 6, y: 2 })
}

/// The atlas coordinate of an unused cell.
pub open spec fn dirt_texture() -> Texture {
    Texture(Pos { x: 9, y: 6 })
}

/// The eight tiles around cell `i`, clockwise from the top left corner.
pub open spec fn tiles_around(g: GridView, i: int) -> Seq<Option<Tile>> {
    Seq::new(8, |k: int| around_tile(g, i, k))
}

/// The atlas coordinate of cell `i`: fixed for floor, doors and unused
/// cells, and told by the walls beside it for a wall.
pub open spec fn texture_of(g: GridView, i: int) -> Texture {
    match g.tiles[i] {
        Tile::Wall => spec_wall_atlas_pos(tiles_around(g, i)),
        Tile::Floor => floor_texture(),
        Tile::Door => door_texture(),
        Tile::Dirt => dirt_texture(),
    }
}

/// The atlas coordinates of all cells.
pub open spec fn resolved(g: GridView) -> Seq<Texture> {
    Seq::new(g.tiles.len(), |i: int| texture_of(g, i))
}

/// Gives every cell its atlas coordinate. The tiles are only read.
pub fn resolve_textures(map: &mut Grid)
    requires
        old(map).wf(),
    ensures
        final(map).wf(),
        final(map)@ == old(map)@.with_textures(resolved(old(map)@)),
{
    let n: usize = map.len();
    let mut idx: usize = 0;
    while idx < n
        invariant
            idx <= n,
            n == old(map)@.cells(),
            map.wf(),
            old(map).wf(),
            map@.width == old(map)@.width,
            map@.height == old(map)@.height,
            map@.tiles == old(map)@.tiles,
            map@.textures.len() == old(map)@.textures.len(),
            forall|j: int| 0 <= j < idx ==> #[trigger] map@.textures[j] == texture_of(old(map)@, j),
        decreases n - idx,
    {
        let tile = map.tile(idx);
        let texture = match tile {
            Tile::Wall => {
                let surrounding = surrounding_places(map, idx);
                assert(looked_up(map@.tiles, surrounding@) =~= tiles_around(
                    old(map)@,
                    idx as int,
                ));
                get_wall_atlas_pos(map.tiles(), &surrounding)
            },
            Tile::Floor => Texture::from(Pos { x: 8, y: 8 }),
            Tile::Door => Texture::from(Pos { x: 6, y: 2 }),
            Tile::Dirt => Texture::from(Pos { x: 9, y: 6 }),
        };
        map.set_texture(idx, texture);
        idx = idx + 1;
    }
    assert(map@.textures =~= resolved(old(map)@));
}

} // verus!
