//! The tile grid: a flat buffer of cells with the conversions between
//! cell coordinates and linear indices.

use vstd::prelude::*;
use vstd::arithmetic::div_mod::lemma_div_pos_is_pos;
use vstd::arithmetic::div_mod::lemma_fundamental_div_mod;
use vstd::arithmetic::div_mod::lemma_fundamental_div_mod_converse;
use vstd::arithmetic::div_mod::lemma_mod_pos_bound;
use vstd::arithmetic::mul::lemma_mul_inequality;
use vstd::arithmetic::mul::lemma_mul_is_commutative;
use crate::tile::Tile;

verus! {

/// Default grid width, in cells.
pub const GAME_WIDTH: usize = 64;

/// Default grid height, in cells.
pub const GAME_HEIGHT: usize = 64;

/// The largest number of cells a grid may hold. Every index and every
/// coordinate of such a grid fits each integer type the generator uses.
pub const MAX_CELLS: usize = 0x7fff_ffff;

/// A cell coordinate, or an offset between two of them. `x` grows to the
/// right, `y` grows downwards.
#[derive(Clone, Copy, Debug, PartialEq, Eq, Structural)]
pub struct Pos {
    pub x: i64,
    pub y: i64,
}

/// The coordinate of one picture in the texture atlas.
#[derive(Clone, Copy, Debug, PartialEq, Eq, Structural)]
pub struct Texture(pub Pos);

impl From<Pos> for Texture {
    fn from(pos: Pos) -> (texture: Texture) {
        Texture(pos)
    }
}

impl vstd::std_specs::convert::FromSpecImpl<Pos> for Texture {
    open spec fn obeys_from_spec() -> bool {
        true
    }

    open spec fn from_spec(pos: Pos) -> Texture {
        Texture(pos)
    }
}

/// Why a generation step gave up.
#[derive(Clone, Copy, Debug, PartialEq, Eq, Structural)]
pub enum DungeonError {
    /// No free spot was found for a room within the attempt budget.
    PlacementExhausted,
    /// A coordinate or an index does not denote a cell of the grid.
    InvalidCoordinate,
}

/// The atlas coordinate every cell starts with, before textures are resolved.
pub open spec fn spec_blank_texture() -> Texture {
    Texture(Pos { x: 7, y: 0 })
}

/// The atlas coordinate every cell starts with, before textures are resolved.
#[verifier::when_used_as_spec(spec_blank_texture)]
pub fn blank_texture() -> (t: Texture)
    ensures
        t == spec_blank_texture(),
{
    Texture(Pos { x: 7, y: 0 })
}

/// The mathematical content of a [`Grid`].
pub struct GridView {
    pub width: int,
    pub height: int,
    pub tiles: Seq<Tile>,
    pub textures: Seq<Texture>,
}

impl GridView {
    /// Both dimensions are positive, every cell has one tile and one
    /// texture, and the cell count is within [`MAX_CELLS`].
    pub open spec fn wf(self) -> bool {
        &&& 0 < self.width
        &&& 0 < self.height
        &&& self.tiles.len() == self.width * self.height
        &&& self.textures.len() == self.tiles.len()
        &&& self.tiles.len() <= MAX_CELLS
    }

    /// Number of cells.
    pub open spec fn cells(self) -> int {
        self.tiles.len() as int
    }

    /// Whether `(x, y)` is the coordinate of a cell.
    pub open spec fn holds(self, x: int, y: int) -> bool {
        0 <= x < self.width && 0 <= y < self.height
    }

    /// Linear index of the cell at `(x, y)`.
    pub open spec fn index(self, x: int, y: int) -> int {
        y * self.width + x
    }

    /// Column of the cell with index `i`.
    pub open spec fn col(self, i: int) -> int {
        i % self.width
    }

    /// Row of the cell with index `i`.
    pub open spec fn row(self, i: int) -> int {
        i / self.width
    }

    /// The tile at `(x, y)`, if that is a cell.
    pub open spec fn tile_at(self, x: int, y: int) -> Option<Tile> {
        if self.holds(x, y) {
            Some(self.tiles[self.index(x, y)])
        } else {
            None
        }
    }

    /// Index of the cell `dx` columns and `dy` rows away from the cell with
    /// index `i`, if there is such a cell.
    pub open spec fn shifted(self, i: int, dx: int, dy: int) -> Option<usize> {
        if self.holds(self.col(i) + dx, self.row(i) + dy) {
            Some(self.index(self.col(i) + dx, self.row(i) + dy) as usize)
        } else {
            None
        }
    }

    /// The same grid with other tiles.
    pub open spec fn with_tiles(self, tiles: Seq<Tile>) -> GridView {
        GridView { tiles, ..self }
    }

    /// The same grid with other textures.
    pub open spec fn with_textures(self, textures: Seq<Texture>) -> GridView {
        GridView { textures, ..self }
    }
}

/// The grid of `width` by `height` cells in which every tile is
/// [`Tile::Dirt`] and every texture is blank.
pub open spec fn blank_view(width: int, height: int) -> GridView {
    GridView {
        width,
        height,
        tiles: Seq::new((width * height) as nat, |i: int| Tile::Dirt),
        textures: Seq::new((width * height) as nat, |i: int| spec_blank_texture()),
    }
}

/// Neither dimension exceeds the cell count.
pub proof fn lemma_dims_bounded(g: GridView)
    requires
        g.wf(),
    ensures
        g.width <= g.cells() <= MAX_CELLS,
        g.height <= g.cells(),
{
    let w = g.width;
    let h = g.height;
    assert(w <= w * h && h <= w * h) by (nonlinear_arith)
        requires
            0 < w,
            0 < h,
    ;
}

/// A coordinate inside the grid has an index inside the buffer, and the
/// index leads back to the coordinate.
pub proof fn lemma_index_of_cell(g: GridView, x: int, y: int)
    requires
        g.wf(),
        g.holds(x, y),
    ensures
        0 <= g.index(x, y) < g.cells(),
        g.col(g.index(x, y)) == x,
        g.row(g.index(x, y)) == y,
{
    let w = g.width;
    let h = g.height;
    assert(y * w + w <= h * w) by (nonlinear_arith)
        requires
            0 <= y < h,
            0 < w,
    ;
    lemma_mul_is_commutative(h, w);
    lemma_fundamental_div_mod_converse(y * w + x, w, y, x);
}

/// An index inside the buffer has a coordinate inside the grid, and the
/// coordinate leads back to the index.
pub proof fn lemma_cell_of_index(g: GridView, i: int)
    requires
        g.wf(),
        0 <= i < g.cells(),
    ensures
        g.holds(g.col(i), g.row(i)),
        g.index(g.col(i), g.row(i)) == i,
{
    let w = g.width;
    let h = g.height;
    lemma_fundamental_div_mod(i, w);
    lemma_mod_pos_bound(i, w);
    lemma_div_pos_is_pos(i, w);
    lemma_mul_is_commutative(w, i / w);
    if i / w >= h {
        lemma_mul_inequality(h, i / w, w);
        lemma_mul_is_commutative(h, w);
    }
}

/// Two cells with the same coordinate are the same cell.
pub proof fn lemma_same_cell(g: GridView, i: int, j: int)
    requires
        g.wf(),
        0 <= i < g.cells(),
        0 <= j < g.cells(),
        g.col(i) == g.col(j),
        g.row(i) == g.row(j),
    ensures
        i == j,
{
    lemma_cell_of_index(g, i);
    lemma_cell_of_index(g, j);
}

/// What [`GridView::shifted`] returns is the index of a cell, and the tile
/// at the shifted position is the tile under that index.
pub proof fn lemma_shifted(g: GridView, i: int, dx: int, dy: int)
    requires
        g.wf(),
    ensures
        match g.shifted(i, dx, dy) {
            Some(j) => j == g.index(g.col(i) + dx, g.row(i) + dy) && j < g.cells() && g.col(
                j as int,
            ) == g.col(i) + dx && g.row(j as int) == g.row(i) + dy && g.tile_at(
                g.col(i) + dx,
                g.row(i) + dy,
            ) == Some(g.tiles[j as int]),
            None => g.tile_at(g.col(i) + dx, g.row(i) + dy) is None,
        },
{
    if g.holds(g.col(i) + dx, g.row(i) + dy) {
        lemma_index_of_cell(g, g.col(i) + dx, g.row(i) + dy);
    }
}

/// A fixed-size grid of tiles with one atlas coordinate per tile.
#[derive(Clone, Debug)]
pub struct Grid {
    width: usize,
    height: usize,
    tiles: Vec<Tile>,
    textures: Vec<Texture>,
}

impl View for Grid {
    type V = GridView;

    closed spec fn view(&self) -> GridView {
        GridView {
            width: self.width as int,
            height: self.height as int,
            tiles: self.tiles@,
            textures: self.textures@,
        }
    }
}

impl Grid {
    /// The invariant every grid handed out by this module satisfies.
    pub open spec fn wf(&self) -> bool {
        self@.wf()
    }

    /// A grid of `width` by `height` cells, every tile [`Tile::Dirt`] and
    /// every texture blank. Dimensions that are zero or hold more than
    /// [`MAX_CELLS`] cells are refused.
    pub fn new(width: usize, height: usize) -> (r: Result<Grid, DungeonError>)
        ensures
            r is Ok <==> 0 < width && 0 < height && width * height <= MAX_CELLS,
            r matches Ok(g) ==> g.wf() && g@ == blank_view(width as int, height as int),
            r matches Err(e) ==> e == DungeonError::InvalidCoordinate,
    {
        if width == 0 || height == 0 || width > MAX_CELLS || height > MAX_CELLS {
            proof {
                if 0 < width && 0 < height {
                    assert(width * height > MAX_CELLS) by (nonlinear_arith)
                        requires
                            0 < width,
                            0 < height,
                            width > MAX_CELLS || height > MAX_CELLS,
                    ;
                }
            }
            return Err(DungeonError::InvalidCoordinate);
        }
        assert(width * height <= MAX_CELLS * MAX_CELLS) by (nonlinear_arith)
            requires
                0 < width <= MAX_CELLS,
                0 < height <= MAX_CELLS,
        ;
        let cells: u64 = (width as u64) * (height as u64);
        if cells > MAX_CELLS as u64 {
            return Err(DungeonError::InvalidCoordinate);
        }
        let count: usize = cells as usize;
        let mut tiles: Vec<Tile> = Vec::new();
        let mut textures: Vec<Texture> = Vec::new();
        let mut i: usize = 0;
        while i < count
            invariant
                i <= count,
                tiles@ == Seq::new(i as nat, |k: int| Tile::Dirt),
                textures@ == Seq::new(i as nat, |k: int| spec_blank_texture()),
            decreases count - i,
        {
            tiles.push(Tile::Dirt);
            textures.push(blank_texture());
            i = i + 1;
        }
        let grid = Grid { width, height, tiles, textures };
        Ok(grid)
    }

    /// Number of columns.
    pub fn width(&self) -> (w: usize)
        ensures
            w == self@.width,
    {
        self.width
    }

    /// Number of rows.
    pub fn height(&self) -> (h: usize)
        ensures
            h == self@.height,
    {
        self.height
    }

    /// Number of cells.
    pub fn len(&self) -> (n: usize)
        ensures
            n == self@.cells(),
    {
        self.tiles.len()
    }

    /// The tiles, by linear index.
    pub fn tiles(&self) -> (t: &Vec<Tile>)
        ensures
            t@ == self@.tiles,
    {
        &self.tiles
    }

    /// The atlas coordinates, by linear index.
    pub fn textures(&self) -> (t: &Vec<Texture>)
        ensures
            t@ == self@.textures,
    {
        &self.textures
    }

    /// The tile of the cell with index `i`.
    pub fn tile(&self, i: usize) -> (t: Tile)
        requires
            i < self@.cells(),
        ensures
            t == self@.tiles[i as int],
    {
        self.tiles[i]
    }

    /// Replaces the tile of the cell with index `i`.
    pub fn set_tile(&mut self, i: usize, tile: Tile)
        requires
            i < old(self)@.cells(),
        ensures
            final(self)@ == old(self)@.with_tiles(old(self)@.tiles.update(i as int, tile)),
    {
        self.tiles[i] = tile;
    }

    /// Replaces the atlas coordinate of the cell with index `i`.
    pub fn set_texture(&mut self, i: usize, texture: Texture)
        requires
            i < old(self)@.textures.len(),
        ensures
            final(self)@ == old(self)@.with_textures(
                old(self)@.textures.update(i as int, texture),
            ),
    {
        self.textures[i] = texture;
    }

    /// Sets every tile to [`Tile::Dirt`] and every texture to the blank
    /// one.
    pub fn reset(&mut self)
        requires
            old(self).wf(),
        ensures
            final(self).wf(),
            final(self)@ == blank_view(old(self)@.width, old(self)@.height),
    {
        let n: usize = self.tiles.len();
        let mut i: usize = 0;
        while i < n
            invariant
                i <= n,
                n == self.tiles.len(),
                n == self.textures.len(),
                self.width == old(self).width,
                self.height == old(self).height,
                n == old(self).tiles.len(),
                forall|k: int| 0 <= k < i ==> self.tiles@[k] == Tile::Dirt,
                forall|k: int| 0 <= k < i ==> self.textures@[k] == spec_blank_texture(),
            decreases n - i,
        {
            self.tiles[i] = Tile::Dirt;
            self.textures[i] = blank_texture();
            i = i + 1;
        }
        assert(self@.tiles =~= blank_view(old(self)@.width, old(self)@.height).tiles);
        assert(self@.textures =~= blank_view(old(self)@.width, old(self)@.height).textures);
    }

    /// Linear index of the cell at `pos`: `pos.y * width + pos.x`.
    /// A position outside the grid is refused.
    pub fn idx(&self, pos: Pos) -> (r: Result<usize, DungeonError>)
        requires
            self.wf(),
        ensures
            r is Ok <==> self@.holds(pos.x as int, pos.y as int),
            r matches Ok(i) ==> i == self@.index(pos.x as int, pos.y as int) && i < self@.cells(),
            r matches Err(e) ==> e == DungeonError::InvalidCoordinate,
    {
        proof {
            lemma_dims_bounded(self@);
        }
        if pos.x < 0 || pos.y < 0 || pos.x >= self.width as i64 || pos.y >= self.height as i64 {
            return Err(DungeonError::InvalidCoordinate);
        }
        self.idx_xy(pos.x as usize, pos.y as usize)
    }

    /// Linear index of the cell in column `x` and row `y`: `y * width + x`.
    /// A position outside the grid is refused.
    pub fn idx_xy(&self, x: usize, y: usize) -> (r: Result<usize, DungeonError>)
        requires
            self.wf(),
        ensures
            r is Ok <==> self@.holds(x as int, y as int),
            r matches Ok(i) ==> i == self@.index(x as int, y as int) && i < self@.cells(),
            r matches Err(e) ==> e == DungeonError::InvalidCoordinate,
    {
        if x >= self.width || y >= self.height {
            return Err(DungeonError::InvalidCoordinate);
        }
        proof {
            lemma_index_of_cell(self@, x as int, y as int);
        }
        Ok(y * self.width + x)
    }

    /// Coordinate of the cell with index `idx`: column `idx % width`, row
    /// `idx / width`. An index outside the buffer is refused.
    pub fn idx_to_vec2(&self, idx: usize) -> (r: Result<Pos, DungeonError>)
        requires
            self.wf(),
        ensures
            r is Ok <==> idx < self@.cells(),
            r matches Ok(p) ==> p.x == self@.col(idx as int) && p.y == self@.row(idx as int)
                && self@.holds(p.x as int, p.y as int),
            r matches Err(e) ==> e == DungeonError::InvalidCoordinate,
    {
        if idx >= self.tiles.len() {
            return Err(DungeonError::InvalidCoordinate);
        }
        proof {
            lemma_cell_of_index(self@, idx as int);
        }
        Ok(Pos { x: (idx % self.width) as i64, y: (idx / self.width) as i64 })
    }

    /// Index of the cell `dx` columns and `dy` rows away from the cell with
    /// index `idx`, or `None` where that position is outside the grid.
    pub fn neighbour(&self, idx: usize, dx: i64, dy: i64) -> (r: Option<usize>)
        requires
            self.wf(),
            idx < self@.cells(),
        ensures
            r == self@.shifted(idx as int, dx as int, dy as int),
            r matches Some(j) ==> j < self@.cells(),
    {
        proof {
            lemma_cell_of_index(self@, idx as int);
            lemma_dims_bounded(self@);
            lemma_shifted(self@, idx as int, dx as int, dy as int);
        }
        let x: i128 = (idx % self.width) as i128 + dx as i128;
        let y: i128 = (idx / self.width) as i128 + dy as i128;
        if x < 0 || y < 0 || x >= self.width as i128 || y >= self.height as i128 {
            return None;
        }
        match self.idx(Pos { x: x as i64, y: y as i64 }) {
            Ok(j) => Some(j),
            Err(_) => None,
        }
    }

    /// The tile at `pos`, or `None` where `pos` is outside the grid.
    pub fn tile_at_pos(&self, pos: Pos) -> (t: Option<Tile>)
        requires
            self.wf(),
        ensures
            t == self@.tile_at(pos.x as int, pos.y as int),
    {
        match self.idx(pos) {
            Ok(i) => Some(self.tiles[i]),
            Err(_) => None,
        }
    }
}

} // verus!
