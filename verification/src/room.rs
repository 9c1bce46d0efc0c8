//! Rooms: axis-aligned rectangles of cells, and the overlap test between
//! them.

use vstd::prelude::*;
use crate::grid::Grid;
use crate::grid::GridView;
use crate::grid::Pos;

verus! {

/// Number of room shapes in the catalog.
pub const ROOM_SIZE_COUNT: usize = 2;

/// The `k`-th room shape of the catalog, as width and height.
pub open spec fn spec_room_size(k: int) -> Pos {
    if k == 0 {
        Pos { x: 5, y: 5 }
    } else {
        Pos { x: 5, y: 7 }
    }
}

/// The `k`-th room shape of the catalog, as width and height.
pub fn room_size(k: usize) -> (size: Pos)
    requires
        k < ROOM_SIZE_COUNT,
    ensures
        size == spec_room_size(k as int),
{
    if k == 0 {
        Pos { x: 5, y: 5 }
    } else {
        Pos { x: 5, y: 7 }
    }
}

/// A room: the position of its top left corner and its size.
#[derive(Clone, Copy, Debug, PartialEq, Eq, Structural)]
pub struct Room {
    pub pos: Pos,
    pub size: Pos,
}

/// Whether two rectangles overlap. Each is given by its top left corner,
/// width and height, and holds its left and top edge but not its right and
/// bottom edge, so that rectangles which only touch do not overlap.
pub open spec fn overlap(a: Pos, aw: int, ah: int, b: Pos, bw: int, bh: int) -> bool {
    &&& a.x < b.x + bw
    &&& a.x + aw > b.x
    &&& a.y < b.y + bh
    &&& a.y + ah > b.y
}

/// Whether the rectangles of two rooms overlap.
pub open spec fn rooms_overlap(a: Room, b: Room) -> bool {
    overlap(a.pos, a.size.x as int, a.size.y as int, b.pos, b.size.x as int, b.size.y as int)
}

/// Whether no two rooms of `rooms` overlap.
pub open spec fn pairwise_apart(rooms: Seq<Room>) -> bool {
    forall|i: int, j: int|
        0 <= i < j < rooms.len() ==> !rooms_overlap(#[trigger] rooms[i], #[trigger] rooms[j])
}

/// Whether `room` lies in the grid with room to spare: its corner is a
/// cell, its size is not negative, and its corner plus its size stays
/// strictly below the extent of the grid on both axes.
pub open spec fn room_fits(g: GridView, room: Room) -> bool {
    &&& 0 <= room.pos.x
    &&& 0 <= room.pos.y
    &&& 0 <= room.size.x
    &&& 0 <= room.size.y
    &&& room.pos.x + room.size.x < g.width
    &&& room.pos.y + room.size.y < g.height
}

/// Whether the cell at `(x, y)` belongs to the floor that `room` stamps on
/// the grid: as many columns and rows as its size says, from its corner
/// on. The column and the row at its corner plus its size lie outside.
pub open spec fn in_stamp(room: Room, x: int, y: int) -> bool {
    &&& room.pos.x <= x < room.pos.x + room.size.x
    &&& room.pos.y <= y < room.pos.y + room.size.y
}

/// Something with a position on the grid.
pub trait Position {
    spec fn spec_pos(&self) -> Pos;

    fn pos(&self) -> (p: Pos)
        ensures
            p == self.spec_pos(),
    ;
}

/// Something with a width and a height, in cells.
pub trait Size {
    spec fn spec_width(&self) -> i64;

    spec fn spec_height(&self) -> i64;

    fn width(&self) -> (w: i64)
        ensures
            w == self.spec_width(),
    ;

    fn height(&self) -> (h: i64)
        ensures
            h == self.spec_height(),
    ;
}

/// Something that covers a rectangle of the grid.
pub trait Rect {
    /// Whether the rectangle of `self` overlaps the rectangle with the
    /// given top left corner, width and height.
    spec fn covers(&self, corner: Pos, width: int, height: int) -> bool;

    fn intersects<T: Position + Size>(&self, other: &T) -> (b: bool)
        ensures
            b == self.covers(
                other.spec_pos(),
                other.spec_width() as int,
                other.spec_height() as int,
            ),
    ;
}

impl Room {
    /// The room with its top left corner at `pos` and of size `size`.
    pub fn new(pos: Pos, size: Pos) -> (room: Room)
        ensures
            room.pos == pos,
            room.size == size,
    {
        Room { pos, size }
    }

    /// Whether the room lies in `map` with room to spare.
    pub fn fits(&self, map: &Grid) -> (b: bool)
        requires
            map.wf(),
        ensures
            b == room_fits(map@, *self),
    {
        let w: i128 = map.width() as i128;
        let h: i128 = map.height() as i128;
        0 <= self.pos.x && 0 <= self.pos.y && 0 <= self.size.x && 0 <= self.size.y
            && self.pos.x as i128 + (self.size.x as i128) < w && self.pos.y as i128 + (
        self.size.y as i128) < h
    }
}

impl Position for Room {
    open spec fn spec_pos(&self) -> Pos {
        self.pos
    }

    fn pos(&self) -> (p: Pos) {
        self.pos
    }
}

impl Size for Room {
    open spec fn spec_width(&self) -> i64 {
        self.size.x
    }

    open spec fn spec_height(&self) -> i64 {
        self.size.y
    }

    fn width(&self) -> (w: i64) {
        self.size.x
    }

    fn height(&self) -> (h: i64) {
        self.size.y
    }
}

impl Rect for Room {
    open spec fn covers(&self, corner: Pos, width: int, height: int) -> bool {
        overlap(self.pos, self.size.x as int, self.size.y as int, corner, width, height)
    }

    fn intersects<T: Position + Size>(&self, other: &T) -> (b: bool) {
        let p = other.pos();
        let left: i128 = self.pos.x as i128;
        let right: i128 = self.pos.x as i128 + self.size.x as i128;
        let top: i128 = self.pos.y as i128;
        let bottom: i128 = self.pos.y as i128 + self.size.y as i128;
        let other_left: i128 = p.x as i128;
        let other_right: i128 = p.x as i128 + other.width() as i128;
        let other_top: i128 = p.y as i128;
        let other_bottom: i128 = p.y as i128 + other.height() as i128;
        left < other_right && right > other_left && top < other_bottom && bottom > other_top
    }
}

} // verus!
