//! Tile kinds and the predicates the generator asks of them.

use vstd::prelude::*;

verus! {

/// The kind of one grid cell.
#[derive(Clone, Copy, Debug, PartialEq, Eq, Structural)]
pub enum Tile {
    /// Solid cell that bounds floor.
    Wall,
    /// Walkable cell inside a room or a corridor.
    Floor,
    /// Unused background.
    Dirt,
    /// Passable connector between a room and what lies outside it.
    Door,
}

/// Whether `tile` is walkable floor.
pub open spec fn spec_is_floor(tile: &Tile) -> bool {
    *tile == Tile::Floor
}

/// Whether `tile` counts as part of a room: floor or wall.
pub open spec fn spec_is_room(tile: &Tile) -> bool {
    *tile == Tile::Floor || *tile == Tile::Wall
}

/// Whether `tile` is walkable floor.
#[verifier::when_used_as_spec(spec_is_floor)]
pub fn is_floor(tile: &Tile) -> (b: bool)
    ensures
        b == spec_is_floor(tile),
{
    match tile {
        Tile::Floor => true,
        _ => false,
    }
}

/// Whether `tile` counts as part of a room: floor or wall.
#[verifier::when_used_as_spec(spec_is_room)]
pub fn is_room(tile: &Tile) -> (b: bool)
    ensures
        b == spec_is_room(tile),
{
    match tile {
        Tile::Floor | Tile::Wall => true,
        _ => false,
    }
}

} // verus!
