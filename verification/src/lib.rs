//! Procedural generation of tile-based dungeon layouts.
//!
//! A run fills a [`grid::Grid`] in six steps: rooms are placed without
//! overlap ([`rooms`]), a bounded corridor is walked from every cell that
//! keeps clear of the rooms ([`corridors`]), each edge of each room gets a
//! door where a corridor or another room lies behind it ([`doors`]),
//! corridors that reach no door are reverted, walls are derived around the
//! floor and every cell gets its atlas coordinate ([`walls`]). [`level`]
//! runs the steps in order and returns the recorded events. [`reach`]
//! shows which of the cells one can walk on are then joined to a room.
//!
//! All randomness enters through [`draws::Draws`], a stream of numbers that
//! is either scripted or drawn up front, so that a run is a function of the
//! shape of the grid and of the draws it reads.

pub mod corridors;
pub mod doors;
pub mod draws;
pub mod grid;
pub mod level;
pub mod level_utils;
pub mod reach;
pub mod room;
pub mod rooms;
pub mod spawner;
pub mod tile;
pub mod timeline;
pub mod walls;
