//! The simulation core of a tile-based dungeon crawler: a tile map carved out
//! of rectangular rooms and corridors, the entities that stand on it, their
//! collision rules, and the decisions of one turn of play.

pub mod color;
pub mod entity;
pub mod generator;
pub mod grid;
pub mod layout;
pub mod population;
mod random;
pub mod reach;
pub mod render;
pub mod room;
pub mod tile;
pub mod turn;
