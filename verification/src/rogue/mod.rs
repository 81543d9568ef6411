//! The roguelike: its map, components, rules and turn logic.

pub mod components;
pub mod map;
pub mod systems;
pub mod game;
pub mod path;
