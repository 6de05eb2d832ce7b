//! Verified core rules of a small tower-defense game: the grid and the
//! breadth-first flow field that enemies follow towards the base, and the
//! decision logic that the game's systems run every frame.
pub mod grid;
pub mod flow_field;
pub mod relics;
pub mod scenes;
pub mod selection;
pub mod wave;
pub mod base;
pub mod button;
pub mod lifetime;
pub mod projectile;
pub mod targeting;
pub mod map_validity;
pub mod shop;
