//! A small tick-driven 2D simulation core.
//!
//! The crate owns a list of polygonal entities, moves them with a per-entity
//! motion state machine, lands the player on static surfaces and applies the
//! keys that are held down to the player. Every coordinate is a fixed-point
//! integer and every duration a whole number of microseconds, so that each
//! operation is exact and its result can be stated as an equation.
pub mod controls;
pub mod entity;
pub mod game;
pub mod globals;
pub mod physics;
pub mod render;

pub use game::Game;
