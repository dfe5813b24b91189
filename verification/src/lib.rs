//! A small 2D collision sandbox on fixed-point coordinates.
//!
//! Entities live in a `hecs::World` and carry optional components: a
//! position, the position before the last move, a velocity and a collider.
//! An entity with a collider and no velocity is a wall; one with both may be
//! moved. Each tick the movement stage advances every movable entity, and the
//! collision stage, run several times, pushes overlapping boxes apart.
//!
//! Lengths are counted in steps, [`components::UNIT`] of them to one whole
//! unit, and time in ticks; a velocity is a number of steps per tick. All
//! arithmetic is on integers and exact, except that half of an odd overlap is
//! rounded down for one entity and up for the other.
//!
//! Every stage states what it does to the world as a function on the bodies
//! the world holds; [`laws`] collects what follows for all worlds.

pub mod collision;
pub mod components;
pub mod frame;
pub mod geometry;
pub mod input;
pub mod laws;
pub mod movement;
pub mod pointer;
pub mod resolve;
pub mod selection;
pub mod store;
pub mod sweep;

pub use crate::collision::collision;
pub use crate::frame::step;
pub use crate::movement::movement;
pub use crate::pointer::mouse_movement;
