//! Simulation core of a turn-based dungeon crawler: procedural dungeon
//! generation with a density acceptance band, a tile grid with movement and
//! sight blocking, a visibility and exploration tracker, and deterministic
//! turn resolution (movement, melee combat, monster policy, pickups, and the
//! win condition).
//!
//! Rendering, input decoding, the field-of-view kernel and the external win
//! hook are capabilities of the surrounding program: the library exposes the
//! data they need and consumes the values they produce.

pub mod entity;
pub mod gen;
pub mod msg;
pub mod reach;
pub mod rect;
pub mod stage;
pub mod state;
pub mod tile;
pub mod turn;
