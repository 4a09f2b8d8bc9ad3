//! A falling-block puzzle engine: a fixed 20x10 grid state machine that
//! spawns piece shapes, rotates and shifts them under player input with
//! delayed-auto-shift timing, advances them under level-scaled gravity,
//! locks them on collision, clears completed rows, and advances the
//! level and line counters. Every rule is stated in contracts over a
//! mathematical view of the grid and proved; rendering, windowing and
//! the clock live outside the crate.

pub mod board;
pub mod definition;
pub mod movement;
pub mod progression;
pub mod gravity;
pub mod clear;
pub mod rotation;
pub mod rng;
pub mod spawn;
pub mod game;
