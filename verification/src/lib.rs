//! Movement and collision core of a 2D tile-based platformer.
//!
//! The library advances entity positions against a tile-collision grid with a
//! fixed-timestep, sub-stepped, axis-separated solver, applies gravity and
//! friction, and keeps short-lived per-entity tags ("markers") that gate
//! behaviours such as jump eligibility.
//!
//! All sub-cell quantities are held in fixed-point units: [`FRAC_ONE`] units
//! make one grid cell, so a fraction, a velocity or a friction coefficient is
//! a plain integer and every step of the solver is exact arithmetic.

use vstd::prelude::*;

pub mod grid;
pub mod markers;
pub mod movement;
pub mod objects;
pub mod player;

verus! {

/// Number of fixed-point units in one grid cell.
pub const FRAC_ONE: i64 = 10_000;

/// A velocity component whose magnitude falls below this after friction
/// snaps to exactly zero (0.0005 of a cell per step).
pub const SNAP_EPSILON: i64 = 5;

/// Default friction coefficient, in units per [`FRAC_ONE`] (0.85).
pub const DEFAULT_FRICTION: i64 = 8_500;

/// Lower collision threshold: the entity keeps a margin of 0.2 cell.
pub const LOW_CLAMP: i64 = 2_000;

/// Upper collision threshold: 0.8 cell, one margin short of the next cell.
pub const HIGH_CLAMP: i64 = 8_000;

/// Time-to-live of the on-ground marker, in milliseconds.
pub const ON_GROUND_MS: u64 = 50;

/// Time-to-live of the sprung marker on a spring, in milliseconds.
pub const SPRUNG_MS: u64 = 1_000;

/// Pixels per grid cell on the rendered map.
pub const GRID_SIZE: i64 = 18;

/// Largest velocity component magnitude the solver admits, in units
/// (200 cells per step — far beyond any speed the game reaches).
pub const VEL_LIMIT: i64 = 2_000_000;

/// Largest level-origin coordinate magnitude the solver admits, in cells.
pub const CELL_LIMIT: i64 = 1_000_000_000;

/// How far beyond `CELL_LIMIT` an entity's cell may roam: the widest level
/// plus the largest drift one step can add.
pub const CELL_SLACK: i64 = 70_000;

} // verus!
