//! A verified world persistence and reconciliation engine for a 2D
//! tile-based game: deterministic default worlds, a binary world-record
//! codec, spawn-request planning, snapshot capture and autosave scheduling.

use vstd::prelude::*;

pub mod autosave;
pub mod bootstrap;
pub mod capture;
pub mod codec;
pub mod coords;
pub mod record;
pub mod spawn;

verus! {

/// Width and height of one tile in world pixels, already multiplied by the
/// global render scale (16-pixel tiles drawn at 2.5x).
pub const PIXELS_PER_TILE: i32 = 40;

} // verus!
