//! Tunable constants of the simulation core.

use vstd::prelude::*;

verus! {

/// Sub-cell position units per grid cell. Positions are stored in these
/// units so that the movement tween is exact integer arithmetic.
pub const CELL_SUBUNITS: i64 = 400_000;

/// Duration of one grid move, in microseconds. Kept equal to
/// `CELL_SUBUNITS` so that a transit advances exactly one sub-cell unit per
/// microsecond of frame time.
pub const MOVE_DURATION_MICROS: u32 = 400_000;

/// Number of animation frames a move cycles through; `MOVE_DURATION_MICROS`
/// divides evenly into them, for visually even stepping.
pub const MOVE_ANIMATION_FRAMES: u32 = 4;

/// Sprite-sheet columns that show a character at rest facing each direction.
pub const CHARACTER_DOWN_FACING_FRAME: u32 = 8;

pub const CHARACTER_UP_FACING_FRAME: u32 = 0;

pub const CHARACTER_RIGHT_FACING_FRAME: u32 = 4;

pub const CHARACTER_LEFT_FACING_FRAME: u32 = 12;

/// Bound on the magnitude of any position coordinate, in sub-cell units.
/// Generous enough for any map, small enough that every step of position
/// arithmetic stays far from `i64` overflow.
pub const MAX_COORD: i64 = 0x4000_0000_0000;

/// Lines of wrapped text shown per dialog page.
pub const DIALOG_LINES_PER_PAGE: usize = 3;

/// Lines per dialog page when a title bar takes up one line.
pub const DIALOG_LINES_PER_PAGE_WITH_TITLE: usize = 2;

/// Bound on a map extent, in cells. `MAX_CELL_COORD * CELL_SUBUNITS` stays
/// below `MAX_COORD`, so every in-map position satisfies the coordinate
/// bound.
pub const MAX_CELL_COORD: i64 = 0x800_0000;

} // verus!
