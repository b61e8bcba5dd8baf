//! The component types that can be attached to an entity, and the direction
//! helper they share. Capability is determined purely by which components are
//! present; there is no inheritance.

use crate::constants::CELL_SUBUNITS;
use crate::constants::CHARACTER_DOWN_FACING_FRAME;
use crate::constants::CHARACTER_LEFT_FACING_FRAME;
use crate::constants::CHARACTER_RIGHT_FACING_FRAME;
use crate::constants::CHARACTER_UP_FACING_FRAME;
use crate::constants::MAX_COORD;
use vstd::prelude::*;

verus! {

/// One of the four grid-aligned movement directions.
#[derive(Clone, Copy, PartialEq, Eq, Structural, Debug)]
pub enum Direction {
    Up,
    Left,
    Down,
    Right,
}

impl Direction {
    /// Horizontal unit delta of this direction, in cells.
    pub open spec fn delta_x_spec(self) -> int {
        match self {
            Direction::Left => -1,
            Direction::Right => 1,
            Direction::Up => 0,
            Direction::Down => 0,
        }
    }

    /// Vertical unit delta of this direction, in cells; the y axis grows
    /// downward.
    pub open spec fn delta_y_spec(self) -> int {
        match self {
            Direction::Left => 0,
            Direction::Right => 0,
            Direction::Up => -1,
            Direction::Down => 1,
        }
    }

    /// Sprite-sheet column that shows a character at rest facing this
    /// direction.
    pub open spec fn facing_frame_spec(self) -> u32 {
        match self {
            Direction::Left => CHARACTER_LEFT_FACING_FRAME,
            Direction::Right => CHARACTER_RIGHT_FACING_FRAME,
            Direction::Up => CHARACTER_UP_FACING_FRAME,
            Direction::Down => CHARACTER_DOWN_FACING_FRAME,
        }
    }

    pub fn get_delta_x(&self) -> (d: i64)
        ensures
            d == self.delta_x_spec(),
    {
        match self {
            Direction::Left => -1,
            Direction::Right => 1,
            Direction::Up => 0,
            Direction::Down => 0,
        }
    }

    pub fn get_delta_y(&self) -> (d: i64)
        ensures
            d == self.delta_y_spec(),
    {
        match self {
            Direction::Left => 0,
            Direction::Right => 0,
            Direction::Up => -1,
            Direction::Down => 1,
        }
    }

    pub fn get_character_facing_frame(&self) -> (f: u32)
        ensures
            f == self.facing_frame_spec(),
    {
        match self {
            Direction::Left => CHARACTER_LEFT_FACING_FRAME,
            Direction::Right => CHARACTER_RIGHT_FACING_FRAME,
            Direction::Up => CHARACTER_UP_FACING_FRAME,
            Direction::Down => CHARACTER_DOWN_FACING_FRAME,
        }
    }
}

/// Marker component for the player entity.
#[derive(Clone, Copy, PartialEq, Eq, Structural, Debug)]
pub struct Player;

/// Wrapper around the player's entity id, so the id does not float around as
/// a bare integer.
#[derive(Clone, Copy, PartialEq, Eq, Structural, Debug)]
pub struct PlayerEntity {
    pub entity: usize,
}

/// Authoritative position of an entity, in sub-cell units
/// (`CELL_SUBUNITS` per grid cell). While an entity is not mid-transit both
/// coordinates are whole multiples of `CELL_SUBUNITS`; they take intermediate
/// values only transiently during the movement animation.
#[derive(Clone, Copy, PartialEq, Eq, Structural, Debug)]
pub struct GridPosition {
    pub x: i64,
    pub y: i64,
}

impl GridPosition {
    /// Both coordinates are within the global coordinate bound.
    pub open spec fn wf(self) -> bool {
        &&& -MAX_COORD <= self.x <= MAX_COORD
        &&& -MAX_COORD <= self.y <= MAX_COORD
    }

    /// The position lies exactly on a grid cell.
    pub open spec fn is_integral(self) -> bool {
        &&& self.x as int % (CELL_SUBUNITS as int) == 0
        &&& self.y as int % (CELL_SUBUNITS as int) == 0
    }

    /// The sub-cell position of the grid cell `(cx, cy)`.
    pub open spec fn from_cell_spec(cx: int, cy: int) -> GridPosition {
        GridPosition { x: (cx * CELL_SUBUNITS) as i64, y: (cy * CELL_SUBUNITS) as i64 }
    }

    pub fn from_cell(cx: i64, cy: i64) -> (p: GridPosition)
        requires
            -(MAX_COORD as int / (CELL_SUBUNITS as int)) <= cx as int <= MAX_COORD as int / (
            CELL_SUBUNITS as int),
            -(MAX_COORD as int / (CELL_SUBUNITS as int)) <= cy as int <= MAX_COORD as int / (
            CELL_SUBUNITS as int),
        ensures
            p == Self::from_cell_spec(cx as int, cy as int),
            p.wf(),
            p.is_integral(),
    {
        proof {
            assert(-MAX_COORD <= cx as int * (CELL_SUBUNITS as int) <= MAX_COORD && cx as int * (
            CELL_SUBUNITS as int) % (CELL_SUBUNITS as int) == 0 && -MAX_COORD <= cy as int * (
            CELL_SUBUNITS as int) <= MAX_COORD && cy as int * (CELL_SUBUNITS as int) % (
            CELL_SUBUNITS as int) == 0) by (nonlinear_arith)
                requires
                    -(MAX_COORD as int / (CELL_SUBUNITS as int)) <= cx as int,
                    cx as int <= MAX_COORD as int / (CELL_SUBUNITS as int),
                    -(MAX_COORD as int / (CELL_SUBUNITS as int)) <= cy as int,
                    cy as int <= MAX_COORD as int / (CELL_SUBUNITS as int),
            ;
        }
        GridPosition { x: cx * CELL_SUBUNITS, y: cy * CELL_SUBUNITS }
    }
}

/// Last attempted or actual movement direction of an entity; also drives
/// sprite selection.
#[derive(Clone, Copy, PartialEq, Eq, Structural, Debug)]
pub struct FacingDirection {
    pub direction: Direction,
}

/// What the renderer needs to draw an entity: which sprite-sheet row the
/// entity uses and which column (animation frame) is current.
#[derive(Clone, Copy, PartialEq, Eq, Structural, Debug)]
pub struct SpriteDrawable {
    pub row: u32,
    pub current_frame: u32,
}

/// Marker: while an entity carrying this occupies a cell, no other entity may
/// enter that cell.
#[derive(Clone, Copy, PartialEq, Eq, Structural, Debug)]
pub struct BlocksMovement;

/// Marks an entity as governed by the stroll planner: it pauses for up to
/// `max_pause_micros` microseconds, then moves one step in a random
/// direction, and repeats.
#[derive(Clone, Copy, PartialEq, Eq, Structural, Debug)]
pub struct Strolling {
    pub max_pause_micros: u32,
}

/// Marker present only on an entity (conventionally the player) that is ready
/// to accept a new move or use command. Absent while the entity is
/// mid-transit.
#[derive(Clone, Copy, PartialEq, Eq, Structural, Debug)]
pub struct AwaitingInputState;

/// State of a strolling entity between moves; absent while it is mid-transit.
#[derive(Clone, Copy, PartialEq, Eq, Structural, Debug)]
pub struct WaitingState {
    pub remaining_wait_micros: u32,
}

/// Present only while an entity is animating a move: the remaining sub-cell
/// distance to travel on each axis, counting down from one full cell to zero.
/// Exactly one axis is ever non-zero, the one `direction` points along.
#[derive(Clone, Copy, PartialEq, Eq, Structural, Debug)]
pub struct EntityMovingState {
    pub delta_x: i64,
    pub delta_y: i64,
    pub direction: Direction,
}

impl EntityMovingState {
    /// The remaining delta points along `direction`, has magnitude in
    /// `(0, CELL_SUBUNITS]` on that axis, and is zero on the other axis.
    pub open spec fn wf(self) -> bool {
        &&& self.delta_x == self.direction.delta_x_spec() * self.remaining()
        &&& self.delta_y == self.direction.delta_y_spec() * self.remaining()
        &&& 0 < self.remaining() <= CELL_SUBUNITS
    }

    /// Remaining distance to travel, in sub-cell units.
    pub open spec fn remaining(self) -> int {
        if self.delta_x != 0 {
            if self.delta_x < 0 {
                -self.delta_x as int
            } else {
                self.delta_x as int
            }
        } else {
            if self.delta_y < 0 {
                -self.delta_y as int
            } else {
                self.delta_y as int
            }
        }
    }
}

} // verus!
