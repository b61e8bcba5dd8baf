//! The map as the movement system sees it: grid extents and a collision
//! query. Loading an actual tile map and turning its collision layer into
//! this grid is the host's business.

use crate::constants::MAX_CELL_COORD;
use vstd::prelude::*;

verus! {

/// Grid extents (in cells) and the collision layer, row-major:
/// `blocked[y * width + x]` says whether cell `(x, y)` is impassable.
pub struct GameMap {
    pub width: i64,
    pub height: i64,
    pub blocked: Vec<bool>,
}

impl GameMap {
    pub open spec fn wf(self) -> bool {
        &&& 0 < self.width <= MAX_CELL_COORD
        &&& 0 < self.height <= MAX_CELL_COORD
        &&& self.blocked@.len() == self.width as int * (self.height as int)
    }

    /// Whether the collision layer flags cell `(x, y)` as impassable.
    pub open spec fn blocked_at(self, x: int, y: int) -> bool {
        self.blocked@[y * (self.width as int) + x]
    }

    pub fn from_grid(width: i64, height: i64, blocked: Vec<bool>) -> (m: GameMap)
        requires
            0 < width <= MAX_CELL_COORD,
            0 < height <= MAX_CELL_COORD,
            blocked@.len() == width as int * (height as int),
        ensures
            m.wf(),
            m.width == width,
            m.height == height,
            m.blocked == blocked,
    {
        GameMap { width, height, blocked }
    }

    /// Collision query for an in-bounds cell.
    pub fn is_blocked(&self, x: i64, y: i64) -> (b: bool)
        requires
            self.wf(),
            0 <= x < self.width,
            0 <= y < self.height,
        ensures
            b == self.blocked_at(x as int, y as int),
    {
        let n: usize = self.blocked.len();
        proof {
            let w = self.width as int;
            let h = self.height as int;
            let xi = x as int;
            let yi = y as int;
            assert((0 <= yi * w + xi) && (yi * w + xi < w * h) && (w * h <= MAX_CELL_COORD as int
                * (MAX_CELL_COORD as int))) by (nonlinear_arith)
                requires
                    0 <= xi,
                    xi < w,
                    0 <= yi,
                    yi < h,
                    w <= MAX_CELL_COORD as int,
                    h <= MAX_CELL_COORD as int,
            ;
            assert(yi * w + xi < n as int);
        }
        let idx: usize = (y * self.width + x) as usize;
        self.blocked[idx]
    }
}

} // verus!
