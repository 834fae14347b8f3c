//! Bounds descriptor of one dimension of an unconstrained simulator
//! array, as the simulator's foreign interface lays it out: left and
//! right bound, direction, and the element count the three imply.

use vstd::prelude::*;

verus! {

/// Direction value of an ascending range (`to`).
pub const DIR_ASCENDING: i32 = 0;

/// Direction value of a descending range (`downto`).
pub const DIR_DESCENDING: i32 = 1;

/// The number of elements a range with the given bounds and direction
/// spans; empty when the bounds run against the direction.
pub open spec fn range_len(left: int, right: int, dir: int) -> int {
    if dir == DIR_ASCENDING {
        if right >= left {
            right - left + 1
        } else {
            0
        }
    } else {
        if left >= right {
            left - right + 1
        } else {
            0
        }
    }
}

/// Range/bounds of a dimension of an unconstrained array with
/// dimensions of type `natural`.
pub struct GHDLRange {
    /// The left bound.
    pub left: i32,
    /// The right bound.
    pub right: i32,
    /// The direction: `DIR_ASCENDING` or `DIR_DESCENDING`.
    pub dir: i32,
    /// The element count; consistent with the bounds and direction in
    /// every range this library builds.
    pub len: i32,
}

impl GHDLRange {
    /// Whether the stored element count agrees with the bounds and the
    /// direction.
    pub open spec fn is_wf(self) -> bool {
        (self.dir == DIR_ASCENDING || self.dir == DIR_DESCENDING) && self.len == range_len(
            self.left as int,
            self.right as int,
            self.dir as int,
        )
    }

    /// Builds a well-formed range from its bounds and direction.
    pub fn new(left: i32, right: i32, dir: i32) -> (r: GHDLRange)
        requires
            dir == DIR_ASCENDING || dir == DIR_DESCENDING,
            range_len(left as int, right as int, dir as int) <= i32::MAX,
        ensures
            r.left == left,
            r.right == right,
            r.dir == dir,
            r.is_wf(),
    {
        let len: i32 = if dir == DIR_ASCENDING {
            if right >= left {
                right - left + 1
            } else {
                0
            }
        } else {
            if left >= right {
                left - right + 1
            } else {
                0
            }
        };
        GHDLRange { left, right, dir, len }
    }
}

} // verus!
