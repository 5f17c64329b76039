//! A collectible item placed in a room.

use vstd::prelude::*;

use crate::data::COORD_LIMIT;

verus! {

/// An item at a local room position, in milli-units, with the randomizer
/// pool it belongs to.
pub struct Item {
    pub x: i64,
    pub y: i64,
    pub rand_pool: String,
}

impl Item {
    /// Coordinates small enough for exact bounds arithmetic.
    pub open spec fn wf(self) -> bool {
        &&& -COORD_LIMIT <= self.x <= COORD_LIMIT
        &&& -COORD_LIMIT <= self.y <= COORD_LIMIT
    }
}

} // verus!
