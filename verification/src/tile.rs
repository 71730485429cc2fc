//! One cell of terrain.

use vstd::prelude::*;

verus! {

/// The terrain state of one map cell.
///
/// `blocked` forbids movement onto the cell, `block_sight` stops the line of
/// sight, and `explored` records that the cell has been in view at least once.
#[derive(Clone, Copy, Debug, PartialEq, Eq, Structural)]
pub struct Tile {
    pub blocked: bool,
    pub explored: bool,
    pub block_sight: bool,
}

impl Tile {
    /// What carving makes of a tile: open floor that remembers whether it was
    /// ever seen.
    pub open spec fn carved(self) -> Tile {
        Tile { blocked: false, explored: self.explored, block_sight: false }
    }

    /// What a look at the tile leaves behind: a tile in view counts as
    /// explored from then on, a tile out of view stays as it was.
    pub open spec fn seen(self, visible: bool) -> Tile {
        Tile { blocked: self.blocked, explored: self.explored || visible, block_sight: self.block_sight }
    }

    /// Unexplored floor, as a value of specifications.
    pub open spec fn empty_spec() -> Tile {
        Tile { blocked: false, explored: false, block_sight: false }
    }

    /// Unexplored wall, as a value of specifications.
    pub open spec fn wall_spec() -> Tile {
        Tile { blocked: true, explored: false, block_sight: true }
    }

    /// Unexplored floor.
    #[verifier::when_used_as_spec(empty_spec)]
    pub fn empty() -> (t: Tile)
        ensures
            t == Tile::empty_spec(),
    {
        Tile { blocked: false, explored: false, block_sight: false }
    }

    /// Unexplored wall.
    #[verifier::when_used_as_spec(wall_spec)]
    pub fn wall() -> (t: Tile)
        ensures
            t == Tile::wall_spec(),
    {
        Tile { blocked: true, explored: false, block_sight: true }
    }

    /// The pair `(transparent, walkable)` under which a field-of-view service
    /// has to know this tile.
    pub fn fov_properties(&self) -> (p: (bool, bool))
        ensures
            p == (!self.block_sight, !self.blocked),
    {
        (!self.block_sight, !self.blocked)
    }
}

} // verus!
