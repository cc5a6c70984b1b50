//! The smallest unit of voxel state: a block carrying a material tag.

use vstd::prelude::*;

verus! {

/// Material of a single voxel. `Empty` is the sentinel for "no solid
/// voxel here": chunks, meshes and colliders all treat it as absence.
#[derive(Clone, Copy, Debug, PartialEq, Eq, Structural)]
pub enum BlockMaterial {
    Empty,
    Aluminum,
}

/// One voxel. An immutable value type, copied freely.
#[derive(Clone, Copy, Debug, PartialEq, Eq, Structural)]
pub struct Block {
    pub material: BlockMaterial,
}

impl Block {
    /// Whether this block is the "no voxel" sentinel.
    pub open spec fn is_empty(self) -> bool {
        self.material == BlockMaterial::Empty
    }

    /// The all-empty block, used to fill fresh chunks and to erase.
    pub fn empty() -> (r: Block)
        ensures
            r.is_empty(),
    {
        Block { material: BlockMaterial::Empty }
    }
}

} // verus!
