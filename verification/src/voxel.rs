//! Voxels: single typed cells of the chunk grid.

use vstd::prelude::*;

verus! {

/// The material of a voxel. `Air` is the sole empty, transparent kind.
#[derive(Clone, Copy, Debug, PartialEq, Eq, Structural)]
pub enum BlockType {
    Air,
    Dirt,
    Stone,
}

/// A single typed cell of the voxel grid.
#[derive(Clone, Copy, Debug, PartialEq, Eq, Structural)]
pub struct Voxel {
    pub blocktype: BlockType,
}

impl Voxel {
    /// Holds exactly when the voxel is `Air`.
    pub open spec fn spec_is_air(self) -> bool {
        self.blocktype == BlockType::Air
    }

    /// Holds when neighbouring faces show through this voxel; in this model
    /// that is exactly when the voxel is `Air`.
    pub open spec fn spec_is_transparent(self) -> bool {
        self.spec_is_air()
    }

    pub fn new(blocktype: BlockType) -> (v: Voxel)
        ensures
            v == (Voxel { blocktype }),
    {
        Voxel { blocktype }
    }

    pub fn is_air(&self) -> (r: bool)
        ensures
            r == self.spec_is_air(),
    {
        match self.blocktype {
            BlockType::Air => true,
            _ => false,
        }
    }

    pub fn is_transparent(&self) -> (r: bool)
        ensures
            r == self.spec_is_transparent(),
    {
        match self.blocktype {
            BlockType::Air => true,
            _ => false,
        }
    }
}

/// Transparency coincides with being air: on every voxel the two queries
/// agree, and both hold exactly when the block type is `Air`.
pub proof fn lemma_transparent_iff_air(v: Voxel)
    ensures
        v.spec_is_transparent() <==> v.spec_is_air(),
        v.spec_is_air() <==> v.blocktype == BlockType::Air,
{
}

} // verus!
