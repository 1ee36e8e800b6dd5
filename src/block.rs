//! What a block of the world is made of.
use vstd::prelude::*;

verus! {

/// Material of a solid block.
#[derive(Clone, Copy, Debug, PartialEq, Eq, Structural)]
pub enum SolidMaterial {
    Dirt,
    Grass,
}

/// Classification of one block.
#[derive(Clone, Copy, Debug, PartialEq, Eq, Structural)]
pub enum BlockType {
    Solid(SolidMaterial),
    Liquid,
    Empty,
}

impl BlockType {
    pub open spec fn is_solid_spec(self) -> bool {
        self is Solid
    }

    /// True for solid blocks of any material.
    pub fn is_solid(&self) -> (r: bool)
        ensures
            r == self.is_solid_spec(),
    {
        match self {
            BlockType::Solid(_) => true,
            _ => false,
        }
    }
}

} // verus!
