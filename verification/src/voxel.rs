use vstd::prelude::*;

verus! {

/// A voxel is a 32-bit material identifier. The value 0 is reserved as
/// "void": the absence of solid material.
#[derive(Debug, Copy, Clone, Eq, PartialEq, Structural)]
pub struct Voxel(pub u32);

impl Voxel {
    /// The identifier of the void sentinel.
    pub open spec fn void_id() -> u32 {
        0
    }

    pub fn from_id(id: u32) -> (v: Voxel)
        ensures
            v.0 == id,
    {
        Voxel(id)
    }

    /// The void sentinel itself.
    pub fn void() -> (v: Voxel)
        ensures
            v.0 == Voxel::void_id(),
    {
        Voxel(0)
    }

    pub fn is_void(&self) -> (r: bool)
        ensures
            r <==> self.0 == Voxel::void_id(),
    {
        self.0 == 0
    }
}

} // verus!
