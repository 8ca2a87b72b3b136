//! Three unsigned 32-bit coordinates: a model size or a position in a model.
use vstd::prelude::*;

verus! {

#[derive(Clone, Copy, Debug, PartialEq, Eq, Structural)]
pub struct UVec3 {
    pub x: u32,
    pub y: u32,
    pub z: u32,
}

impl UVec3 {
    pub fn new(x: u32, y: u32, z: u32) -> (r: UVec3)
        ensures
            r == (UVec3 { x, y, z }),
    {
        UVec3 { x, y, z }
    }

    pub fn zero() -> (r: UVec3)
        ensures
            r == (UVec3 { x: 0, y: 0, z: 0 }),
    {
        UVec3 { x: 0, y: 0, z: 0 }
    }

    pub open spec fn max_element_spec(self) -> u32 {
        if self.x >= self.y && self.x >= self.z {
            self.x
        } else if self.y >= self.z {
            self.y
        } else {
            self.z
        }
    }

    /// The largest of the three coordinates.
    pub fn max_element(&self) -> (r: u32)
        ensures
            r == self.max_element_spec(),
            r >= self.x && r >= self.y && r >= self.z,
            r == self.x || r == self.y || r == self.z,
    {
        if self.x >= self.y && self.x >= self.z {
            self.x
        } else if self.y >= self.z {
            self.y
        } else {
            self.z
        }
    }

    /// `x * x + y * y + z * z`.
    pub fn length_squared(&self) -> (r: u32)
        requires
            self.x * self.x + self.y * self.y + self.z * self.z <= u32::MAX,
        ensures
            r == self.x * self.x + self.y * self.y + self.z * self.z,
    {
        proof {
            assert(0 <= self.x * self.x && 0 <= self.y * self.y && 0 <= self.z * self.z) by (nonlinear_arith);
        }
        self.x * self.x + self.y * self.y + self.z * self.z
    }
}

} // verus!
