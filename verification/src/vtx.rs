//! Vertex capabilities: anything with a position, and optionally a
//! surface normal.

use vstd::prelude::*;
use crate::vec3::Vec3;

verus! {

/// Exposes a position in 3D space.
pub trait Position {
    /// The position as a mathematical value.
    spec fn spec_position(&self) -> Vec3;

    /// The position of the vertex.
    fn position(&self) -> (p: Vec3)
        ensures
            p == self.spec_position(),
    ;
}

impl Position for Vec3 {
    open spec fn spec_position(&self) -> Vec3 {
        *self
    }

    fn position(&self) -> (p: Vec3)
        ensures
            p == self.spec_position(),
    {
        *self
    }
}

/// Exposes a surface normal.
pub trait Normal {
    /// The normal as a mathematical value.
    spec fn spec_normal(&self) -> Vec3;

    /// The surface normal of the vertex.
    fn normal(&self) -> (n: Vec3)
        ensures
            n == self.spec_normal(),
    ;
}

} // verus!
