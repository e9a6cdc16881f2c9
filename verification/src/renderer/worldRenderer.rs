use vstd::prelude::*;

verus! {

/// A packed mesh vertex: `Core` holds position, texture, corner and face
/// ids; `Dims` holds the width and height of the quad it belongs to.
#[derive(Clone, Copy, Debug, PartialEq, Eq, Structural)]
pub struct Vertex {
    pub Core: u32,
    pub Dims: u32,
}

} // verus!
