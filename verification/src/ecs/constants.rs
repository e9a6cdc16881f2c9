use vstd::prelude::*;

verus! {

/// The most component types an entity signature is sized for.
pub const MAX_COMPONENT_TYPES: usize = 64;

/// The most layers a layer mask is sized for.
pub const MAX_LAYERS: usize = 32;

} // verus!
