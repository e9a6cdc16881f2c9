use vstd::prelude::*;

verus! {

pub type EntityID = usize;

/// A handle on an entity: its id.
#[derive(Debug, PartialEq, Eq, Hash, Clone, Copy, Structural)]
pub struct Entity {
    pub id: EntityID,
}

pub type EntityId = Entity;

} // verus!
