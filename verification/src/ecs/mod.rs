use vstd::prelude::*;

pub mod bits;
pub mod constants;
pub mod entity;
pub mod typeIdMaker;
pub mod componentIdMaker;
pub mod signature;
pub mod componentAllocator;
pub mod opaqueComponentAllocator;
pub mod componentManager;
pub mod layerManager;
pub mod entityManager;
pub mod systemManager;
pub mod entityComponentSystem;

verus! {

/// An error of the component allocators.
#[derive(Debug, Clone, Copy, PartialEq, Eq, Structural)]
pub enum Error {
    ComponentAllocatorError(componentAllocator::Error),
}

} // verus!
