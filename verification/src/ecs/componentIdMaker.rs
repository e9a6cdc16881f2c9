use vstd::prelude::*;
use super::typeIdMaker::{TypeIdMaker, with_registered, index_in, distinct};
use std::any::TypeId;

verus! {

/// Hands out dense indices to component types, in the order in which they are first seen.
pub struct ComponentIdMaker {
    typeIdToIndex: TypeIdMaker,
}

impl ComponentIdMaker {
    /// The registered component type ids; each one's index is its position.
    pub closed spec fn view(&self) -> Seq<TypeId> {
        self.typeIdToIndex@
    }

    pub closed spec fn wf(&self) -> bool {
        distinct(self@)
    }

    pub fn New() -> (r: ComponentIdMaker)
        ensures
            r.wf(),
            r@ == Seq::<TypeId>::empty(),
    {
        ComponentIdMaker { typeIdToIndex: TypeIdMaker::New() }
    }

    /// The index of component type `T`, registering it first if it is new.
    pub fn GetComponentId<T: ?Sized + 'static>(&mut self) -> (r: usize)
        requires
            old(self).wf(),
        ensures
            final(self).wf(),
            exists|id: TypeId|
                final(self)@ == with_registered(old(self)@, id) && r == index_in(final(self)@, id)
                    && final(self)@[r as int] == id,
    {
        self.typeIdToIndex.GetTypeId::<T>()
    }
}

} // verus!
