use vstd::prelude::*;
use super::constants::MAX_COMPONENT_TYPES;
use super::typeIdMaker::{TypeIdMaker, with_registered, index_in, distinct};
use super::bits::{
    IdBitSet, bitset_contents, bitset_with_capacity, bitset_insert, bitset_remove, bitset_eq,
    bitset_clone,
};
use std::any::TypeId;

verus! {

/// The set of component type indices an entity has.
pub struct Signature {
    bitset: IdBitSet,
}

impl Signature {
    pub closed spec fn view(&self) -> Set<usize> {
        bitset_contents(self.bitset)
    }

    /// The empty signature.
    pub(crate) fn New() -> (r: Signature)
        ensures
            r@ == Set::<usize>::empty(),
    {
        Signature { bitset: bitset_with_capacity(MAX_COMPONENT_TYPES) }
    }

    /// Adds the component type index `id`.
    pub fn AddComponentId(&mut self, id: usize)
        requires
            id < usize::MAX,
        ensures
            final(self)@ == old(self)@.insert(id),
    {
        bitset_insert(&mut self.bitset, id);
    }

    /// Removes the component type index `id`.
    pub fn RemoveComponentId(&mut self, id: usize)
        ensures
            final(self)@ == old(self)@.remove(id),
    {
        bitset_remove(&mut self.bitset, id);
    }

    /// Adds component type `T`, registering it with `componentIdMaker` first if it is new.
    pub fn AddComponent<T: ?Sized + 'static>(&mut self, componentIdMaker: &mut TypeIdMaker)
        requires
            distinct(old(componentIdMaker)@),
            old(componentIdMaker)@.len() < usize::MAX - 1,
        ensures
            distinct(final(componentIdMaker)@),
            exists|tid: TypeId|
                final(componentIdMaker)@ == with_registered(old(componentIdMaker)@, tid) && final(self)@
                    == old(self)@.insert(index_in(final(componentIdMaker)@, tid) as usize),
    {
        let id = componentIdMaker.GetTypeId::<T>();
        bitset_insert(&mut self.bitset, id);
    }

    /// Removes component type `T`, registering it with `componentIdMaker` first if it is new.
    pub fn RemoveComponent<T: ?Sized + 'static>(&mut self, componentIdMaker: &mut TypeIdMaker)
        requires
            distinct(old(componentIdMaker)@),
        ensures
            distinct(final(componentIdMaker)@),
            exists|tid: TypeId|
                final(componentIdMaker)@ == with_registered(old(componentIdMaker)@, tid) && final(self)@
                    == old(self)@.remove(index_in(final(componentIdMaker)@, tid) as usize),
    {
        let id = componentIdMaker.GetTypeId::<T>();
        bitset_remove(&mut self.bitset, id);
    }

    /// A signature with the same component types.
    pub fn Duplicate(&self) -> (r: Signature)
        ensures
            r@ == self@,
    {
        Signature { bitset: bitset_clone(&self.bitset) }
    }
}

impl PartialEq for Signature {
    fn eq(&self, other: &Self) -> (r: bool) {
        bitset_eq(&self.bitset, &other.bitset)
    }
}

impl vstd::std_specs::cmp::PartialEqSpecImpl for Signature {
    open spec fn obeys_eq_spec() -> bool {
        true
    }

    open spec fn eq_spec(&self, other: &Self) -> bool {
        self@ == other@
    }
}

impl Eq for Signature {
}

/// Builds a signature from component types, registering them as it goes.
pub struct SignatureBuilder<'a> {
    signature: Signature,
    componentIdMaker: &'a mut TypeIdMaker,
}

impl<'a> SignatureBuilder<'a> {
    /// The signature built so far.
    pub closed spec fn signature(&self) -> Set<usize> {
        self.signature@
    }

    /// The type ids registered with the builder's id maker so far.
    pub closed spec fn registered(&self) -> Seq<TypeId> {
        self.componentIdMaker@
    }

    pub fn New(componentIdMaker: &'a mut TypeIdMaker) -> (r: SignatureBuilder<'a>)
        ensures
            r.signature() == Set::<usize>::empty(),
            r.registered() == old(componentIdMaker)@,
    {
        SignatureBuilder { signature: Signature::New(), componentIdMaker }
    }

    /// Adds component type `T`.
    pub fn AddComponent<T: ?Sized + 'static>(self) -> (r: SignatureBuilder<'a>)
        requires
            distinct(self.registered()),
            self.registered().len() < usize::MAX - 1,
        ensures
            distinct(r.registered()),
            exists|tid: TypeId|
                r.registered() == with_registered(self.registered(), tid) && r.signature()
                    == self.signature().insert(index_in(r.registered(), tid) as usize),
    {
        let mut s = self;
        s.signature.AddComponent::<T>(s.componentIdMaker);
        s
    }

    /// The signature built.
    pub fn Build(self) -> (r: Signature)
        ensures
            r@ == self.signature(),
    {
        self.signature
    }
}

} // verus!
