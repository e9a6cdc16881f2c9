use vstd::prelude::*;
use std::any::TypeId;
use super::entity::Entity;
use super::opaqueComponentAllocator::{OpaqueComponentAllocator, Error, MAX_COMPONENTS};
use super::typeIdMaker::{TypeIdMaker, type_id_of, distinct, index_in, with_registered};

verus! {

/// Keeps one allocator per component kind; a kind is identified by a type id.
pub struct ComponentManager<C> {
    componentAllocators: Vec<OpaqueComponentAllocator<C>>,
    componentIdMaker: TypeIdMaker,
}

impl<C> ComponentManager<C> {
    /// The kinds that have an allocator, in the order they were first used.
    pub closed spec fn kinds(&self) -> Seq<TypeId> {
        self.componentIdMaker@
    }

    /// The components of kind `id`, by entity id (none for a kind never used).
    pub closed spec fn stored(&self, id: TypeId) -> Map<usize, C> {
        if self.componentIdMaker@.contains(id) {
            self.componentAllocators@[index_in(self.componentIdMaker@, id)]@
        } else {
            Map::empty()
        }
    }

    /// How many components of kind `id` are stored.
    pub closed spec fn count_of(&self, id: TypeId) -> nat {
        if self.componentIdMaker@.contains(id) {
            self.componentAllocators@[index_in(self.componentIdMaker@, id)].count()
        } else {
            0
        }
    }

    pub closed spec fn wf(&self) -> bool {
        &&& distinct(self.componentIdMaker@)
        &&& self.componentIdMaker@.len() == self.componentAllocators@.len()
        &&& forall|i: int| 0 <= i < self.componentAllocators@.len() ==> #[trigger] self.componentAllocators@[i].wf()
    }

    pub fn New() -> (r: ComponentManager<C>)
        ensures
            r.wf(),
            r.kinds() == Seq::<TypeId>::empty(),
            forall|id: TypeId| r.stored(id) == Map::<usize, C>::empty() && r.count_of(id) == 0,
    {
        ComponentManager { componentAllocators: Vec::new(), componentIdMaker: TypeIdMaker::New() }
    }

    /// The index of the allocator for kind `typeId`, made (empty, named
    /// `name`) if the kind is new.
    fn GetAllocator(&mut self, typeId: TypeId, name: &str) -> (r: usize)
        requires
            old(self).wf(),
        ensures
            final(self).wf(),
            final(self).kinds() == with_registered(old(self).kinds(), typeId),
            r < final(self).componentAllocators@.len(),
            r == index_in(final(self).kinds(), typeId),
            final(self).kinds().contains(typeId),
            final(self).stored(typeId) == old(self).stored(typeId),
            final(self).count_of(typeId) == old(self).count_of(typeId),
            forall|other: TypeId| other != typeId ==> final(self).stored(other) == old(self).stored(other)
                && final(self).count_of(other) == old(self).count_of(other),
    {
        let registered = self.componentIdMaker.HasTypeIdBeenRegistered(&typeId);
        if !registered {
            let allocator = OpaqueComponentAllocator::New(name);
            self.componentAllocators.push(allocator);
        }
        let ghost mid = self.componentAllocators@;
        let index = self.componentIdMaker.GetIndexOfTypeId(typeId);
        proof {
            let ids = self.componentIdMaker@;
            let old_ids = old(self).componentIdMaker@;
            assert forall|other: TypeId| other != typeId implies self.stored(other) == old(self).stored(other)
                && self.count_of(other) == old(self).count_of(other) by {
                if old_ids.contains(other) {
                    let k = index_in(old_ids, other);
                    assert(0 <= k < old_ids.len() && old_ids[k] == other);
                    assert(ids[k] == other);
                    assert(ids.contains(other));
                    let j = index_in(ids, other);
                    assert(0 <= j < ids.len() && ids[j] == other);
                    if j != k {
                        if j < k {
                            assert(ids[j] != ids[k]);
                        } else {
                            assert(ids[k] != ids[j]);
                        }
                    }
                } else {
                    assert(!ids.contains(other)) by {
                        if ids.contains(other) {
                            let j = choose|j: int| 0 <= j < ids.len() && ids[j] == other;
                            assert(old_ids[j] == other);
                        }
                    }
                }
            }
            if old_ids.contains(typeId) {
                let k = index_in(old_ids, typeId);
                assert(0 <= k < old_ids.len() && old_ids[k] == typeId);
            }
        }
        index
    }

    /// `after` differs from `self` in kind `id` alone, and has `id` registered.
    pub open spec fn touches_only(self, after: Self, id: TypeId) -> bool {
        &&& after.wf()
        &&& after.kinds() == with_registered(self.kinds(), id)
        &&& forall|other: TypeId| other != id ==> after.stored(other) == self.stored(other)
            && after.count_of(other) == self.count_of(other)
    }

    /// `after` holds the same components of kind `id` as `self`.
    pub open spec fn same_of_kind(self, after: Self, id: TypeId) -> bool {
        &&& after.stored(id) == self.stored(id)
        &&& after.count_of(id) == self.count_of(id)
    }

    /// The outcome of adding `component` of kind `id` to entity `e`; an `Ok`
    /// carries the stored component as handed out and as finally left.
    pub open spec fn add_outcome(self, after: Self, id: TypeId, e: usize, component: C, r: Result<(C, C), Error>) -> bool {
        &&& self.touches_only(after, id)
        &&& match r {
            Ok((now, last)) => {
                &&& self.count_of(id) < MAX_COMPONENTS
                &&& !self.stored(id).contains_key(e)
                &&& now == component
                &&& after.stored(id) =~= self.stored(id).insert(e, last)
                &&& after.count_of(id) == self.count_of(id) + 1
            },
            Err(Error::MaximumComponentsExceeded) => {
                &&& self.count_of(id) >= MAX_COMPONENTS
                &&& self.same_of_kind(after, id)
            },
            Err(Error::ComponentAlreadyAllocated) => {
                &&& self.count_of(id) < MAX_COMPONENTS
                &&& self.stored(id).contains_key(e)
                &&& self.same_of_kind(after, id)
            },
            Err(Error::EntityNotFound) => false,
        }
    }

    /// The outcome of looking up the component of kind `id` of entity `e`.
    pub open spec fn get_outcome(self, after: Self, id: TypeId, e: usize, r: Result<(C, C), Error>) -> bool {
        &&& self.touches_only(after, id)
        &&& match r {
            Ok((now, last)) => {
                &&& self.stored(id).contains_key(e)
                &&& now == self.stored(id)[e]
                &&& after.stored(id) =~= self.stored(id).insert(e, last)
                &&& after.count_of(id) == self.count_of(id)
            },
            Err(err) => {
                &&& err == Error::EntityNotFound
                &&& !self.stored(id).contains_key(e)
                &&& self.same_of_kind(after, id)
            },
        }
    }

    /// The outcome of removing the component of kind `id` of entity `e`.
    pub open spec fn remove_outcome(self, after: Self, id: TypeId, e: usize, r: Result<(), Error>) -> bool {
        &&& self.touches_only(after, id)
        &&& match r {
            Ok(()) => {
                &&& self.stored(id).contains_key(e)
                &&& after.stored(id) == self.stored(id).remove(e)
                &&& after.count_of(id) == self.count_of(id) - 1
            },
            Err(err) => {
                &&& err == Error::EntityNotFound
                &&& !self.stored(id).contains_key(e)
                &&& self.same_of_kind(after, id)
            },
        }
    }

    /// Stores the component `component` of kind `typeId` for `entity`.
    pub(crate) fn AllocateComponentOfType(&mut self, typeId: TypeId, name: &str, entity: Entity, component: C) -> (r: Result<(), Error>)
        requires
            old(self).wf(),
        ensures
            old(self).add_outcome(*final(self), typeId, entity.id, component, match r {
                Ok(()) => Ok((component, component)),
                Err(err) => Err(err),
            }),
    {
        let index = self.GetAllocator(typeId, name);
        let allocator = &mut self.componentAllocators[index];
        allocator.AllocateComponent(entity, component)
    }

    /// Gives `entity` the component `component` of kind `typeId`, and hands
    /// out the stored component to read or change.
    pub fn AddComponentOfType(&mut self, typeId: TypeId, name: &str, entity: Entity, component: C) -> (r: Result<&mut C, Error>)
        requires
            old(self).wf(),
        ensures
            old(self).add_outcome(*final(self), typeId, entity.id, component, match r {
                Ok(c) => Ok((*c, *final(c))),
                Err(err) => Err(err),
            }),
    {
        match self.AllocateComponentOfType(typeId, name, entity, component) {
            Ok(()) => {},
            Err(e) => {
                return Err(e);
            },
        }
        self.GetComponentOfType(typeId, name, entity)
    }

    /// The component of kind `typeId` of `entity`, to read or change.
    pub fn GetComponentOfType(&mut self, typeId: TypeId, name: &str, entity: Entity) -> (r: Result<&mut C, Error>)
        requires
            old(self).wf(),
        ensures
            old(self).get_outcome(*final(self), typeId, entity.id, match r {
                Ok(c) => Ok((*c, *final(c))),
                Err(err) => Err(err),
            }),
    {
        let index = self.GetAllocator(typeId, name);
        let allocator = &mut self.componentAllocators[index];
        allocator.GetComponent(entity)
    }

    /// Whether `entity` has a component of kind `typeId`.
    pub fn HasComponentOfType(&mut self, typeId: TypeId, name: &str, entity: Entity) -> (r: bool)
        requires
            old(self).wf(),
        ensures
            old(self).touches_only(*final(self), typeId),
            old(self).same_of_kind(*final(self), typeId),
            r == old(self).stored(typeId).contains_key(entity.id),
    {
        let index = self.GetAllocator(typeId, name);
        self.componentAllocators[index].HasComponent(entity)
    }

    /// Removes the component of kind `typeId` of `entity`.
    pub fn RemoveComponentOfType(&mut self, typeId: TypeId, name: &str, entity: Entity) -> (r: Result<(), Error>)
        requires
            old(self).wf(),
        ensures
            old(self).remove_outcome(*final(self), typeId, entity.id, r),
    {
        let index = self.GetAllocator(typeId, name);
        let allocator = &mut self.componentAllocators[index];
        allocator.FreeComponent(entity)
    }

    /// Gives `entity` the component `component` of the kind named by type `T`,
    /// and hands out the stored component to read or change.
    pub fn AddComponent<T: 'static>(&mut self, entity: Entity, component: C) -> (r: Result<&mut C, Error>)
        requires
            old(self).wf(),
        ensures
            exists|id: TypeId| #![trigger old(self).touches_only(*final(self), id)] old(self).add_outcome(*final(self), id, entity.id, component, match r {
                Ok(c) => Ok((*c, *final(c))),
                Err(err) => Err(err),
            }),
    {
        let typeId = type_id_of::<T>();
        self.AddComponentOfType(typeId, "", entity, component)
    }

    /// The component of the kind named by type `T` of `entity`, to read or change.
    pub fn GetComponent<T: 'static>(&mut self, entity: Entity) -> (r: Result<&mut C, Error>)
        requires
            old(self).wf(),
        ensures
            exists|id: TypeId| #![trigger old(self).touches_only(*final(self), id)] old(self).get_outcome(*final(self), id, entity.id, match r {
                Ok(c) => Ok((*c, *final(c))),
                Err(err) => Err(err),
            }),
    {
        let typeId = type_id_of::<T>();
        self.GetComponentOfType(typeId, "", entity)
    }

    /// Whether `entity` has a component of the kind named by type `T`.
    pub fn HasComponent<T: 'static>(&mut self, entity: Entity) -> (r: bool)
        requires
            old(self).wf(),
        ensures
            exists|id: TypeId| #[trigger] old(self).touches_only(*final(self), id)
                && old(self).same_of_kind(*final(self), id)
                && r == old(self).stored(id).contains_key(entity.id),
    {
        let typeId = type_id_of::<T>();
        self.HasComponentOfType(typeId, "", entity)
    }

    /// Removes the component of the kind named by type `T` of `entity`.
    pub fn RemoveComponent<T: 'static>(&mut self, entity: Entity) -> (r: Result<(), Error>)
        requires
            old(self).wf(),
        ensures
            exists|id: TypeId| #[trigger] old(self).remove_outcome(*final(self), id, entity.id, r),
    {
        let typeId = type_id_of::<T>();
        self.RemoveComponentOfType(typeId, "", entity)
    }
}


/// A component added is what a lookup of it then finds.
pub proof fn law_added_component_is_found<C>(
    before: ComponentManager<C>,
    added: ComponentManager<C>,
    after: ComponentManager<C>,
    id: TypeId,
    e: usize,
    component: C,
    found: Result<(C, C), Error>,
)
    requires
        before.add_outcome(added, id, e, component, Ok((component, component))),
        added.get_outcome(after, id, e, found),
    ensures
        found matches Ok((now, _)) && now == component,
{
}

/// A component removed is no longer found.
pub proof fn law_removed_component_is_gone<C>(before: ComponentManager<C>, after: ComponentManager<C>, id: TypeId, e: usize)
    requires
        before.remove_outcome(after, id, e, Ok(())),
    ensures
        !after.stored(id).contains_key(e),
        after.count_of(id) + 1 == before.count_of(id),
{
}

} // verus!
