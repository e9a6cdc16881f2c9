use vstd::prelude::*;
use std::any::TypeId;
use super::entity::Entity;
use super::opaqueComponentAllocator;
use super::componentManager::ComponentManager;
use super::entityManager::{EntityManager, EntityData, EntityDoesNotExist, fresh_data};
use super::layerManager::LayerManager;
use super::systemManager::SystemManager;
use super::constants::MAX_COMPONENT_TYPES;
use super::typeIdMaker::{TypeIdMaker, type_id_of, distinct, index_in, with_registered};

verus! {

/// What an operation of the entity component system can fail with.
#[derive(Debug, Clone, Copy, PartialEq, Eq, Structural)]
pub enum Error {
    ComponentAllocationError(opaqueComponentAllocator::Error),
    EntityError(EntityDoesNotExist),
}

/// Two entity records that differ at most in their signature.
pub open spec fn same_but_signature(a: EntityData, b: EntityData) -> bool {
    &&& a.baseEntity == b.baseEntity
    &&& a.name == b.name
    &&& a.tag == b.tag
    &&& a.children == b.children
    &&& a.parent == b.parent
    &&& a.layerMask == b.layerMask
}

/// Two entity records that differ at most in their name.
pub open spec fn same_but_name(a: EntityData, b: EntityData) -> bool {
    &&& a.baseEntity == b.baseEntity
    &&& a.tag == b.tag
    &&& a.signature == b.signature
    &&& a.children == b.children
    &&& a.parent == b.parent
    &&& a.layerMask == b.layerMask
}

/// Two entity records that differ at most in their tag.
pub open spec fn same_but_tag(a: EntityData, b: EntityData) -> bool {
    &&& a.baseEntity == b.baseEntity
    &&& a.name == b.name
    &&& a.signature == b.signature
    &&& a.children == b.children
    &&& a.parent == b.parent
    &&& a.layerMask == b.layerMask
}

/// Two entity records that differ at most in their children.
pub open spec fn same_but_children(a: EntityData, b: EntityData) -> bool {
    &&& a.baseEntity == b.baseEntity
    &&& a.name == b.name
    &&& a.tag == b.tag
    &&& a.signature == b.signature
    &&& a.parent == b.parent
    &&& a.layerMask == b.layerMask
}

/// Two entity records that differ at most in their layers.
pub open spec fn same_but_layers(a: EntityData, b: EntityData) -> bool {
    &&& a.baseEntity == b.baseEntity
    &&& a.name == b.name
    &&& a.tag == b.tag
    &&& a.signature == b.signature
    &&& a.children == b.children
    &&& a.parent == b.parent
}

/// Entities, their components of type `C`, the systems that act on them and
/// the layers they are in.
pub struct EntityComponentSystem<C> {
    componentManager: ComponentManager<C>,
    entityManager: EntityManager,
    systemManager: SystemManager,
    layerManager: LayerManager,
    componentIdMaker: TypeIdMaker,
}

impl<C> EntityComponentSystem<C> {
    /// The data of each live entity, by id.
    pub closed spec fn entities(&self) -> Map<usize, EntityData> {
        self.entityManager.entities()
    }

    /// How many entity ids have been handed out.
    pub closed spec fn id_bound(&self) -> nat {
        self.entityManager.id_bound()
    }

    /// The ids of deleted entities, in the order they will be handed out again.
    pub closed spec fn free_ids(&self) -> Seq<usize> {
        self.entityManager.free_ids()
    }

    /// The id of the entity whose data is stored last, if any.
    pub closed spec fn last_stored(&self) -> Option<usize> {
        self.entityManager.last_stored()
    }

    /// The id the next created entity gets.
    pub open spec fn next_id(&self) -> usize {
        if self.free_ids().len() > 0 {
            self.free_ids()[0]
        } else {
            self.id_bound() as usize
        }
    }

    /// The components of kind `id`, by entity id.
    pub closed spec fn components(&self, id: TypeId) -> Map<usize, C> {
        self.componentManager.stored(id)
    }

    /// How many components of kind `id` are stored.
    pub closed spec fn component_count(&self, id: TypeId) -> nat {
        self.componentManager.count_of(id)
    }

    /// For each live entity (by id), the indices of the systems it is in.
    pub closed spec fn memberships(&self) -> Map<usize, Set<usize>> {
        self.systemManager.members()
    }

    /// The systems, with what they have reported and been told.
    pub closed spec fn system_manager(&self) -> SystemManager {
        self.systemManager
    }

    /// The types of the registered systems, by index.
    pub closed spec fn system_types(&self) -> Seq<TypeId> {
        self.systemManager.system_types()
    }

    /// The component types that signatures speak of; each one's bit is its position.
    pub closed spec fn signature_kinds(&self) -> Seq<TypeId> {
        self.componentIdMaker@
    }

    /// The layer names; each one's bit is its position.
    pub closed spec fn layers(&self) -> Seq<Seq<char>> {
        self.layerManager.layers()
    }

    /// The component store, by kind.
    pub closed spec fn component_store(&self) -> ComponentManager<C> {
        self.componentManager
    }

    /// `after` has the same entities, memberships and signature kinds as `self`.
    pub open spec fn entities_unchanged(self, after: Self) -> bool {
        &&& after.entities() == self.entities()
        &&& after.memberships() == self.memberships()
        &&& after.signature_kinds() == self.signature_kinds()
        &&& after.system_manager() == self.system_manager()
    }

    /// `after` is `self` with kind `kind` registered for signatures, the bit
    /// of `kind` set (when `adding`) or cleared in the signature of entity
    /// `e`, and `e` moved to the systems that match its new signature.
    pub open spec fn signature_changed(self, after: Self, e: usize, kind: TypeId, adding: bool) -> bool {
        let bit = index_in(after.signature_kinds(), kind) as usize;
        &&& after.signature_kinds() == with_registered(self.signature_kinds(), kind)
        &&& self.entities().contains_key(e)
        &&& after.entities().dom() =~= self.entities().dom()
        &&& after.entities().remove(e) =~= self.entities().remove(e)
        &&& same_but_signature(after.entities()[e], self.entities()[e])
        &&& after.entities()[e].signature@ == if adding {
            self.entities()[e].signature@.insert(bit)
        } else {
            self.entities()[e].signature@.remove(bit)
        }
        &&& self.system_manager().signature_changed(
            after.system_manager(),
            (Entity { id: e }),
            after.entities()[e].signature@,
            self.memberships()[e],
        )
    }

    /// `after` agrees with `self` in all but the entity records and the layers.
    pub open spec fn frame(self, after: Self) -> bool {
        &&& after.wf()
        &&& after.id_bound() == self.id_bound()
        &&& after.free_ids() == self.free_ids()
        &&& after.last_stored() == self.last_stored()
        &&& after.system_types() == self.system_types()
        &&& after.signature_kinds() == self.signature_kinds()
        &&& after.memberships() == self.memberships()
        &&& after.system_manager() == self.system_manager()
        &&& forall|id: TypeId| after.components(id) == self.components(id)
            && after.component_count(id) == self.component_count(id)
    }

    /// Entity `e` is alive, and `after` has the same entities as `self` but
    /// for the record of `e`.
    pub open spec fn record_replaced(self, after: Self, e: usize) -> bool {
        &&& self.entities().contains_key(e)
        &&& after.entities().dom() =~= self.entities().dom()
        &&& after.entities().remove(e) =~= self.entities().remove(e)
    }

    pub closed spec fn wf(&self) -> bool {
        &&& self.componentManager.wf()
        &&& self.entityManager.wf()
        &&& self.systemManager.wf()
        &&& self.layerManager.wf()
        &&& distinct(self.componentIdMaker@)
        &&& self.systemManager.members().dom() == self.entityManager.entities().dom()
    }

    pub fn New() -> (r: EntityComponentSystem<C>)
        ensures
            r.wf(),
            r.entities() == Map::<usize, EntityData>::empty(),
            r.id_bound() == 0,
            r.free_ids() == Seq::<usize>::empty(),
            forall|id: TypeId| r.components(id) == Map::<usize, C>::empty() && r.component_count(id) == 0,
            r.memberships() == Map::<usize, Set<usize>>::empty(),
            r.system_types() == Seq::<TypeId>::empty(),
            r.signature_kinds() == Seq::<TypeId>::empty(),
            r.layers() == Seq::<Seq<char>>::empty(),
    {
        let r = EntityComponentSystem {
            componentManager: ComponentManager::New(),
            entityManager: EntityManager::New(),
            systemManager: SystemManager::New(),
            layerManager: LayerManager::New(),
            componentIdMaker: TypeIdMaker::New(),
        };
        assert(r.systemManager.members().dom() =~= r.entityManager.entities().dom());
        r
    }

    /// Creates an entity with fresh data and places it in the systems whose
    /// signature is empty.
    pub fn CreateEntity(&mut self) -> (r: Result<Entity, Error>)
        requires
            old(self).wf(),
            old(self).id_bound() < usize::MAX,
        ensures
            final(self).wf(),
            r is Ok,
            r matches Ok(e) && {
                &&& e.id == old(self).next_id()
                &&& !old(self).entities().contains_key(e.id)
                &&& final(self).entities().contains_key(e.id)
                &&& fresh_data(final(self).entities()[e.id], e)
                &&& final(self).entities().remove(e.id) == old(self).entities()
                &&& old(self).system_manager().signature_changed(
                    final(self).system_manager(),
                    e,
                    Set::<usize>::empty(),
                    Set::<usize>::empty(),
                )
            },
            final(self).free_ids() == if old(self).free_ids().len() > 0 {
                old(self).free_ids().drop_first()
            } else {
                old(self).free_ids()
            },
            final(self).id_bound() == if old(self).free_ids().len() > 0 {
                old(self).id_bound()
            } else {
                old(self).id_bound() + 1
            },
            forall|id: TypeId| final(self).components(id) == old(self).components(id)
                && final(self).component_count(id) == old(self).component_count(id),
            final(self).system_types() == old(self).system_types(),
            final(self).signature_kinds() == old(self).signature_kinds(),
            final(self).layers() == old(self).layers(),
    {
        let entityId = self.entityManager.CreateEntity(&mut self.componentIdMaker);
        match self.entityManager.EntityData(entityId) {
            Ok(entityData) => {
                let signature = entityData.signature.Duplicate();
                self.systemManager.OnEntityCreated(entityId, signature);
                proof {
                    assert(signature@ == Set::<usize>::empty());
                    assert(!old(self).systemManager.members().contains_key(entityId.id));
                }
                assert(self.systemManager.members().dom() =~= self.entityManager.entities().dom()) by {
                    assert(self.entityManager.entities().dom() =~= old(self).entityManager.entities().dom().insert(entityId.id)) by {
                        assert forall|k: usize| #[trigger] self.entityManager.entities().contains_key(k) == (k == entityId.id
                            || old(self).entityManager.entities().contains_key(k)) by {
                            if k != entityId.id {
                                assert(self.entityManager.entities().remove(entityId.id).contains_key(k)
                                    == self.entityManager.entities().contains_key(k));
                            }
                        }
                    }
                }
                Ok(entityId)
            },
            Err(e) => Err(Error::EntityError(e)),
        }
    }

    /// Tells the systems the entity is in that it is destroyed, then deletes
    /// it. Deleting the entity whose data is stored last is left out: the
    /// entity manager writes past the end of its data there.
    pub fn DeleteEntity(&mut self, entityId: Entity) -> (r: Result<(), Error>)
        requires
            old(self).wf(),
            entityId.id < old(self).id_bound(),
            old(self).entities().contains_key(entityId.id) ==> old(self).last_stored() != Some(entityId.id),
        ensures
            final(self).wf(),
            final(self).id_bound() == old(self).id_bound(),
            forall|id: TypeId| final(self).components(id) == old(self).components(id)
                && final(self).component_count(id) == old(self).component_count(id),
            final(self).system_types() == old(self).system_types(),
            final(self).signature_kinds() == old(self).signature_kinds(),
            final(self).layers() == old(self).layers(),
            match r {
                Ok(()) => {
                    &&& old(self).entities().contains_key(entityId.id)
                    &&& final(self).entities() == old(self).entities().remove(entityId.id)
                    &&& final(self).free_ids() == old(self).free_ids().push(entityId.id)
                    &&& final(self).memberships() == old(self).memberships().remove(entityId.id)
                    &&& old(self).system_manager().entity_destroyed(
                        final(self).system_manager(),
                        entityId,
                        old(self).entities()[entityId.id].signature@,
                    )
                },
                Err(err) => {
                    &&& err == Error::EntityError(EntityDoesNotExist)
                    &&& !old(self).entities().contains_key(entityId.id)
                    &&& final(self).entities() == old(self).entities()
                    &&& final(self).free_ids() == old(self).free_ids()
                    &&& final(self).memberships() == old(self).memberships()
                    &&& final(self).system_manager() == old(self).system_manager()
                },
            },
    {
        let signature = match self.entityManager.EntityData(entityId) {
            Ok(entityData) => entityData.signature.Duplicate(),
            Err(e) => {
                return Err(Error::EntityError(e));
            },
        };
        assert(self.systemManager.members().contains_key(entityId.id));
        self.systemManager.OnEntityDestroyed(entityId, signature);
        match self.entityManager.DeleteEntity(entityId) {
            Ok(()) => {},
            Err(e) => {
                return Err(Error::EntityError(e));
            },
        }
        assert(self.systemManager.members().dom() =~= self.entityManager.entities().dom());
        Ok(())
    }

    /// Gives the entity the component `component` of the kind named by type
    /// `T`, sets that kind in its signature and moves it to the systems that
    /// match; hands out the stored component. The component is stored even
    /// when the entity turns out not to be alive.
    pub fn AddComponent<T: 'static>(&mut self, entityId: Entity, component: C) -> (r: Result<&mut C, Error>)
        requires
            old(self).wf(),
            entityId.id < old(self).id_bound(),
            old(self).signature_kinds().len() < usize::MAX,
        ensures
            final(self).wf(),
            final(self).id_bound() == old(self).id_bound(),
            final(self).free_ids() == old(self).free_ids(),
            final(self).last_stored() == old(self).last_stored(),
            final(self).system_types() == old(self).system_types(),
            final(self).layers() == old(self).layers(),
            exists|kind: TypeId| #![trigger old(self).components(kind)]
                old(self).component_store().add_outcome(final(self).component_store(), kind, entityId.id, component, match r {
                    Ok(c) => Ok((*c, *final(c))),
                    Err(Error::ComponentAllocationError(err)) => Err(err),
                    Err(Error::EntityError(_)) => Ok((component, component)),
                }) && match r {
                    Ok(_) => old(self).signature_changed(*final(self), entityId.id, kind, true),
                    Err(Error::EntityError(err)) => {
                        &&& !old(self).entities().contains_key(entityId.id)
                        &&& old(self).entities_unchanged(*final(self))
                    },
                    Err(Error::ComponentAllocationError(_)) => old(self).entities_unchanged(*final(self)),
                },
    {
        let typeId = type_id_of::<T>();
        let ghost stored_before = old(self).components(typeId);
        match self.componentManager.AllocateComponentOfType(typeId, "", entityId, component) {
            Ok(()) => {},
            Err(e) => {
                return Err(Error::ComponentAllocationError(e));
            },
        }
        let bit = match self.entityManager.EntityData(entityId) {
            Ok(_) => self.componentIdMaker.GetIndexOfTypeId(typeId),
            Err(e) => {
                return Err(Error::EntityError(e));
            },
        };
        let signature = match self.entityManager.MutableEntityData(entityId) {
            Ok(entityData) => {
                let ghost before = *entityData;
                entityData.signature.AddComponentId(bit);
                assert(same_but_signature(*entityData, before));
                entityData.signature.Duplicate()
            },
            Err(e) => {
                return Err(Error::EntityError(e));
            },
        };
        self.systemManager.OnEntitySignatureChanged(entityId, signature);
        proof {
            assert(self.entities()[entityId.id].signature@ == signature@);
        }
        let ghost mid = self.component_store();
        assert(mid.kinds().contains(typeId)) by {
            if !old(self).component_store().kinds().contains(typeId) {
                assert(mid.kinds()[mid.kinds().len() - 1] == typeId);
            }
        }
        match self.componentManager.GetComponentOfType(typeId, "", entityId) {
            Ok(c) => Ok(c),
            Err(e) => Err(Error::ComponentAllocationError(e)),
        }
    }

    /// Removes the entity's component of the kind named by type `T`, clears
    /// that kind in its signature and moves it to the systems that match.
    pub fn RemoveComponent<T: 'static>(&mut self, entityId: Entity) -> (r: Result<(), Error>)
        requires
            old(self).wf(),
            entityId.id < old(self).id_bound(),
            old(self).signature_kinds().len() < usize::MAX,
        ensures
            final(self).wf(),
            final(self).id_bound() == old(self).id_bound(),
            final(self).free_ids() == old(self).free_ids(),
            final(self).last_stored() == old(self).last_stored(),
            final(self).system_types() == old(self).system_types(),
            final(self).layers() == old(self).layers(),
            exists|kind: TypeId| #![trigger old(self).components(kind)]
                old(self).component_store().remove_outcome(final(self).component_store(), kind, entityId.id, match r {
                    Err(Error::ComponentAllocationError(err)) => Err(err),
                    _ => Ok(()),
                }) && match r {
                    Ok(_) => old(self).signature_changed(*final(self), entityId.id, kind, false),
                    Err(Error::EntityError(err)) => {
                        &&& !old(self).entities().contains_key(entityId.id)
                        &&& old(self).entities_unchanged(*final(self))
                    },
                    Err(Error::ComponentAllocationError(_)) => old(self).entities_unchanged(*final(self)),
                },
    {
        let typeId = type_id_of::<T>();
        let ghost stored_before = old(self).components(typeId);
        match self.componentManager.RemoveComponentOfType(typeId, "", entityId) {
            Ok(()) => {},
            Err(e) => {
                return Err(Error::ComponentAllocationError(e));
            },
        }
        let bit = match self.entityManager.EntityData(entityId) {
            Ok(_) => self.componentIdMaker.GetIndexOfTypeId(typeId),
            Err(e) => {
                return Err(Error::EntityError(e));
            },
        };
        let signature = match self.entityManager.MutableEntityData(entityId) {
            Ok(entityData) => {
                let ghost data_before = *entityData;
                entityData.signature.RemoveComponentId(bit);
                assert(same_but_signature(*entityData, data_before));
                entityData.signature.Duplicate()
            },
            Err(e) => {
                return Err(Error::EntityError(e));
            },
        };
        self.systemManager.OnEntitySignatureChanged(entityId, signature);
        proof {
            assert(self.entities()[entityId.id].signature@ == signature@);
        }
        Ok(())
    }

    /// Sets the name of the entity.
    pub fn SetName(&mut self, entityId: Entity, name: &str) -> (r: Result<(), Error>)
        requires
            old(self).wf(),
            entityId.id < old(self).id_bound(),
        ensures
            old(self).frame(*final(self)),
            final(self).layers() == old(self).layers(),
            match r {
                Ok(()) => {
                    &&& old(self).record_replaced(*final(self), entityId.id)
                    &&& same_but_name(final(self).entities()[entityId.id], old(self).entities()[entityId.id])
                    &&& final(self).entities()[entityId.id].name@ == name@
                },
                Err(err) => {
                    &&& err == Error::EntityError(EntityDoesNotExist)
                    &&& !old(self).entities().contains_key(entityId.id)
                    &&& final(self).entities() == old(self).entities()
                },
            },
    {
        match self.entityManager.MutableEntityData(entityId) {
            Ok(entityData) => {
                entityData.name = name.to_owned();
            },
            Err(e) => {
                return Err(Error::EntityError(e));
            },
        }
        assert(self.systemManager.members().dom() =~= self.entityManager.entities().dom());
        Ok(())
    }

    /// Sets the tag of the entity.
    pub fn SetTag(&mut self, entityId: Entity, tag: &str) -> (r: Result<(), Error>)
        requires
            old(self).wf(),
            entityId.id < old(self).id_bound(),
        ensures
            old(self).frame(*final(self)),
            final(self).layers() == old(self).layers(),
            match r {
                Ok(()) => {
                    &&& old(self).record_replaced(*final(self), entityId.id)
                    &&& same_but_tag(final(self).entities()[entityId.id], old(self).entities()[entityId.id])
                    &&& final(self).entities()[entityId.id].tag@ == tag@
                },
                Err(err) => {
                    &&& err == Error::EntityError(EntityDoesNotExist)
                    &&& !old(self).entities().contains_key(entityId.id)
                    &&& final(self).entities() == old(self).entities()
                },
            },
    {
        match self.entityManager.MutableEntityData(entityId) {
            Ok(entityData) => {
                entityData.tag = tag.to_owned();
            },
            Err(e) => {
                return Err(Error::EntityError(e));
            },
        }
        assert(self.systemManager.members().dom() =~= self.entityManager.entities().dom());
        Ok(())
    }

    /// The name of the entity.
    pub fn GetName(&self, entityId: Entity) -> (r: Result<&str, Error>)
        requires
            self.wf(),
            entityId.id < self.id_bound(),
        ensures
            match r {
                Ok(name) => self.entities().contains_key(entityId.id) && name@ == self.entities()[entityId.id].name@,
                Err(err) => err == Error::EntityError(EntityDoesNotExist) && !self.entities().contains_key(entityId.id),
            },
    {
        match self.entityManager.EntityData(entityId) {
            Ok(entityData) => Ok(entityData.name.as_str()),
            Err(e) => Err(Error::EntityError(e)),
        }
    }

    /// The tag of the entity; the second argument is not used.
    pub fn GetTag(&mut self, entityId: Entity, tag: &str) -> (r: Result<&str, Error>)
        requires
            old(self).wf(),
            entityId.id < old(self).id_bound(),
        ensures
            *final(self) == *old(self),
            match r {
                Ok(t) => old(self).entities().contains_key(entityId.id) && t@ == old(self).entities()[entityId.id].tag@,
                Err(err) => err == Error::EntityError(EntityDoesNotExist) && !old(self).entities().contains_key(entityId.id),
            },
    {
        match self.entityManager.EntityData(entityId) {
            Ok(entityData) => Ok(entityData.tag.as_str()),
            Err(e) => Err(Error::EntityError(e)),
        }
    }

    /// Appends `childId` to the children of `parentId`, if both are alive.
    pub fn AddChildToEntity(&mut self, parentId: Entity, childId: Entity) -> (r: Result<(), Error>)
        requires
            old(self).wf(),
            parentId.id < old(self).id_bound(),
            childId.id < old(self).id_bound(),
        ensures
            old(self).frame(*final(self)),
            final(self).layers() == old(self).layers(),
            match r {
                Ok(()) => {
                    &&& old(self).entities().contains_key(childId.id)
                    &&& old(self).record_replaced(*final(self), parentId.id)
                    &&& same_but_children(final(self).entities()[parentId.id], old(self).entities()[parentId.id])
                    &&& final(self).entities()[parentId.id].children@ == old(self).entities()[parentId.id].children@.push(childId)
                },
                Err(err) => {
                    &&& err == Error::EntityError(EntityDoesNotExist)
                    &&& (!old(self).entities().contains_key(childId.id) || !old(self).entities().contains_key(parentId.id))
                    &&& final(self).entities() == old(self).entities()
                },
            },
    {
        if !self.entityManager.IsEntityAlive(childId) {
            return Err(Error::EntityError(EntityDoesNotExist));
        }
        match self.entityManager.MutableEntityData(parentId) {
            Ok(entityData) => {
                entityData.children.push(childId);
            },
            Err(e) => {
                return Err(Error::EntityError(e));
            },
        }
        assert(self.systemManager.members().dom() =~= self.entityManager.entities().dom());
        Ok(())
    }

    /// Removes every occurrence of `childId` from the children of `parentId`,
    /// if both are alive.
    pub fn RemoveChildFromEntity(&mut self, parentId: Entity, childId: Entity) -> (r: Result<(), Error>)
        requires
            old(self).wf(),
            parentId.id < old(self).id_bound(),
            childId.id < old(self).id_bound(),
        ensures
            old(self).frame(*final(self)),
            final(self).layers() == old(self).layers(),
            match r {
                Ok(()) => {
                    &&& old(self).entities().contains_key(childId.id)
                    &&& old(self).record_replaced(*final(self), parentId.id)
                    &&& same_but_children(final(self).entities()[parentId.id], old(self).entities()[parentId.id])
                    &&& final(self).entities()[parentId.id].children@
                        == old(self).entities()[parentId.id].children@.filter(|id: Entity| id != childId)
                },
                Err(err) => {
                    &&& err == Error::EntityError(EntityDoesNotExist)
                    &&& (!old(self).entities().contains_key(childId.id) || !old(self).entities().contains_key(parentId.id))
                    &&& final(self).entities() == old(self).entities()
                },
            },
    {
        if !self.entityManager.IsEntityAlive(childId) {
            return Err(Error::EntityError(EntityDoesNotExist));
        }
        match self.entityManager.MutableEntityData(parentId) {
            Ok(entityData) => {
                let ghost pred = |id: Entity| id != childId;
                let mut kept: Vec<Entity> = Vec::new();
                let mut i: usize = 0;
                while i < entityData.children.len()
                    invariant
                        i <= entityData.children@.len(),
                        kept@ == entityData.children@.take(i as int).filter(pred),
                        pred == (|id: Entity| id != childId),
                    decreases entityData.children@.len() - i,
                {
                    let child = entityData.children[i];
                    proof {
                        let s = entityData.children@.take(i + 1);
                        assert(s.drop_last() =~= entityData.children@.take(i as int));
                        assert(s.last() == child);
                        reveal(Seq::filter);
                    }
                    if child != childId {
                        kept.push(child);
                    }
                    i += 1;
                }
                assert(entityData.children@.take(i as int) =~= entityData.children@);
                entityData.children = kept;
            },
            Err(e) => {
                return Err(Error::EntityError(e));
            },
        }
        assert(self.systemManager.members().dom() =~= self.entityManager.entities().dom());
        Ok(())
    }

    /// The children of the entity.
    pub fn GetChildren(&self, entityId: Entity) -> (r: Result<&Vec<Entity>, Error>)
        requires
            self.wf(),
            entityId.id < self.id_bound(),
        ensures
            match r {
                Ok(children) => self.entities().contains_key(entityId.id) && children@ == self.entities()[entityId.id].children@,
                Err(err) => err == Error::EntityError(EntityDoesNotExist) && !self.entities().contains_key(entityId.id),
            },
    {
        match self.entityManager.EntityData(entityId) {
            Ok(entityData) => Ok(&entityData.children),
            Err(e) => Err(Error::EntityError(e)),
        }
    }

    /// The parent of the entity, if it has one.
    pub fn GetParent(&self, entityId: Entity) -> (r: Result<Option<Entity>, Error>)
        requires
            self.wf(),
            entityId.id < self.id_bound(),
        ensures
            match r {
                Ok(parent) => self.entities().contains_key(entityId.id) && parent == self.entities()[entityId.id].parent,
                Err(err) => err == Error::EntityError(EntityDoesNotExist) && !self.entities().contains_key(entityId.id),
            },
    {
        match self.entityManager.EntityData(entityId) {
            Ok(entityData) => Ok(entityData.parent),
            Err(e) => Err(Error::EntityError(e)),
        }
    }

    /// Adds a layer named `layerName`; each layer may be added once.
    pub fn AddLayer(&mut self, layerName: &str)
        requires
            old(self).wf(),
            !old(self).layers().contains(layerName@),
            old(self).layers().len() + 1 < MAX_COMPONENT_TYPES,
        ensures
            old(self).frame(*final(self)),
            final(self).entities() == old(self).entities(),
            final(self).layers() == old(self).layers().push(layerName@),
    {
        self.layerManager.AddLayer(layerName);
    }

    /// Puts the entity in the layer named `layerName`, which must exist.
    pub fn AddEntityToLayer(&mut self, entityId: Entity, layerName: &str) -> (r: Result<(), Error>)
        requires
            old(self).wf(),
            entityId.id < old(self).id_bound(),
            old(self).layers().contains(layerName@),
        ensures
            old(self).frame(*final(self)),
            final(self).layers() == old(self).layers(),
            match r {
                Ok(()) => {
                    &&& old(self).record_replaced(*final(self), entityId.id)
                    &&& same_but_layers(final(self).entities()[entityId.id], old(self).entities()[entityId.id])
                    &&& final(self).entities()[entityId.id].layerMask@
                        == old(self).entities()[entityId.id].layerMask@.insert(old(self).layers().index_of(layerName@) as usize)
                },
                Err(err) => {
                    &&& err == Error::EntityError(EntityDoesNotExist)
                    &&& !old(self).entities().contains_key(entityId.id)
                    &&& final(self).entities() == old(self).entities()
                },
            },
    {
        match self.entityManager.MutableEntityData(entityId) {
            Ok(entityData) => {
                self.layerManager.AddLayerToMask(layerName, &mut entityData.layerMask);
            },
            Err(e) => {
                return Err(Error::EntityError(e));
            },
        }
        assert(self.systemManager.members().dom() =~= self.entityManager.entities().dom());
        Ok(())
    }

    /// Puts the entity in each of the layers named in `layerNames`, which must all exist.
    pub fn AddEntityToLayers(&mut self, entityId: Entity, layerNames: Vec<&str>) -> (r: Result<(), Error>)
        requires
            old(self).wf(),
            entityId.id < old(self).id_bound(),
            forall|i: int| 0 <= i < layerNames@.len() ==> old(self).layers().contains(#[trigger] layerNames@[i]@),
        ensures
            old(self).frame(*final(self)),
            final(self).layers() == old(self).layers(),
            match r {
                Ok(()) => {
                    &&& old(self).record_replaced(*final(self), entityId.id)
                    &&& same_but_layers(final(self).entities()[entityId.id], old(self).entities()[entityId.id])
                    &&& final(self).entities()[entityId.id].layerMask@ == old(self).entities()[entityId.id].layerMask@
                        + Set::new(|k: usize| exists|i: int| 0 <= i < layerNames@.len()
                            && k == old(self).layers().index_of(#[trigger] layerNames@[i]@))
                },
                Err(err) => {
                    &&& err == Error::EntityError(EntityDoesNotExist)
                    &&& !old(self).entities().contains_key(entityId.id)
                    &&& final(self).entities() == old(self).entities()
                },
            },
    {
        match self.entityManager.MutableEntityData(entityId) {
            Ok(entityData) => {
                self.layerManager.AddLayersToMask(layerNames, &mut entityData.layerMask);
            },
            Err(e) => {
                return Err(Error::EntityError(e));
            },
        }
        assert(self.systemManager.members().dom() =~= self.entityManager.entities().dom());
        Ok(())
    }
}


/// The systems track exactly the live entities.
pub proof fn law_live_entities_are_tracked<C>(ecs: EntityComponentSystem<C>)
    requires
        ecs.wf(),
    ensures
        ecs.memberships().dom() == ecs.entities().dom(),
{
}

} // verus!
