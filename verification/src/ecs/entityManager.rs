use vstd::prelude::*;
use std::collections::VecDeque;
use super::entity::Entity;
use super::signature::Signature;
use super::layerManager::LayerMask;
use super::typeIdMaker::TypeIdMaker;

verus! {

/// The entity asked for is not alive.
#[derive(Debug, Clone, Copy, PartialEq, Eq, Structural)]
pub struct EntityDoesNotExist;

/// What is kept of each live entity.
pub struct EntityData {
    pub baseEntity: Entity,
    pub name: String,
    pub tag: String,
    pub signature: Signature,
    pub children: Vec<Entity>,
    pub parent: Option<Entity>,
    pub layerMask: LayerMask,
}

/// The data of an entity just created: no name, tag, components, children,
/// parent or layers.
pub open spec fn fresh_data(d: EntityData, e: Entity) -> bool {
    &&& d.baseEntity == e
    &&& d.name@ == Seq::<char>::empty()
    &&& d.tag@ == Seq::<char>::empty()
    &&& d.signature@ == Set::<usize>::empty()
    &&& d.children@ == Seq::<Entity>::empty()
    &&& d.parent is None
    &&& d.layerMask@ == Set::<usize>::empty()
}

/// Creates and deletes entities, reusing the ids of deleted ones first
/// (oldest first), and keeps their data densely.
pub struct EntityManager {
    entityIdQueue: VecDeque<usize>,
    entityData: Vec<EntityData>,
    entityToIndex: Vec<Option<usize>>,
}

impl EntityManager {
    /// The data of each live entity, by id.
    pub closed spec fn entities(&self) -> Map<usize, EntityData> {
        Map::new(
            |id: usize| id < self.entityToIndex@.len() && self.entityToIndex@[id as int] is Some,
            |id: usize| self.entityData@[self.entityToIndex@[id as int]->0 as int],
        )
    }

    /// The ids of deleted entities, in the order they will be handed out again.
    pub closed spec fn free_ids(&self) -> Seq<usize> {
        self.entityIdQueue@
    }

    /// How many ids have been handed out: every id below it was, no id above it was.
    pub closed spec fn id_bound(&self) -> nat {
        self.entityToIndex@.len()
    }

    /// The id of the entity whose data is stored last, if any.
    pub closed spec fn last_stored(&self) -> Option<usize> {
        if self.entityData@.len() == 0 {
            None
        } else {
            Some(self.entityData@.last().baseEntity.id)
        }
    }

    /// The id the next created entity gets.
    pub open spec fn next_id(&self) -> usize {
        if self.free_ids().len() > 0 {
            self.free_ids()[0]
        } else {
            self.id_bound() as usize
        }
    }

    pub closed spec fn wf(&self) -> bool {
        &&& self.entityToIndex@.len() == self.entityData@.len() + self.entityIdQueue@.len()
        &&& self.entityToIndex@.len() <= usize::MAX
        &&& forall|id: int|
            0 <= id < self.entityToIndex@.len() && #[trigger] self.entityToIndex@[id] is Some
                ==> self.entityToIndex@[id]->0 < self.entityData@.len() && self.entityData@[self.entityToIndex@[id]->0 as int].baseEntity.id
                == id
        &&& forall|k: int|
            0 <= k < self.entityData@.len() ==> (#[trigger] self.entityData@[k]).baseEntity.id
                < self.entityToIndex@.len() && self.entityToIndex@[self.entityData@[k].baseEntity.id as int]
                == Some(k as usize)
        &&& forall|i: int|
            0 <= i < self.entityIdQueue@.len() ==> #[trigger] self.entityIdQueue@[i]
                < self.entityToIndex@.len() && self.entityToIndex@[self.entityIdQueue@[i] as int] is None
        &&& forall|i: int, j: int|
            0 <= i < j < self.entityIdQueue@.len() ==> self.entityIdQueue@[i] != self.entityIdQueue@[j]
    }

    pub fn New() -> (r: EntityManager)
        ensures
            r.wf(),
            r.entities() == Map::<usize, EntityData>::empty(),
            r.free_ids() == Seq::<usize>::empty(),
            r.id_bound() == 0,
    {
        let r = EntityManager {
            entityIdQueue: VecDeque::new(),
            entityData: Vec::new(),
            entityToIndex: Vec::new(),
        };
        assert(r.entities() =~= Map::<usize, EntityData>::empty());
        r
    }

    /// Creates an entity with fresh data, reusing the oldest deleted id if
    /// there is one and otherwise the next unused id.
    pub fn CreateEntity(&mut self, componentIdMaker: &mut TypeIdMaker) -> (r: Entity)
        requires
            old(self).wf(),
            old(self).id_bound() < usize::MAX,
        ensures
            final(self).wf(),
            r.id == old(self).next_id(),
            r.id < final(self).id_bound(),
            !old(self).entities().contains_key(r.id),
            final(self).entities().contains_key(r.id),
            fresh_data(final(self).entities()[r.id], r),
            final(self).entities().remove(r.id) == old(self).entities(),
            final(self).free_ids() == if old(self).free_ids().len() > 0 {
                old(self).free_ids().drop_first()
            } else {
                old(self).free_ids()
            },
            final(self).id_bound() == if old(self).free_ids().len() > 0 {
                old(self).id_bound()
            } else {
                old(self).id_bound() + 1
            },
            final(self).last_stored() == Some(r.id),
            final(componentIdMaker)@ == old(componentIdMaker)@,
    {
        let numEntities = self.entityData.len();
        let newId = match self.entityIdQueue.pop_front() {
            Some(id) => id,
            None => numEntities,
        };
        assert(newId < usize::MAX);
        let newEntity = Entity { id: newId };
        let signature = Signature::New();
        self.entityData.push(
            EntityData {
                baseEntity: newEntity,
                name: String::new(),
                tag: String::new(),
                signature: signature,
                children: Vec::new(),
                parent: None,
                layerMask: LayerMask::New(),
            },
        );
        let newIndex = self.entityData.len() - 1;
        let ghost data1 = self.entityData@;
        let ghost queue1 = self.entityIdQueue@;
        if self.entityToIndex.len() <= newId {
            let mut i = self.entityToIndex.len();
            while i < newId + 1
                invariant
                    newId < usize::MAX,
                    self.entityData@ == data1,
                    self.entityIdQueue@ == queue1,
                    old(self).entityToIndex@.len() <= i,
                    self.entityToIndex@.len() == i,
                    i <= newId + 1,
                    forall|k: int| 0 <= k < old(self).entityToIndex@.len() ==> self.entityToIndex@[k]
                        == old(self).entityToIndex@[k],
                    forall|k: int|
                        old(self).entityToIndex@.len() <= k < i ==> self.entityToIndex@[k] is None,
                decreases newId + 1 - i,
            {
                self.entityToIndex.push(None);
                i += 1;
            }
        }
        self.entityToIndex.set(newId, Some(newIndex));
        proof {
            let n = old(self).entityData@.len();
            assert forall|id: usize| #[trigger] self.entities().contains_key(id) && id != newId implies old(
                self,
            ).entities().contains_key(id) && self.entities()[id] == old(self).entities()[id] by {
            }
            assert(self.entities().remove(newId) =~= old(self).entities());
            if old(self).free_ids().len() > 0 {
                assert(self.entityIdQueue@ =~= old(self).entityIdQueue@.drop_first());
            }
        }
        newEntity
    }

    /// Whether `entityId` is alive. Ids that were never handed out are left out.
    pub fn IsEntityAlive(&self, entityId: Entity) -> (r: bool)
        requires
            entityId.id < self.id_bound(),
        ensures
            r == self.entities().contains_key(entityId.id),
    {
        let inRange = entityId.id < self.entityToIndex.len();
        let isSome = self.entityToIndex[entityId.id].is_some();
        inRange && isSome
    }

    /// Deletes `entityId` and queues its id for reuse; the data stored last
    /// takes the place of its data. Deleting the entity whose data is stored
    /// last is left out: the manager writes past the end of its data there.
    #[verifier::spinoff_prover]
    pub fn DeleteEntity(&mut self, entityId: Entity) -> (r: Result<(), EntityDoesNotExist>)
        requires
            old(self).wf(),
            entityId.id < old(self).id_bound(),
            old(self).entities().contains_key(entityId.id) ==> old(self).last_stored() != Some(
                entityId.id,
            ),
        ensures
            final(self).wf(),
            final(self).id_bound() == old(self).id_bound(),
            match r {
                Ok(()) => {
                    &&& old(self).entities().contains_key(entityId.id)
                    &&& final(self).entities() == old(self).entities().remove(entityId.id)
                    &&& final(self).free_ids() == old(self).free_ids().push(entityId.id)
                },
                Err(_) => {
                    &&& !old(self).entities().contains_key(entityId.id)
                    &&& final(self).entities() == old(self).entities()
                    &&& final(self).free_ids() == old(self).free_ids()
                    &&& final(self).last_stored() == old(self).last_stored()
                },
            },
    {
        if !self.IsEntityAlive(entityId) {
            return Err(EntityDoesNotExist);
        }
        let index = self.entityToIndex[entityId.id].unwrap();
        let ghost n = self.entityData@.len();
        let ghost oldData = self.entityData@;
        let last = self.entityData.pop().unwrap();
        let lastEntity = last.baseEntity;
        self.entityData.set(index, last);
        self.entityToIndex.set(lastEntity.id, Some(index));
        self.entityToIndex.set(entityId.id, None);
        self.entityIdQueue.push_back(entityId.id);
        proof {
            let e = entityId.id;
            let lid = lastEntity.id;
            let oldIdx = old(self).entityToIndex@;
            assert(oldData[index as int].baseEntity.id == e);
            assert(oldData[n - 1] == last);
            assert(oldIdx[lid as int] == Some((n - 1) as usize));
            assert(index != n - 1);
            assert(lid != e);
            assert(self.entityData@ =~= oldData.drop_last().update(index as int, last));
            assert forall|i: int|
                0 <= i < self.entityIdQueue@.len() implies #[trigger] self.entityIdQueue@[i]
                    < self.entityToIndex@.len() && self.entityToIndex@[self.entityIdQueue@[i] as int] is None by {
                if i < old(self).entityIdQueue@.len() {
                    assert(oldIdx[old(self).entityIdQueue@[i] as int] is None);
                }
            }
            assert forall|i: int, j: int|
                0 <= i < j < self.entityIdQueue@.len() implies self.entityIdQueue@[i] != self.entityIdQueue@[j] by {
                if j == self.entityIdQueue@.len() - 1 {
                    assert(oldIdx[old(self).entityIdQueue@[i] as int] is None);
                }
            }
            assert forall|id: int|
                0 <= id < self.entityToIndex@.len() && #[trigger] self.entityToIndex@[id] is Some
                    implies self.entityToIndex@[id]->0 < self.entityData@.len() && self.entityData@[self.entityToIndex@[id]->0 as int].baseEntity.id
                    == id by {
                if id != lid && id != e {
                    let k = oldIdx[id]->0;
                    assert(oldData[k as int].baseEntity.id == id);
                    assert(k != n - 1);
                    assert(k != index);
                }
            }
            assert forall|k: int|
                0 <= k < self.entityData@.len() implies (#[trigger] self.entityData@[k]).baseEntity.id
                    < self.entityToIndex@.len() && self.entityToIndex@[self.entityData@[k].baseEntity.id as int]
                    == Some(k as usize) by {
                if k != index {
                    let x = oldData[k].baseEntity.id;
                    assert(oldIdx[x as int] is Some && oldIdx[x as int]->0 == k);
                    assert(oldIdx[e as int]->0 == index);
                    assert(oldIdx[lid as int]->0 == n - 1);
                    assert(k < n - 1);
                    assert(x != e);
                    assert(x != lid);
                }
            }
            assert forall|id: usize| #[trigger] self.entities().contains_key(id) implies self.entities()[id]
                == old(self).entities()[id] by {
                if id != lid {
                    let k = oldIdx[id as int]->0;
                    assert(oldData[k as int].baseEntity.id == id);
                    assert(k != n - 1);
                    assert(k != index);
                }
            }
            assert(self.entities() =~= old(self).entities().remove(e));
        }
        Ok(())
    }

    /// The data of `entityId`, if it is alive.
    pub fn EntityData(&self, entityId: Entity) -> (r: Result<&EntityData, EntityDoesNotExist>)
        requires
            self.wf(),
            entityId.id < self.id_bound(),
        ensures
            match r {
                Ok(d) => self.entities().contains_key(entityId.id) && *d == self.entities()[entityId.id]
                    && d.baseEntity == entityId,
                Err(_) => !self.entities().contains_key(entityId.id),
            },
    {
        if !self.IsEntityAlive(entityId) {
            return Err(EntityDoesNotExist);
        }
        let index = self.entityToIndex[entityId.id].unwrap();
        Ok(&self.entityData[index])
    }

    /// The data of `entityId`, to change, if it is alive. Its base entity
    /// must stay as it is.
    pub fn MutableEntityData(&mut self, entityId: Entity) -> (r: Result<&mut EntityData, EntityDoesNotExist>)
        requires
            old(self).wf(),
            entityId.id < old(self).id_bound(),
        ensures
            final(self).id_bound() == old(self).id_bound(),
            final(self).free_ids() == old(self).free_ids(),
            match r {
                Ok(d) => {
                    &&& old(self).entities().contains_key(entityId.id)
                    &&& *d == old(self).entities()[entityId.id]
                    &&& d.baseEntity == entityId
                    &&& final(self).entities() == old(self).entities().insert(entityId.id, *final(d))
                    &&& (*final(d)).baseEntity == entityId ==> final(self).wf()
                    &&& (*final(d)).baseEntity == entityId ==> final(self).last_stored() == old(
                        self,
                    ).last_stored()
                },
                Err(_) => {
                    &&& !old(self).entities().contains_key(entityId.id)
                    &&& *final(self) == *old(self)
                },
            },
    {
        if !self.IsEntityAlive(entityId) {
            return Err(EntityDoesNotExist);
        }
        let index = self.entityToIndex[entityId.id].unwrap();
        Ok(&mut self.entityData[index])
    }
}


/// Deleted ids are handed out again oldest first, before any new id: once
/// `e` is deleted, the next entity created gets the oldest id that was
/// already free, or `e` itself when none was.
pub proof fn law_freed_ids_come_back_first(before: EntityManager, after: EntityManager, e: usize)
    requires
        after.free_ids() == before.free_ids().push(e),
    ensures
        after.next_id() == if before.free_ids().len() > 0 {
            before.free_ids()[0]
        } else {
            e
        },
{
}

} // verus!
