use vstd::prelude::*;
use std::collections::{HashMap, HashSet};
use std::any::TypeId;
use super::entity::Entity;
use super::signature::Signature;
use super::typeIdMaker::{TypeIdMaker, type_id_of, distinct, with_registered, index_in};

verus! {

broadcast use vstd::std_specs::hash::group_hash_axioms;

/// A system acts on the entities whose signature equals its own. Its users
/// write the systems.
pub trait System {
    /// The signature of the system, as a set of component ids: what
    /// `GetSignature` returns. An implementor that leaves it out is taken to
    /// have the empty signature.
    open spec fn signature(&self) -> Set<usize> {
        Set::empty()
    }

    fn New(componentIdMaker: TypeIdMaker) -> Self where Self: Sized;

    fn OnEntityEnter(&mut self, entity: Entity);

    fn OnEntityExit(&mut self, entity: Entity);

    fn OnEntityDestroyed(&mut self, entity: Entity);

    /// The signature of the system.
    fn GetSignature(&self) -> (r: Signature)
        ensures
            r@ == self.signature(),
    ;
}

/// The signatures of `systems`, in order.
pub open spec fn signatures_of(systems: Seq<Box<dyn System>>) -> Seq<Set<usize>> {
    Seq::new(systems.len(), |i: int| systems[i].signature())
}

/// `Vec::push` on a list of systems: the system is added at the end and what
/// was there stays in place.
#[verifier::external_body]
fn push_system(systems: &mut Vec<Box<dyn System>>, system: Box<dyn System>)
    ensures
        final(systems)@.len() == old(systems)@.len() + 1,
        forall|i: int| 0 <= i < old(systems)@.len() ==> final(systems)@[i] == old(systems)@[i],
        final(systems)@[old(systems)@.len() as int] == system,
{
    systems.push(system);
}

/// What the system manager tells a system (by index) of an entity: that it
/// enters the system, leaves it, or is destroyed.
pub enum Notice {
    Enter(usize, Entity),
    Exit(usize, Entity),
    Destroyed(usize, Entity),
}

/// Whether system `i`, with signature `signatures[i]`, is told of a change of an
/// entity with signature `signature` that belongs to the systems `member`:
/// it enters a system whose signature now equals its own, and leaves one
/// whose signature no longer does.
pub open spec fn told_of_change(signatures: Seq<Set<usize>>, member: Set<usize>, signature: Set<usize>, i: int) -> bool {
    (signatures[i] == signature) != member.contains(i as usize)
}

/// What the systems are told, in order, when entity `e`, which belongs to
/// the systems `member`, takes signature `signature`, system `i` having
/// signature `signatures[i]`.
pub open spec fn change_notices(signatures: Seq<Set<usize>>, member: Set<usize>, e: Entity, signature: Set<usize>) -> Seq<Notice>
    decreases signatures.len(),
{
    if signatures.len() == 0 {
        Seq::empty()
    } else {
        let i = signatures.len() - 1;
        change_notices(signatures.drop_last(), member, e, signature) + if !told_of_change(signatures, member, signature, i) {
            Seq::<Notice>::empty()
        } else if signatures[i] == signature {
            seq![Notice::Enter(i as usize, e)]
        } else {
            seq![Notice::Exit(i as usize, e)]
        }
    }
}

/// What the systems are told, in order, when entity `e` with signature
/// `signature` is destroyed, system `i` having signature `signatures[i]`: each
/// system whose signature equals the entity's is told.
pub open spec fn destroy_notices(signatures: Seq<Set<usize>>, e: Entity, signature: Set<usize>) -> Seq<Notice>
    decreases signatures.len(),
{
    if signatures.len() == 0 {
        Seq::empty()
    } else {
        let i = signatures.len() - 1;
        destroy_notices(signatures.drop_last(), e, signature) + if signatures[i] == signature {
            seq![Notice::Destroyed(i as usize, e)]
        } else {
            Seq::<Notice>::empty()
        }
    }
}

/// What a system is told of an entity whose signature changed: whether it
/// enters (the system's signature `systemSignature` equals the entity's
/// `entitySignature` and the entity is not a member yet) and whether it
/// leaves (the signatures differ and the entity is a member).
pub fn SignatureStep(isMember: bool, systemSignature: &Signature, entitySignature: &Signature) -> (r: (bool, bool))
    ensures
        r.0 == (systemSignature@ == entitySignature@ && !isMember),
        r.1 == (systemSignature@ != entitySignature@ && isMember),
{
    let same = *systemSignature == *entitySignature;
    (same && !isMember, !same && isMember)
}

/// The systems whose signature equals the entity's: of the first `n`
/// systems, those at the indices where `signatures` holds `signature`.
pub open spec fn matching_systems(signatures: Seq<Set<usize>>, signature: Set<usize>, n: nat) -> Set<usize> {
    Set::new(|i: usize| i < n && signatures[i as int] == signature)
}

/// Holds one system per system type, and tracks which systems each entity belongs to.
pub struct SystemManager {
    systems: Vec<Box<dyn System>>,
    systemIdMaker: TypeIdMaker,
    entityIdToSystemIndex: HashMap<usize, HashSet<usize>>,
    notices: Ghost<Seq<Notice>>,
}

impl SystemManager {
    /// The type of each registered system; a system's index is its position.
    pub closed spec fn system_types(&self) -> Seq<TypeId> {
        self.systemIdMaker@
    }

    /// The registered systems, in the order of their types.
    pub closed spec fn systems(&self) -> Seq<Box<dyn System>> {
        self.systems@
    }

    /// What the systems have been told, in order.
    pub closed spec fn notices(&self) -> Seq<Notice> {
        self.notices@
    }


    /// For each tracked entity (by id), the indices of the systems it belongs to.
    pub closed spec fn members(&self) -> Map<usize, Set<usize>> {
        Map::new(
            |e: usize| self.entityIdToSystemIndex@.contains_key(e),
            |e: usize| self.entityIdToSystemIndex@[e]@,
        )
    }

    pub closed spec fn wf(&self) -> bool {
        &&& distinct(self.systemIdMaker@)
        &&& self.systemIdMaker@.len() == self.systems@.len()
        &&& forall|e: usize, i: usize|
            #[trigger] self.entityIdToSystemIndex@.contains_key(e) && #[trigger] self.entityIdToSystemIndex@[e]@.contains(i)
                ==> i < self.systems@.len()
    }

    pub fn New() -> (r: SystemManager)
        ensures
            r.wf(),
            r.system_types() == Seq::<TypeId>::empty(),
            r.members() == Map::<usize, Set<usize>>::empty(),
            r.systems() == Seq::<Box<dyn System>>::empty(),
            r.notices() == Seq::<Notice>::empty(),
    {
        let r = SystemManager {
            systems: Vec::new(),
            systemIdMaker: TypeIdMaker::New(),
            entityIdToSystemIndex: HashMap::new(),
            notices: Ghost(Seq::empty()),
        };
        assert(r.members() =~= Map::<usize, Set<usize>>::empty());
        r
    }

    /// Adds `system` as the system of type `T`. A second system of a type
    /// already registered is not added.
    pub fn RegisterSystem<T: System + 'static>(&mut self, system: T)
        requires
            old(self).wf(),
        ensures
            final(self).wf(),
            final(self).members() == old(self).members(),
            final(self).notices() == old(self).notices(),
            exists|id: TypeId| final(self).system_types() == with_registered(old(self).system_types(), id)
                && final(self).systems() == if old(self).system_types().contains(id) {
                    old(self).systems()
                } else {
                    old(self).systems().push(Box::new(system))
                },
    {
        let typeId = type_id_of::<T>();
        if self.systemIdMaker.HasTypeIdBeenRegistered(&typeId) {
            assert(self.system_types() == with_registered(old(self).system_types(), typeId));
            return;
        }
        self.systemIdMaker.GetIndexOfTypeId(typeId);
        let ghost before = self.systems@;
        push_system(&mut self.systems, Box::new(system));
        assert(self.systems@.len() == before.len() + 1);
        assert(before.len() == old(self).systems@.len());
        assert forall|e: usize, i: usize|
            #[trigger] self.entityIdToSystemIndex@.contains_key(e) && #[trigger] self.entityIdToSystemIndex@[e]@.contains(i)
            implies i < self.systems@.len() by {
            assert(old(self).entityIdToSystemIndex@.contains_key(e));
            assert(old(self).entityIdToSystemIndex@[e]@.contains(i));
        }
        assert(self.members() =~= old(self).members());
        assert(self.system_types() == with_registered(old(self).system_types(), typeId));
    }

    /// The system of type `T`, if one is registered: the answer is `Some`
    /// exactly when the type id looked up is among the registered ones, and
    /// then it is the system registered at that id's index.
    pub fn GetSystemOfType<T: System + 'static>(&mut self) -> (r: Option<&mut Box<dyn System>>)
        requires
            old(self).wf(),
        ensures
            final(self).wf(),
            final(self).members() == old(self).members(),
            final(self).system_types() == old(self).system_types(),
            final(self).notices() == old(self).notices(),
            exists|id: TypeId| #[trigger] old(self).system_types().contains(id) == (r is Some)
                && (r matches Some(s) ==> *s == old(self).systems()[index_in(old(self).system_types(), id)]),
    {
        let typeId = type_id_of::<T>();
        match self.systemIdMaker.IndexOfTypeId(&typeId) {
            Some(index) => {
                assert(old(self).system_types()[index as int] == typeId);
                let system = &mut self.systems[index];
                assert(*system == old(self).systems()[index_in(old(self).system_types(), typeId)]);
                assert(old(self).system_types().contains(typeId));
                Some(system)
            },
            None => {
                assert(!old(self).system_types().contains(typeId));
                None
            },
        }
    }

    /// `after` is `self` once entity `e`, which belonged to the systems
    /// `member`, took signature `signature`: the entity now belongs to the
    /// systems whose signature equals its own; each system it entered or
    /// left was told so, in order, and no other system was told anything;
    /// and the systems not told are as they were.
    pub open spec fn signature_changed(self, after: Self, e: Entity, signature: Set<usize>, member: Set<usize>) -> bool {
        let signatures = signatures_of(self.systems());
        &&& after.members() == self.members().insert(
            e.id,
            matching_systems(signatures, signature, self.systems().len()),
        )
        &&& after.notices() == self.notices() + change_notices(signatures, member, e, signature)
        &&& after.systems().len() == self.systems().len()
        &&& forall|i: int| 0 <= i < self.systems().len() && !told_of_change(signatures, member, signature, i)
            ==> #[trigger] after.systems()[i] == self.systems()[i]
    }

    /// `after` is `self` once entity `e` with signature `signature` was
    /// destroyed: each system whose signature equals the entity's was told,
    /// in order, and no other system was told anything; the systems not told
    /// are as they were; and the entity is no longer tracked.
    pub open spec fn entity_destroyed(self, after: Self, e: Entity, signature: Set<usize>) -> bool {
        let signatures = signatures_of(self.systems());
        &&& after.members() == self.members().remove(e.id)
        &&& after.notices() == self.notices() + destroy_notices(signatures, e, signature)
        &&& after.systems().len() == self.systems().len()
        &&& forall|i: int| 0 <= i < self.systems().len() && signatures[i] != signature
            ==> #[trigger] after.systems()[i] == self.systems()[i]
    }

    /// Tells every system whose signature equals the entity's that the entity
    /// is destroyed, then stops tracking the entity.
    pub fn OnEntityDestroyed(&mut self, entityId: Entity, entitySignature: Signature)
        requires
            old(self).wf(),
            old(self).members().contains_key(entityId.id),
        ensures
            final(self).wf(),
            final(self).system_types() == old(self).system_types(),
            old(self).entity_destroyed(*final(self), entityId, entitySignature@),
    {
        let ghost n = self.systems@.len();
        let ghost mut reported: Seq<Set<usize>> = Seq::empty();
        let mut idx: usize = 0;
        while idx < self.systems.len()
            invariant
                self.wf(),
                self.members() == old(self).members(),
                self.system_types() == old(self).system_types(),
                n == old(self).systems().len(),
                self.systems@.len() == n,
                idx <= n,
                reported.len() == idx,
                reported == signatures_of(old(self).systems()).take(idx as int),
                forall|j: int| idx <= j < n ==> #[trigger] self.systems@[j] == old(self).systems()[j],
                forall|j: int| 0 <= j < idx && reported[j] != entitySignature@ ==> #[trigger] self.systems@[j] == old(self).systems()[j],
                self.notices() == old(self).notices() + destroy_notices(reported, entityId, entitySignature@),
            decreases self.systems@.len() - idx,
        {
            let systemSignature = self.systems[idx].GetSignature();
            let ghost before = reported;
            proof {
                reported = reported.push(systemSignature@);
                assert(reported.drop_last() =~= before);
            }
            if systemSignature == entitySignature {
                self.systems[idx].OnEntityDestroyed(entityId);
                self.notices = Ghost(self.notices@.push(Notice::Destroyed(idx, entityId)));
            }
            assert(self.notices() =~= old(self).notices() + destroy_notices(reported, entityId, entitySignature@));
            assert(reported =~= signatures_of(old(self).systems()).take(idx + 1));
            idx += 1;
        }
        assert(reported =~= signatures_of(old(self).systems()));
        self.entityIdToSystemIndex.remove(&entityId.id);
        assert(self.members() =~= old(self).members().remove(entityId.id));
    }

    /// Moves the entity into every system whose signature equals the entity's
    /// and out of every other: each system it enters or leaves is told so, in
    /// the order of the systems, and no other system is told anything.
    pub fn OnEntitySignatureChanged(&mut self, entityId: Entity, entitySignature: Signature)
        requires
            old(self).wf(),
            old(self).members().contains_key(entityId.id),
        ensures
            final(self).wf(),
            final(self).system_types() == old(self).system_types(),
            old(self).signature_changed(*final(self), entityId, entitySignature@, old(self).members()[entityId.id]),
    {
        let e = entityId.id;
        let ghost n = self.systems@.len();
        let ghost start = old(self).members()[e];
        let ghost mut reported: Seq<Set<usize>> = Seq::empty();
        let mut idx: usize = 0;
        while idx < self.systems.len()
            invariant
                self.wf(),
                self.system_types() == old(self).system_types(),
                self.systems@.len() == n,
                n == old(self).system_types().len(),
                n == old(self).systems().len(),
                start == old(self).members()[e],
                idx <= n,
                reported.len() == idx,
                reported == signatures_of(old(self).systems()).take(idx as int),
                self.members().contains_key(e),
                self.members().remove(e) == old(self).members().remove(e),
                forall|i: usize| start.contains(i) ==> i < n,
                self.members()[e] == Set::new(
                    |i: usize| (i < idx && reported[i as int] == entitySignature@) || (idx <= i && start.contains(i)),
                ),
                forall|j: int| idx <= j < n ==> #[trigger] self.systems@[j] == old(self).systems()[j],
                forall|j: int| 0 <= j < idx && !told_of_change(reported, start, entitySignature@, j)
                    ==> #[trigger] self.systems@[j] == old(self).systems()[j],
                self.notices() == old(self).notices() + change_notices(reported, start, entityId, entitySignature@),
            decreases n - idx,
        {
            let belongsToSystem = match self.entityIdToSystemIndex.get(&e) {
                Some(set) => set.contains(&idx),
                None => false,
            };
            assert(belongsToSystem == start.contains(idx));
            let systemSignature = self.systems[idx].GetSignature();
            let ghost before = reported;
            proof {
                reported = reported.push(systemSignature@);
                assert(reported.drop_last() =~= before);
            }
            let (enter, exit) = SignatureStep(belongsToSystem, &systemSignature, &entitySignature);
            if enter {
                self.systems[idx].OnEntityEnter(entityId);
                self.notices = Ghost(self.notices@.push(Notice::Enter(idx, entityId)));
                let mut set = self.entityIdToSystemIndex.remove(&e).unwrap();
                set.insert(idx);
                self.entityIdToSystemIndex.insert(e, set);
            }
            if exit {
                self.systems[idx].OnEntityExit(entityId);
                self.notices = Ghost(self.notices@.push(Notice::Exit(idx, entityId)));
                let mut set = self.entityIdToSystemIndex.remove(&e).unwrap();
                set.remove(&idx);
                self.entityIdToSystemIndex.insert(e, set);
            }
            proof {
                assert(self.members()[e] =~= Set::new(
                    |i: usize| (i < idx + 1 && reported[i as int] == entitySignature@) || (idx + 1 <= i && start.contains(i)),
                ));
                assert(self.members().remove(e) =~= old(self).members().remove(e));
                assert(self.notices() =~= old(self).notices() + change_notices(reported, start, entityId, entitySignature@));
                assert(reported =~= signatures_of(old(self).systems()).take(idx + 1));
                assert forall|j: int| 0 <= j < idx + 1 && !told_of_change(reported, start, entitySignature@, j)
                    implies #[trigger] self.systems@[j] == old(self).systems()[j] by {
                    if j < idx {
                        assert(reported[j] == before[j]);
                    }
                }
            }
            idx += 1;
        }
        proof {
            assert(reported =~= signatures_of(old(self).systems()));
            let target = matching_systems(reported, entitySignature@, n);
            assert(self.members()[e] =~= target);
            assert forall|k: usize| #[trigger] self.members().contains_key(k) == old(self).members().insert(e, target).contains_key(k)
                && (self.members().contains_key(k) ==> self.members()[k] == old(self).members().insert(e, target)[k]) by {
                if k != e {
                    assert(self.members().remove(e).contains_key(k) == old(self).members().remove(e).contains_key(k));
                    if self.members().contains_key(k) {
                        assert(self.members().remove(e)[k] == old(self).members().remove(e)[k]);
                    }
                }
            }
            assert(self.members() =~= old(self).members().insert(e, target));
        }
    }

    /// Starts tracking the entity (if it is new, as a member of no system)
    /// and moves it into the systems whose signature equals its own, telling
    /// each system it enters or leaves.
    pub fn OnEntityCreated(&mut self, entityId: Entity, entitySignature: Signature)
        requires
            old(self).wf(),
        ensures
            final(self).wf(),
            final(self).system_types() == old(self).system_types(),
            old(self).signature_changed(
                *final(self),
                entityId,
                entitySignature@,
                if old(self).members().contains_key(entityId.id) {
                    old(self).members()[entityId.id]
                } else {
                    Set::<usize>::empty()
                },
            ),
    {
        if !self.entityIdToSystemIndex.contains_key(&entityId.id) {
            self.entityIdToSystemIndex.insert(entityId.id, HashSet::new());
            assert forall|e: usize, i: usize|
                #[trigger] self.entityIdToSystemIndex@.contains_key(e) && #[trigger] self.entityIdToSystemIndex@[e]@.contains(i)
                implies i < self.systems@.len() by {
                if e != entityId.id {
                    assert(old(self).entityIdToSystemIndex@.contains_key(e));
                }
            }
            assert(self.members()[entityId.id] =~= Set::<usize>::empty());
        }
        let ghost mid = *self;
        assert(mid.members().contains_key(entityId.id));
        assert(mid.members().remove(entityId.id) =~= old(self).members().remove(entityId.id));
        self.OnEntitySignatureChanged(entityId, entitySignature);
        proof {
            let reported = signatures_of(mid.systems());
            let target = matching_systems(reported, entitySignature@, old(self).systems().len());
            assert forall|k: usize| #[trigger] mid.members().insert(entityId.id, target).contains_key(k) == old(self).members().insert(entityId.id, target).contains_key(k)
                && (mid.members().insert(entityId.id, target).contains_key(k) ==> mid.members().insert(entityId.id, target)[k] == old(self).members().insert(entityId.id, target)[k]) by {
                if k != entityId.id {
                    assert(mid.members().remove(entityId.id).contains_key(k) == old(self).members().remove(entityId.id).contains_key(k));
                    if mid.members().contains_key(k) {
                        assert(mid.members().remove(entityId.id)[k] == old(self).members().remove(entityId.id)[k]);
                    }
                }
            }
            assert(mid.members().insert(entityId.id, target) =~= old(self).members().insert(entityId.id, target));
            assert(mid.systems() == old(self).systems());
            assert(mid.notices() == old(self).notices());
            assert(mid.members()[entityId.id] == if old(self).members().contains_key(entityId.id) {
                old(self).members()[entityId.id]
            } else {
                Set::<usize>::empty()
            });
        }
    }
}

} // verus!
