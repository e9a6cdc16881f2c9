use vstd::prelude::*;
use super::entity::Entity;
use std::collections::HashMap;

verus! {

broadcast use vstd::std_specs::hash::group_hash_axioms;

#[derive(Debug, Clone, Copy, PartialEq, Eq, Structural)]
pub enum Error {
    ComponentAlreadyAllocated,
    EntityNotFound,
    MaximumComponentsExceeded,
}

pub const MAX_COMPONENTS: usize = 5128;

/// Marks the component allocators.
pub trait IComponentAllocator {
}

/// Stores the components of one type densely, one per entity.
pub struct ComponentAllocator<T: Copy> {
    components: Vec<T>,
    entityToIndex: HashMap<usize, usize>,
    indexToEntity: HashMap<usize, usize>,
    componentTypeName: String,
}

impl<T: Copy> IComponentAllocator for ComponentAllocator<T> {
}

/// The two index maps are inverse bijections between the entities that have
/// a component and the positions `0..len` of the component list.
pub open spec fn dense_index(
    len: nat,
    entityToIndex: Map<usize, usize>,
    indexToEntity: Map<usize, usize>,
) -> bool {
    &&& forall|e: usize| #[trigger]
        entityToIndex.contains_key(e) ==> entityToIndex[e] < len && indexToEntity.contains_key(
            entityToIndex[e],
        ) && indexToEntity[entityToIndex[e]] == e
    &&& forall|i: usize| #[trigger] indexToEntity.contains_key(i) <==> i < len
    &&& forall|i: usize|
        i < len ==> #[trigger] entityToIndex.contains_key(indexToEntity[i])
            && entityToIndex[indexToEntity[i]] == i
}

impl<T: Copy> ComponentAllocator<T> {
    /// The component of each entity (by id) that has one.
    pub closed spec fn view(&self) -> Map<usize, T> {
        Map::new(
            |e: usize| self.entityToIndex@.contains_key(e),
            |e: usize| self.components@[self.entityToIndex@[e] as int],
        )
    }

    proof fn lemma_view_dom(&self)
        ensures
            self@.dom() == self.entityToIndex@.dom(),
    {
        assert(self@.dom() =~= self.entityToIndex@.dom());
    }

    /// How many components are stored.
    pub closed spec fn count(&self) -> nat {
        self.components@.len()
    }

    pub closed spec fn component_name(&self) -> Seq<char> {
        self.componentTypeName@
    }

    pub closed spec fn wf(&self) -> bool {
        &&& dense_index(self.components@.len(), self.entityToIndex@, self.indexToEntity@)
        &&& self.entityToIndex@.dom().finite()
        &&& self.entityToIndex@.dom().len() == self.components@.len()
    }

    pub fn New(componentTypeName: &str) -> (r: ComponentAllocator<T>)
        ensures
            r.wf(),
            r@ == Map::<usize, T>::empty(),
            r.count() == 0,
            r.component_name() == componentTypeName@,
    {
        let r = ComponentAllocator {
            components: Vec::new(),
            entityToIndex: HashMap::new(),
            indexToEntity: HashMap::new(),
            componentTypeName: componentTypeName.to_owned(),
        };
        assert(r@ =~= Map::<usize, T>::empty());
        r
    }

    /// What allocating `c` for entity `f` does, by its outcome `r`: it
    /// stores `c` unless the allocator is full or `f` already has one, which
    /// leave it as it was.
    pub open spec fn allocates(self, after: Self, f: usize, c: T, r: Result<(), Error>) -> bool {
        match r {
            Ok(()) => {
                &&& self.count() < MAX_COMPONENTS
                &&& !self@.contains_key(f)
                &&& after@ == self@.insert(f, c)
                &&& after.count() == self.count() + 1
            },
            Err(Error::MaximumComponentsExceeded) => {
                &&& self.count() >= MAX_COMPONENTS
                &&& after@ == self@
                &&& after.count() == self.count()
            },
            Err(Error::ComponentAlreadyAllocated) => {
                &&& self.count() < MAX_COMPONENTS
                &&& self@.contains_key(f)
                &&& after@ == self@
                &&& after.count() == self.count()
            },
            Err(Error::EntityNotFound) => false,
        }
    }

    /// What freeing the component of entity `f` does, by its outcome `r`: it
    /// takes `f`'s component away, or finds none and leaves the allocator as
    /// it was.
    pub open spec fn frees(self, after: Self, f: usize, r: Result<(), Error>) -> bool {
        match r {
            Ok(()) => {
                &&& self@.contains_key(f)
                &&& after@ == self@.remove(f)
                &&& after.count() == self.count() - 1
            },
            Err(e) => {
                &&& e == Error::EntityNotFound
                &&& !self@.contains_key(f)
                &&& after@ == self@
                &&& after.count() == self.count()
            },
        }
    }

    /// Stores `component` for `entity`, unless the allocator is full or the
    /// entity already has one.
    pub fn AllocateComponent(&mut self, entity: Entity, component: T) -> (r: Result<(), Error>)
        requires
            old(self).wf(),
        ensures
            final(self).wf(),
            final(self).component_name() == old(self).component_name(),
            same_except(old(self)@, final(self)@, entity.id),
            old(self).allocates(*final(self), entity.id, component, r),
    {
        if self.components.len() >= MAX_COMPONENTS {
            return Err(Error::MaximumComponentsExceeded);
        }
        if self.entityToIndex.contains_key(&entity.id) {
            return Err(Error::ComponentAlreadyAllocated);
        }
        let newIndex = self.components.len();
        assert(!self.indexToEntity@.contains_key(newIndex));
        self.entityToIndex.insert(entity.id, newIndex);
        self.indexToEntity.insert(newIndex, entity.id);
        self.components.push(component);
        assert(self@ =~= old(self)@.insert(entity.id, component));
        Ok(())
    }

    /// Removes the component of `entity`; the last component takes its place.
    pub fn FreeComponent(&mut self, entity: Entity) -> (r: Result<(), Error>)
        requires
            old(self).wf(),
        ensures
            final(self).wf(),
            final(self).component_name() == old(self).component_name(),
            same_except(old(self)@, final(self)@, entity.id),
            old(self).frees(*final(self), entity.id, r),
    {
        let currentIndex = match self.entityToIndex.get(&entity.id) {
            Some(i) => *i,
            None => {
                return Err(Error::EntityNotFound);
            },
        };
        let ghost e = entity.id;
        let ghost old_view = self@;
        let lastIndex = self.components.len() - 1;
        let lastComponent = self.components[lastIndex];
        self.components.set(currentIndex, lastComponent);
        let lastEntityId = match self.indexToEntity.get(&lastIndex) {
            Some(id) => *id,
            None => {
                assert(false);
                return Err(Error::EntityNotFound);
            },
        };
        self.entityToIndex.insert(lastEntityId, currentIndex);
        self.indexToEntity.insert(currentIndex, lastEntityId);
        self.indexToEntity.remove(&lastIndex);
        self.entityToIndex.remove(&entity.id);
        self.components.pop();
        proof {
            let len = self.components@.len();
            let e2i = self.entityToIndex@;
            let i2e = self.indexToEntity@;
            assert forall|x: usize| #[trigger] e2i.contains_key(x) implies e2i[x] < len
                && i2e.contains_key(e2i[x]) && i2e[e2i[x]] == x by {
                if x == lastEntityId {
                } else {
                    assert(old(self).entityToIndex@.contains_key(x));
                    assert(old(self).entityToIndex@[x] != lastIndex);
                }
            }
            assert forall|i: usize| #[trigger] i2e.contains_key(i) <==> i < len by {
            }
            assert forall|i: usize| i < len implies #[trigger] e2i.contains_key(i2e[i]) && e2i[i2e[i]]
                == i by {
                if i == currentIndex {
                } else {
                    assert(old(self).indexToEntity@.contains_key(i));
                    let x = old(self).indexToEntity@[i];
                    assert(old(self).entityToIndex@.contains_key(x));
                    assert(old(self).entityToIndex@[x] == i);
                    assert(old(self).entityToIndex@[e] == currentIndex);
                    assert(old(self).entityToIndex@[lastEntityId] == lastIndex);
                    assert(x != e);
                    assert(x != lastEntityId);
                }
            }
            assert forall|x: usize| #[trigger] self@.contains_key(x) == old_view.remove(e).contains_key(x)
                by {
            }
            assert forall|x: usize| self@.contains_key(x) implies #[trigger] self@[x] == old_view.remove(
                e,
            )[x] by {
                if x == lastEntityId {
                } else {
                    assert(old(self).entityToIndex@[x] != lastIndex);
                    assert(old(self).entityToIndex@[x] != currentIndex);
                }
            }
            assert(self@ =~= old_view.remove(e));
        }
        Ok(())
    }

    /// The component of `entity`, to read or change.
    pub fn GetComponent(&mut self, entity: Entity) -> (r: Result<&mut T, Error>)
        requires
            old(self).wf(),
        ensures
            same_except(old(self)@, final(self)@, entity.id),
            match r {
                Ok(c) => {
                    &&& old(self)@.contains_key(entity.id)
                    &&& *c == old(self)@[entity.id]
                    &&& final(self)@ == old(self)@.insert(entity.id, *final(c))
                    &&& final(self).wf()
                    &&& final(self).count() == old(self).count()
                    &&& final(self).component_name() == old(self).component_name()
                },
                Err(e) => {
                    &&& e == Error::EntityNotFound
                    &&& !old(self)@.contains_key(entity.id)
                    &&& *final(self) == *old(self)
                },
            },
    {
        let index = match self.entityToIndex.get(&entity.id) {
            Some(i) => *i,
            None => {
                return Err(Error::EntityNotFound);
            },
        };
        let r = &mut self.components[index];
        Ok(r)
    }

    pub fn GetComponentTypeName(&self) -> (r: &str)
        ensures
            r@ == self.component_name(),
    {
        self.componentTypeName.as_str()
    }
}

/// `after` holds, for every entity but `f`, what `before` holds: the same
/// entities other than `f` have a component, and the same one.
pub open spec fn same_except<T>(before: Map<usize, T>, after: Map<usize, T>, f: usize) -> bool {
    forall|k: usize| k != f ==> {
        &&& (#[trigger] after.contains_key(k)) == before.contains_key(k)
        &&& before.contains_key(k) ==> after[k] == before[k]
    }
}

/// Along a run of maps, each of which holds what the one before it holds
/// for every entity but the one in `touched` at that step, entity `e`, never
/// touched, keeps its entry: held or not, and the same component.
pub proof fn lemma_untouched_entry_stays<T>(runs: Seq<Map<usize, T>>, touched: Seq<usize>, e: usize)
    requires
        runs.len() == touched.len() + 1,
        forall|i: int| 0 <= i < touched.len() ==> #[trigger] touched[i] != e && same_except(runs[i], runs[i + 1], touched[i]),
    ensures
        runs.last().contains_key(e) == runs[0].contains_key(e),
        runs[0].contains_key(e) ==> runs.last()[e] == runs[0][e],
    decreases touched.len(),
{
    if touched.len() > 0 {
        let n = touched.len() - 1;
        assert forall|i: int| 0 <= i < touched.drop_last().len() implies #[trigger] touched.drop_last()[i] != e
            && same_except(runs.drop_last()[i], runs.drop_last()[i + 1], touched.drop_last()[i]) by {
            assert(touched[i] != e && same_except(runs[i], runs[i + 1], touched[i]));
        }
        lemma_untouched_entry_stays(runs.drop_last(), touched.drop_last(), e);
        assert(touched[n] != e && same_except(runs[n], runs[n + 1], touched[n]));
        assert(runs.drop_last().last() == runs[n]);
        assert(runs.drop_last()[0] == runs[0]);
    }
}

/// An entity keeps its component while other entities come and go: along a
/// run of allocators, each made from the one before it by a call about an
/// entity other than `e` (allocating, freeing, or reading a component, which
/// keep every other entity's entry, as their contracts say), `e` keeps its
/// entry; so after allocating `c` for `e`, `e`'s component is found to be
/// `c`, and an entity without one finds none.
pub proof fn law_calls_on_others_keep_a_component<T: Copy>(
    runs: Seq<ComponentAllocator<T>>,
    touched: Seq<usize>,
    e: usize,
)
    requires
        runs.len() == touched.len() + 1,
        forall|i: int| 0 <= i < touched.len() ==> #[trigger] touched[i] != e && same_except(runs[i]@, runs[i + 1]@, touched[i]),
    ensures
        runs.last()@.contains_key(e) == runs[0]@.contains_key(e),
        runs[0]@.contains_key(e) ==> runs.last()@[e] == runs[0]@[e],
{
    let maps = Seq::new(runs.len(), |i: int| runs[i]@);
    assert forall|i: int| 0 <= i < touched.len() implies #[trigger] touched[i] != e && same_except(maps[i], maps[i + 1], touched[i]) by {
        assert(touched[i] != e && same_except(runs[i]@, runs[i + 1]@, touched[i]));
    }
    lemma_untouched_entry_stays(maps, touched, e);
    assert(maps.last() == runs.last()@);
}

/// An allocator stores one component per entity that has one: its count is
/// the number of entities it holds a component of.
pub proof fn law_count_is_the_number_of_holders<T: Copy>(a: ComponentAllocator<T>)
    requires
        a.wf(),
    ensures
        a@.dom().finite(),
        a.count() == a@.dom().len(),
{
    a.lemma_view_dom();
}

/// A call that changes an allocator, with its outcome: allocating a
/// component for an entity, or freeing an entity's component.
pub enum AllocatorCall<T> {
    Allocate(usize, T, Result<(), Error>),
    Free(usize, Result<(), Error>),
}

/// Whether `after` is `before` once `call` was made, as the contracts of
/// `AllocateComponent` and `FreeComponent` say.
pub open spec fn makes_call<T: Copy>(before: ComponentAllocator<T>, after: ComponentAllocator<T>, call: AllocatorCall<T>) -> bool {
    match call {
        AllocatorCall::Allocate(f, c, r) => before.allocates(after, f, c, r),
        AllocatorCall::Free(f, r) => before.frees(after, f, r),
    }
}

/// Whether `call` frees the component of entity `e`.
pub open spec fn frees_entity<T>(call: AllocatorCall<T>, e: usize) -> bool {
    call matches AllocatorCall::Free(f, _) && f == e
}

/// Whether `call` gives entity `e` a component.
pub open spec fn gives_entity<T>(call: AllocatorCall<T>, e: usize) -> bool {
    call matches AllocatorCall::Allocate(f, _, Ok(())) && f == e
}

/// Along a run of allocators made by `calls`, none of which frees `e`'s
/// component, `e` keeps the component it holds at the start.
proof fn lemma_held_component_stays<T: Copy>(runs: Seq<ComponentAllocator<T>>, calls: Seq<AllocatorCall<T>>, e: usize, c: T)
    requires
        runs.len() == calls.len() + 1,
        forall|i: int| 0 <= i < calls.len() ==> makes_call(runs[i], runs[i + 1], #[trigger] calls[i]),
        forall|i: int| 0 <= i < calls.len() ==> !frees_entity(#[trigger] calls[i], e),
        runs[0]@.contains_key(e),
        runs[0]@[e] == c,
    ensures
        runs.last()@.contains_key(e),
        runs.last()@[e] == c,
    decreases calls.len(),
{
    if calls.len() > 0 {
        let n = calls.len() - 1;
        assert forall|i: int| 0 <= i < calls.drop_last().len() implies makes_call(runs.drop_last()[i], runs.drop_last()[i + 1], #[trigger] calls.drop_last()[i]) by {
            assert(makes_call(runs[i], runs[i + 1], calls[i]));
        }
        assert forall|i: int| 0 <= i < calls.drop_last().len() implies !frees_entity(#[trigger] calls.drop_last()[i], e) by {
            assert(!frees_entity(calls[i], e));
        }
        lemma_held_component_stays(runs.drop_last(), calls.drop_last(), e, c);
        assert(makes_call(runs[n], runs[n + 1], calls[n]));
        assert(!frees_entity(calls[n], e));
        assert(runs.drop_last().last() == runs[n]);
    }
}

/// Along a run of allocators made by `calls`, none of which gives `f` a
/// component, an entity `f` that holds none at the start holds none at the
/// end.
proof fn lemma_missing_component_stays_missing<T: Copy>(runs: Seq<ComponentAllocator<T>>, calls: Seq<AllocatorCall<T>>, f: usize)
    requires
        runs.len() == calls.len() + 1,
        forall|i: int| 0 <= i < calls.len() ==> makes_call(runs[i], runs[i + 1], #[trigger] calls[i]),
        forall|i: int| 0 <= i < calls.len() ==> !gives_entity(#[trigger] calls[i], f),
        !runs[0]@.contains_key(f),
    ensures
        !runs.last()@.contains_key(f),
    decreases calls.len(),
{
    if calls.len() > 0 {
        let n = calls.len() - 1;
        assert forall|i: int| 0 <= i < calls.drop_last().len() implies makes_call(runs.drop_last()[i], runs.drop_last()[i + 1], #[trigger] calls.drop_last()[i]) by {
            assert(makes_call(runs[i], runs[i + 1], calls[i]));
        }
        assert forall|i: int| 0 <= i < calls.drop_last().len() implies !gives_entity(#[trigger] calls.drop_last()[i], f) by {
            assert(!gives_entity(calls[i], f));
        }
        lemma_missing_component_stays_missing(runs.drop_last(), calls.drop_last(), f);
        assert(makes_call(runs[n], runs[n + 1], calls[n]));
        assert(!gives_entity(calls[n], f));
        assert(runs.drop_last().last() == runs[n]);
    }
}

/// After allocating `c` for entity `e` succeeds, any run of further
/// allocations and freeings that does not free `e`'s component leaves `e`
/// with `c`: reading `e`'s component then gives `c`.
pub proof fn law_allocated_component_is_found<T: Copy>(runs: Seq<ComponentAllocator<T>>, calls: Seq<AllocatorCall<T>>, e: usize, c: T)
    requires
        runs.len() == calls.len() + 1,
        forall|i: int| 0 <= i < calls.len() ==> makes_call(runs[i], runs[i + 1], #[trigger] calls[i]),
        calls.len() > 0,
        calls[0] == AllocatorCall::Allocate(e, c, Ok(())),
        forall|i: int| 1 <= i < calls.len() ==> !frees_entity(#[trigger] calls[i], e),
    ensures
        runs.last()@.contains_key(e),
        runs.last()@[e] == c,
{
    assert(makes_call(runs[0], runs[1], calls[0]));
    assert(runs[1]@ == runs[0]@.insert(e, c));
    let rest = runs.drop_first();
    let later = calls.drop_first();
    assert forall|i: int| 0 <= i < later.len() implies makes_call(rest[i], rest[i + 1], #[trigger] later[i]) by {
        assert(makes_call(runs[i + 1], runs[i + 2], calls[i + 1]));
    }
    assert forall|i: int| 0 <= i < later.len() implies !frees_entity(#[trigger] later[i], e) by {
        assert(!frees_entity(calls[i + 1], e));
    }
    lemma_held_component_stays(rest, later, e, c);
    assert(rest.last() == runs.last());
}

/// An entity that never got a component, or whose component was freed,
/// finds none after any run of allocations and freeings that does not give
/// it one: reading its component then fails with `EntityNotFound`.
pub proof fn law_entity_without_component_is_not_found<T: Copy>(runs: Seq<ComponentAllocator<T>>, calls: Seq<AllocatorCall<T>>, f: usize)
    requires
        runs.len() == calls.len() + 1,
        forall|i: int| 0 <= i < calls.len() ==> makes_call(runs[i], runs[i + 1], #[trigger] calls[i]),
        !runs[0]@.contains_key(f) || (calls.len() > 0 && frees_entity(calls[0], f)),
        forall|i: int| 0 <= i < calls.len() ==> !gives_entity(#[trigger] calls[i], f),
    ensures
        !runs.last()@.contains_key(f),
{
    if !runs[0]@.contains_key(f) {
        lemma_missing_component_stays_missing(runs, calls, f);
    } else {
        assert(makes_call(runs[0], runs[1], calls[0]));
        assert(!runs[1]@.contains_key(f));
        let rest = runs.drop_first();
        let later = calls.drop_first();
        assert forall|i: int| 0 <= i < later.len() implies makes_call(rest[i], rest[i + 1], #[trigger] later[i]) by {
            assert(makes_call(runs[i + 1], runs[i + 2], calls[i + 1]));
        }
        assert forall|i: int| 0 <= i < later.len() implies !gives_entity(#[trigger] later[i], f) by {
            assert(!gives_entity(calls[i + 1], f));
        }
        lemma_missing_component_stays_missing(rest, later, f);
        assert(rest.last() == runs.last());
    }
}

} // verus!
