use vstd::prelude::*;
use super::entity::Entity;
use std::collections::HashMap;
use crate::util::opaqueVector::{OpaqueVector, resized_capacity};
use super::componentAllocator::{dense_index, same_except, lemma_untouched_entry_stays};

verus! {

broadcast use vstd::std_specs::hash::group_hash_axioms;

#[derive(Debug, Clone, Copy, PartialEq, Eq, Structural)]
pub enum Error {
    ComponentAlreadyAllocated,
    EntityNotFound,
    MaximumComponentsExceeded,
}

pub const MAX_COMPONENTS: usize = 5128;

/// Stores the components of one type densely, one per entity, in an `OpaqueVector`.
pub struct OpaqueComponentAllocator<T> {
    components: OpaqueVector<T>,
    entityToIndex: HashMap<usize, usize>,
    indexToEntity: HashMap<usize, usize>,
    componentTypeName: String,
}

impl<T> OpaqueComponentAllocator<T> {
    /// The component of each entity (by id) that has one.
    pub closed spec fn view(&self) -> Map<usize, T> {
        Map::new(
            |e: usize| self.entityToIndex@.contains_key(e),
            |e: usize| self.components@[self.entityToIndex@[e] as int],
        )
    }

    proof fn lemma_view_dom(&self)
        ensures
            self@.dom() == self.entityToIndex@.dom(),
    {
        assert(self@.dom() =~= self.entityToIndex@.dom());
    }

    /// How many components are stored.
    pub closed spec fn count(&self) -> nat {
        self.components@.len()
    }

    pub closed spec fn component_name(&self) -> Seq<char> {
        self.componentTypeName@
    }

    pub closed spec fn wf(&self) -> bool {
        &&& dense_index(self.components@.len(), self.entityToIndex@, self.indexToEntity@)
        &&& self.components.wf()
        &&& self.components.dropped() == 0
        &&& 1 <= self.components.capacity() <= 7692
        &&& self.entityToIndex@.dom().finite()
        &&& self.entityToIndex@.dom().len() == self.components@.len()
    }

    pub fn New(componentTypeName: &str) -> (r: OpaqueComponentAllocator<T>)
        ensures
            r.wf(),
            r@ == Map::<usize, T>::empty(),
            r.count() == 0,
            r.component_name() == componentTypeName@,
    {
        let r = OpaqueComponentAllocator {
            components: OpaqueVector::New(10),
            entityToIndex: HashMap::new(),
            indexToEntity: HashMap::new(),
            componentTypeName: componentTypeName.to_owned(),
        };
        assert(r@ =~= Map::<usize, T>::empty());
        r
    }

    /// Stores `component` for `entity`, unless the allocator is full or the
    /// entity already has one.
    pub fn AllocateComponent(&mut self, entity: Entity, component: T) -> (r: Result<(), Error>)
        requires
            old(self).wf(),
        ensures
            final(self).wf(),
            final(self).component_name() == old(self).component_name(),
            same_except(old(self)@, final(self)@, entity.id),
            match r {
                Ok(()) => {
                    &&& old(self).count() < MAX_COMPONENTS
                    &&& !old(self)@.contains_key(entity.id)
                    &&& final(self)@ == old(self)@.insert(entity.id, component)
                    &&& final(self).count() == old(self).count() + 1
                },
                Err(Error::MaximumComponentsExceeded) => {
                    &&& old(self).count() >= MAX_COMPONENTS
                    &&& final(self)@ == old(self)@
                    &&& final(self).count() == old(self).count()
                },
                Err(Error::ComponentAlreadyAllocated) => {
                    &&& old(self).count() < MAX_COMPONENTS
                    &&& old(self)@.contains_key(entity.id)
                    &&& final(self)@ == old(self)@
                    &&& final(self).count() == old(self).count()
                },
                Err(Error::EntityNotFound) => false,
            },
    {
        if self.components.GetLength() >= MAX_COMPONENTS {
            return Err(Error::MaximumComponentsExceeded);
        }
        if self.entityToIndex.contains_key(&entity.id) {
            return Err(Error::ComponentAlreadyAllocated);
        }
        let newIndex = self.components.GetLength();
        assert(!self.indexToEntity@.contains_key(newIndex));
        self.entityToIndex.insert(entity.id, newIndex);
        self.indexToEntity.insert(newIndex, entity.id);
        self.components.Push(component);
        assert(self@ =~= old(self)@.insert(entity.id, component));
        Ok(())
    }

    /// Removes the component of `entity`; the last component takes its place.
    /// Freeing the only component stored leaves an empty allocator with
    /// fresh storage.
    pub fn FreeComponent(&mut self, entity: Entity) -> (r: Result<(), Error>)
        requires
            old(self).wf(),
        ensures
            final(self).wf(),
            final(self).component_name() == old(self).component_name(),
            same_except(old(self)@, final(self)@, entity.id),
            match r {
                Ok(()) => {
                    &&& old(self)@.contains_key(entity.id)
                    &&& final(self)@ == old(self)@.remove(entity.id)
                    &&& final(self).count() == old(self).count() - 1
                },
                Err(e) => {
                    &&& e == Error::EntityNotFound
                    &&& !old(self)@.contains_key(entity.id)
                    &&& final(self)@ == old(self)@
                    &&& final(self).count() == old(self).count()
                },
            },
    {
        let currentIndex = match self.entityToIndex.get(&entity.id) {
            Some(i) => *i,
            None => {
                return Err(Error::EntityNotFound);
            },
        };
        let ghost e = entity.id;
        let ghost old_view = self@;
        let ghost old_components = self.components@;
        if self.components.GetLength() == 1 {
            self.components = OpaqueVector::New(10);
            self.entityToIndex.remove(&entity.id);
            self.indexToEntity.remove(&0);
            proof {
                assert(currentIndex == 0);
                assert forall|x: usize| #[trigger] old(self).entityToIndex@.contains_key(x) implies x == e by {
                    assert(old(self).entityToIndex@[x] < 1);
                    assert(old(self).indexToEntity@[old(self).entityToIndex@[x]] == x);
                    assert(old(self).indexToEntity@[0] == e);
                }
                assert(self.entityToIndex@.dom() =~= Set::<usize>::empty());
                assert(self@ =~= old_view.remove(e));
            }
            return Ok(());
        }
        let lastIndex = self.components.GetLength() - 1;
        assert(old_components.len() >= 2);
        let ghost cap0 = self.components.capacity() as int;
        let last = self.components.Pop();
        assert(self.components.capacity() == resized_capacity(cap0, old_components.len() - 1));
        assert(1 <= self.components.capacity() <= 7692);
        if currentIndex != lastIndex {
            *self.components.Get(currentIndex) = last;
        }
        assert(self.components@ =~= old_components.update(currentIndex as int, old_components[lastIndex as int]).drop_last());
        let lastEntityId = match self.indexToEntity.get(&lastIndex) {
            Some(id) => *id,
            None => {
                assert(false);
                return Err(Error::EntityNotFound);
            },
        };
        self.entityToIndex.insert(lastEntityId, currentIndex);
        self.indexToEntity.insert(currentIndex, lastEntityId);
        self.indexToEntity.remove(&lastIndex);
        self.entityToIndex.remove(&entity.id);
        proof {
            let len = self.components@.len();
            let e2i = self.entityToIndex@;
            let i2e = self.indexToEntity@;
            assert forall|x: usize| #[trigger] e2i.contains_key(x) implies e2i[x] < len
                && i2e.contains_key(e2i[x]) && i2e[e2i[x]] == x by {
                if x == lastEntityId {
                } else {
                    assert(old(self).entityToIndex@.contains_key(x));
                    assert(old(self).entityToIndex@[x] != lastIndex);
                }
            }
            assert forall|i: usize| #[trigger] i2e.contains_key(i) <==> i < len by {
            }
            assert forall|i: usize| i < len implies #[trigger] e2i.contains_key(i2e[i]) && e2i[i2e[i]]
                == i by {
                if i == currentIndex {
                } else {
                    assert(old(self).indexToEntity@.contains_key(i));
                    let x = old(self).indexToEntity@[i];
                    assert(old(self).entityToIndex@.contains_key(x));
                    assert(old(self).entityToIndex@[x] == i);
                    assert(old(self).entityToIndex@[e] == currentIndex);
                    assert(old(self).entityToIndex@[lastEntityId] == lastIndex);
                    assert(x != e);
                }
            }
            assert forall|x: usize| #[trigger] self@.contains_key(x) == old_view.remove(e).contains_key(x)
                by {
            }
            assert forall|x: usize| self@.contains_key(x) implies #[trigger] self@[x] == old_view.remove(
                e,
            )[x] by {
                if x == lastEntityId {
                } else {
                    assert(old(self).entityToIndex@[x] != lastIndex);
                    assert(old(self).entityToIndex@[x] != currentIndex);
                }
            }
            assert(self@ =~= old_view.remove(e));
        }
        Ok(())
    }

    /// Whether `entity` has a component here.
    pub fn HasComponent(&self, entity: Entity) -> (r: bool)
        ensures
            r == self@.contains_key(entity.id),
    {
        self.entityToIndex.contains_key(&entity.id)
    }

    /// The component of `entity`, to read or change.
    pub fn GetComponent(&mut self, entity: Entity) -> (r: Result<&mut T, Error>)
        requires
            old(self).wf(),
        ensures
            same_except(old(self)@, final(self)@, entity.id),
            match r {
                Ok(c) => {
                    &&& old(self)@.contains_key(entity.id)
                    &&& *c == old(self)@[entity.id]
                    &&& final(self)@ == old(self)@.insert(entity.id, *final(c))
                    &&& final(self).wf()
                    &&& final(self).count() == old(self).count()
                    &&& final(self).component_name() == old(self).component_name()
                },
                Err(e) => {
                    &&& e == Error::EntityNotFound
                    &&& !old(self)@.contains_key(entity.id)
                    &&& *final(self) == *old(self)
                },
            },
    {
        let index = match self.entityToIndex.get(&entity.id) {
            Some(i) => *i,
            None => {
                return Err(Error::EntityNotFound);
            },
        };
        Ok(self.components.Get(index))
    }

    pub fn GetComponentTypeName(&self) -> (r: &str)
        ensures
            r@ == self.component_name(),
    {
        self.componentTypeName.as_str()
    }
}

/// An allocator stores one component per entity that has one: its count is
/// the number of entities it holds a component of.
pub proof fn law_count_is_the_number_of_holders<T>(a: OpaqueComponentAllocator<T>)
    requires
        a.wf(),
    ensures
        a@.dom().finite(),
        a.count() == a@.dom().len(),
{
    a.lemma_view_dom();
}

/// An entity keeps its component while other entities come and go: along a
/// run of allocators, each made from the one before it by a call about an
/// entity other than `e` (allocating, freeing, or reading a component, which
/// keep every other entity's entry, as their contracts say), `e` keeps its
/// entry.
pub proof fn law_calls_on_others_keep_a_component<T>(
    runs: Seq<OpaqueComponentAllocator<T>>,
    touched: Seq<usize>,
    e: usize,
)
    requires
        runs.len() == touched.len() + 1,
        forall|i: int| 0 <= i < touched.len() ==> #[trigger] touched[i] != e && same_except(runs[i]@, runs[i + 1]@, touched[i]),
    ensures
        runs.last()@.contains_key(e) == runs[0]@.contains_key(e),
        runs[0]@.contains_key(e) ==> runs.last()@[e] == runs[0]@[e],
{
    let maps = Seq::new(runs.len(), |i: int| runs[i]@);
    assert forall|i: int| 0 <= i < touched.len() implies #[trigger] touched[i] != e && same_except(maps[i], maps[i + 1], touched[i]) by {
        assert(touched[i] != e && same_except(runs[i]@, runs[i + 1]@, touched[i]));
    }
    lemma_untouched_entry_stays(maps, touched, e);
    assert(maps.last() == runs.last()@);
}

} // verus!
