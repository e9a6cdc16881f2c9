use vstd::prelude::*;
use crate::ecs::componentAllocator::{same_except, lemma_untouched_entry_stays};

verus! {

/// The mark of an entity slot that holds no component.
pub const INVALID_ID: usize = usize::MAX;

/// How many entity slots a page of a pool holds.
pub const PAGE_SIZE: usize = 100;

/// An entity, known by its id.
#[derive(Debug, Clone, Copy, PartialEq, Eq, Structural)]
pub struct Entity {
    pub ID: usize,
}

/// The components of one kind, stored densely in the order they were added;
/// a paged sparse index maps each entity id to its component's position.
pub struct Pool<C> {
    EntityList: Vec<Entity>,
    IndexList: Vec<Option<Vec<usize>>>,
    ComponentList: Vec<C>,
}

/// The page that holds the slot of entity `id`.
pub open spec fn page_of(id: usize) -> int {
    id as int / PAGE_SIZE as int
}

/// The place of the slot of entity `id` within its page.
pub open spec fn offset_of(id: usize) -> int {
    id as int % PAGE_SIZE as int
}

/// Where the component at position `s` sits once the component at position
/// `idx` is taken out and the positions below `k` have been moved down.
pub open spec fn shifted(s: usize, idx: usize, k: int) -> usize {
    if s < idx || s as int - 1 >= k {
        s
    } else {
        (s - 1) as usize
    }
}

/// The position that the paged index `pages` gives entity `id`, if any.
pub closed spec fn slot_in(pages: Seq<Option<Vec<usize>>>, id: usize) -> Option<usize> {
    let p = page_of(id);
    if p < pages.len() && pages[p] is Some && pages[p]->0@[offset_of(id)] != INVALID_ID {
        Some(pages[p]->0@[offset_of(id)])
    } else {
        None
    }
}

impl<C> Pool<C> {
    /// The position of the component of entity `id`, if it has one.
    #[verifier::inline]
    spec fn slot(&self, id: usize) -> Option<usize> {
        slot_in(self.IndexList@, id)
    }

    /// The component of each entity (by id) that has one.
    pub closed spec fn view(&self) -> Map<usize, C> {
        Map::new(
            |id: usize| self.slot(id) is Some,
            |id: usize| self.ComponentList@[self.slot(id)->0 as int],
        )
    }

    /// The ids of the entities that have a component, in the order the
    /// components are stored.
    pub closed spec fn order(&self) -> Seq<usize> {
        self.EntityList@.map_values(|e: Entity| e.ID)
    }

    pub closed spec fn wf(&self) -> bool {
        &&& self.EntityList@.len() == self.ComponentList@.len()
        &&& self.EntityList@.len() < usize::MAX
        &&& forall|p: int| 0 <= p < self.IndexList@.len() && #[trigger] self.IndexList@[p] is Some
            ==> self.IndexList@[p]->0@.len() == PAGE_SIZE
        &&& forall|id: usize| #[trigger] slot_in(self.IndexList@, id) is Some
            ==> slot_in(self.IndexList@, id)->0 < self.EntityList@.len()
            && self.EntityList@[slot_in(self.IndexList@, id)->0 as int].ID == id
        &&& forall|k: int| 0 <= k < self.EntityList@.len()
            ==> #[trigger] slot_in(self.IndexList@, self.EntityList@[k].ID) == Some(k as usize)
    }

    /// `after` is `self` once entity `id` got `component`, stored after the
    /// components already there.
    pub open spec fn adds(self, after: Self, id: usize, component: C) -> bool {
        &&& after.wf()
        &&& after@ == self@.insert(id, component)
        &&& after.order() == self.order().push(id)
    }

    /// `after` is `self` once the component of entity `id` was taken away,
    /// the components stored after it moving down one place.
    pub open spec fn removes(self, after: Self, id: usize) -> bool {
        &&& after.wf()
        &&& after@ == self@.remove(id)
        &&& after.order() == self.order().remove(self.order().index_of(id))
        &&& after.order().len() == self.order().len() - 1
    }

    pub fn New() -> (r: Pool<C>)
        ensures
            r.wf(),
            r@ == Map::<usize, C>::empty(),
            r.order() == Seq::<usize>::empty(),
    {
        let r = Pool { EntityList: Vec::new(), IndexList: Vec::new(), ComponentList: Vec::new() };
        assert(r@ =~= Map::<usize, C>::empty());
        assert(r.order() =~= Seq::<usize>::empty());
        r
    }

    /// Whether `entity` has a component in this pool.
    pub fn HasComponent(&self, entity: Entity) -> (r: bool)
        requires
            self.wf(),
        ensures
            r == self@.contains_key(entity.ID),
    {
        let pageIDX = entity.ID / PAGE_SIZE;
        if pageIDX >= self.IndexList.len() {
            return false;
        }
        match &self.IndexList[pageIDX] {
            Some(page) => page[entity.ID % PAGE_SIZE] != INVALID_ID,
            None => false,
        }
    }

    /// Gives `entity` the component `component`; its page of the index is
    /// made (all slots empty) when it is first needed.
    pub fn AddComponent(&mut self, entity: Entity, component: C)
        requires
            old(self).wf(),
            !old(self)@.contains_key(entity.ID),
            old(self).order().len() + 1 < usize::MAX,
        ensures
            old(self).adds(*final(self), entity.ID, component),
            same_except(old(self)@, final(self)@, entity.ID),
    {
        let pageIDX = entity.ID / PAGE_SIZE;
        let offset = entity.ID % PAGE_SIZE;
        while self.IndexList.len() <= pageIDX
            invariant
                self.wf(),
                self@ == old(self)@,
                self.order() == old(self).order(),
                self.EntityList@ == old(self).EntityList@,
                self.ComponentList@ == old(self).ComponentList@,
                forall|id: usize| #[trigger] self.slot(id) == old(self).slot(id),
                pageIDX == page_of(entity.ID),
            decreases pageIDX + 1 - self.IndexList@.len(),
        {
            let ghost before = *self;
            self.IndexList.push(None);
            assert forall|id: usize| #[trigger] self.slot(id) == before.slot(id) by {
                if page_of(id) < before.IndexList@.len() {
                    assert(self.IndexList@[page_of(id)] == before.IndexList@[page_of(id)]);
                }
            }
            assert forall|p: int| 0 <= p < self.IndexList@.len() && #[trigger] self.IndexList@[p] is Some
                implies self.IndexList@[p]->0@.len() == PAGE_SIZE by {
                assert(p < before.IndexList@.len());
                assert(before.IndexList@[p] is Some);
            }
            assert(self@ =~= before@);
            assert forall|k: int| 0 <= k < self.EntityList@.len()
                implies #[trigger] self.slot(self.EntityList@[k].ID) == Some(k as usize) by {
                assert(before.slot(before.EntityList@[k].ID) == Some(k as usize));
            }
        }
        if self.IndexList[pageIDX].is_none() {
            let mut page: Vec<usize> = Vec::new();
            let mut i: usize = 0;
            while i < PAGE_SIZE
                invariant
                    i <= PAGE_SIZE,
                    page@.len() == i,
                    forall|k: int| 0 <= k < i ==> page@[k] == INVALID_ID,
                decreases PAGE_SIZE - i,
            {
                page.push(INVALID_ID);
                i += 1;
            }
            let ghost before = *self;
            self.IndexList.set(pageIDX, Some(page));
            assert forall|id: usize| #[trigger] self.slot(id) == before.slot(id) by {
                if page_of(id) == pageIDX {
                    assert(self.IndexList@[page_of(id)]->0@[offset_of(id)] == INVALID_ID);
                }
            }
            assert forall|p: int| 0 <= p < self.IndexList@.len() && #[trigger] self.IndexList@[p] is Some
                implies self.IndexList@[p]->0@.len() == PAGE_SIZE by {
                if p != pageIDX {
                    assert(before.IndexList@[p] is Some);
                }
            }
            assert(self@ =~= before@);
            assert forall|k: int| 0 <= k < self.EntityList@.len()
                implies #[trigger] self.slot(self.EntityList@[k].ID) == Some(k as usize) by {
                assert(before.slot(before.EntityList@[k].ID) == Some(k as usize));
            }
        }
        let newIdx = self.EntityList.len();
        let ghost before = *self;
        match &mut self.IndexList[pageIDX] {
            Some(page) => {
                page.set(offset, newIdx);
            },
            None => {},
        }
        self.EntityList.push(entity);
        self.ComponentList.push(component);
        proof {
            assert(self.IndexList@[pageIDX as int]->0@ == before.IndexList@[pageIDX as int]->0@.update(offset as int, newIdx));
            assert forall|id: usize| #[trigger] self.slot(id) == if id == entity.ID { Some(newIdx) } else { before.slot(id) } by {
                if page_of(id) == pageIDX && id != entity.ID {
                    assert(offset_of(id) != offset);
                }
            }
            assert forall|p: int| 0 <= p < self.IndexList@.len() && #[trigger] self.IndexList@[p] is Some
                implies self.IndexList@[p]->0@.len() == PAGE_SIZE by {
                if p != pageIDX {
                    assert(before.IndexList@[p] is Some);
                }
            }
            assert forall|id: usize| #[trigger] self.slot(id) is Some implies self.slot(id)->0 < self.EntityList@.len()
                && self.EntityList@[self.slot(id)->0 as int].ID == id by {
                if id != entity.ID {
                    assert(before.slot(id) is Some);
                }
            }
            assert forall|k: int| 0 <= k < self.EntityList@.len()
                implies #[trigger] self.slot(self.EntityList@[k].ID) == Some(k as usize) by {
                if k < newIdx {
                    assert(before.slot(before.EntityList@[k].ID) == Some(k as usize));
                    assert(before.EntityList@[k].ID != entity.ID);
                }
            }
            assert(self@ =~= old(self)@.insert(entity.ID, component));
            assert(self.order() =~= old(self).order().push(entity.ID));
        }
    }

    /// Takes away the component of `entity`; the components stored after it
    /// move down one place, keeping their order.
    pub fn RemoveComponent(&mut self, entity: Entity)
        requires
            old(self).wf(),
            old(self)@.contains_key(entity.ID),
        ensures
            old(self).removes(*final(self), entity.ID),
            same_except(old(self)@, final(self)@, entity.ID),
    {
        let pageIDX = entity.ID / PAGE_SIZE;
        let offset = entity.ID % PAGE_SIZE;
        let idx: usize = match &self.IndexList[pageIDX] {
            Some(page) => page[offset],
            None => 0,
        };
        assert(self.slot(entity.ID) == Some(idx));
        let ghost before = *self;
        match &mut self.IndexList[pageIDX] {
            Some(page) => {
                page.set(offset, INVALID_ID);
            },
            None => {},
        }
        self.EntityList.remove(idx);
        self.ComponentList.remove(idx);
        proof {
            assert(self.IndexList@[pageIDX as int]->0@ == before.IndexList@[pageIDX as int]->0@.update(offset as int, INVALID_ID));
            assert forall|id: usize| #[trigger] self.slot(id) == if id == entity.ID { None } else { before.slot(id) } by {
                if page_of(id) == pageIDX && id != entity.ID {
                    assert(offset_of(id) != offset);
                }
            }
        }
        let mut k: usize = idx;
        while k < self.EntityList.len()
            invariant
                idx <= k <= self.EntityList@.len(),
                before.wf(),
                before.slot(entity.ID) == Some(idx),
                self.EntityList@ == before.EntityList@.remove(idx as int),
                self.ComponentList@ == before.ComponentList@.remove(idx as int),
                self.IndexList@.len() == before.IndexList@.len(),
                forall|p: int| 0 <= p < self.IndexList@.len() ==> (#[trigger] self.IndexList@[p] is Some) == (before.IndexList@[p] is Some),
                forall|p: int| 0 <= p < self.IndexList@.len() && #[trigger] self.IndexList@[p] is Some
                    ==> self.IndexList@[p]->0@.len() == PAGE_SIZE,
                forall|id: usize| #[trigger] self.slot(id) == if id == entity.ID {
                    None
                } else {
                    match before.slot(id) {
                        Some(s) => Some(shifted(s, idx, k as int)),
                        None => None,
                    }
                },
            decreases self.EntityList@.len() - k,
        {
            let e = self.EntityList[k].ID;
            let ghost mid = *self;
            assert(before.EntityList@[k + 1].ID == e);
            assert(before.slot(e) == Some((k + 1) as usize));
            match &mut self.IndexList[e / PAGE_SIZE] {
                Some(page) => {
                    page.set(e % PAGE_SIZE, k);
                },
                None => {},
            }
            proof {
                assert(self.IndexList@[page_of(e)]->0@ == mid.IndexList@[page_of(e)]->0@.update(offset_of(e), k));
                assert forall|id: usize| #[trigger] self.slot(id) == if id == e { Some(k) } else { mid.slot(id) } by {
                    if page_of(id) == page_of(e) && id != e {
                        assert(offset_of(id) != offset_of(e));
                    }
                }
                assert forall|id: usize| #[trigger] self.slot(id) == if id == entity.ID {
                    None
                } else {
                    match before.slot(id) {
                        Some(s) => Some(shifted(s, idx, k + 1)),
                        None => None,
                    }
                } by {
                    if id != e && id != entity.ID {
                        if let Some(s) = before.slot(id) {
                            assert(before.EntityList@[s as int].ID == id);
                            assert(s != k + 1);
                        }
                    }
                }
            }
            k += 1;
        }
        proof {
            let n = before.EntityList@.len();
            assert forall|id: usize| #[trigger] self.slot(id) is Some implies self.slot(id)->0 < self.EntityList@.len()
                && self.EntityList@[self.slot(id)->0 as int].ID == id by {
                let s = before.slot(id)->0;
                assert(before.EntityList@[s as int].ID == id);
                assert(s != idx);
            }
            assert forall|j: int| 0 <= j < self.EntityList@.len()
                implies #[trigger] self.slot(self.EntityList@[j].ID) == Some(j as usize) by {
                if j < idx {
                    assert(before.slot(before.EntityList@[j].ID) == Some(j as usize));
                } else {
                    assert(before.slot(before.EntityList@[j + 1].ID) == Some((j + 1) as usize));
                }
            }
            assert forall|id: usize| #[trigger] self@.contains_key(id) == old(self)@.remove(entity.ID).contains_key(id) by {}
            assert forall|id: usize| self@.contains_key(id) implies #[trigger] self@[id] == old(self)@.remove(entity.ID)[id] by {
                let s = before.slot(id)->0;
                assert(s != idx);
            }
            assert(self@ =~= old(self)@.remove(entity.ID));
            let ord = old(self).order();
            assert(ord[idx as int] == entity.ID);
            assert forall|j: int| 0 <= j < idx implies ord[j] != entity.ID by {
                assert(before.slot(before.EntityList@[j].ID) == Some(j as usize));
            }
            assert(ord.index_of(entity.ID) == idx) by {
                assert(ord.contains(entity.ID));
            }
            assert(self.order() =~= ord.remove(idx as int));
        }
    }

    /// The component of `entity`.
    pub fn GetComponent(&self, entity: Entity) -> (r: &C)
        requires
            self.wf(),
            self@.contains_key(entity.ID),
        ensures
            *r == self@[entity.ID],
    {
        let pageIDX = entity.ID / PAGE_SIZE;
        let idx: usize = match &self.IndexList[pageIDX] {
            Some(page) => page[entity.ID % PAGE_SIZE],
            None => 0,
        };
        &self.ComponentList[idx]
    }

    /// The component of `entity`, to change.
    pub fn GetComponentMut(&mut self, entity: Entity) -> (r: &mut C)
        requires
            old(self).wf(),
            old(self)@.contains_key(entity.ID),
        ensures
            *r == old(self)@[entity.ID],
            final(self).wf(),
            final(self)@ == old(self)@.insert(entity.ID, *final(r)),
            final(self).order() == old(self).order(),
            same_except(old(self)@, final(self)@, entity.ID),
    {
        let pageIDX = entity.ID / PAGE_SIZE;
        let idx: usize = match &self.IndexList[pageIDX] {
            Some(page) => page[entity.ID % PAGE_SIZE],
            None => 0,
        };
        &mut self.ComponentList[idx]
    }
}

/// One pool per component kind; a kind is known by its index.
pub struct Registry<C> {
    Pools: Vec<Pool<C>>,
}

impl<C> Registry<C> {
    /// The components of kind `kind`, by entity id.
    pub closed spec fn components(&self, kind: usize) -> Map<usize, C> {
        if kind < self.Pools@.len() {
            self.Pools@[kind as int]@
        } else {
            Map::empty()
        }
    }

    /// How many components of kind `kind` are stored.
    pub closed spec fn count(&self, kind: usize) -> nat {
        if kind < self.Pools@.len() {
            self.Pools@[kind as int].order().len()
        } else {
            0
        }
    }

    /// How many kinds have a pool.
    pub closed spec fn kind_count(&self) -> nat {
        self.Pools@.len()
    }

    pub closed spec fn wf(&self) -> bool {
        forall|i: int| 0 <= i < self.Pools@.len() ==> #[trigger] self.Pools@[i].wf()
    }

    pub fn New() -> (r: Registry<C>)
        ensures
            r.wf(),
            r.kind_count() == 0,
            forall|kind: usize| r.components(kind) == Map::<usize, C>::empty() && r.count(kind) == 0,
    {
        Registry { Pools: Vec::new() }
    }

    /// Gives `entity` the component `component` of kind `compID`; the pools
    /// of kinds up to `compID` are made when first needed.
    pub fn AddComponent(&mut self, compID: usize, entity: Entity, component: C)
        requires
            old(self).wf(),
            !old(self).components(compID).contains_key(entity.ID),
            old(self).count(compID) + 1 < usize::MAX,
            compID < usize::MAX,
        ensures
            final(self).wf(),
            final(self).kind_count() == if compID < old(self).kind_count() {
                old(self).kind_count() as int
            } else {
                compID + 1
            },
            final(self).components(compID) == old(self).components(compID).insert(entity.ID, component),
            final(self).count(compID) == old(self).count(compID) + 1,
            forall|kind: usize| kind != compID ==> final(self).components(kind) == old(self).components(kind)
                && final(self).count(kind) == old(self).count(kind),
    {
        while self.Pools.len() <= compID
            invariant
                self.wf(),
                compID < usize::MAX,
                old(self).Pools@.len() <= self.Pools@.len(),
                self.Pools@.len() <= if compID < old(self).Pools@.len() {
                    old(self).Pools@.len() as int
                } else {
                    compID + 1
                },
                forall|kind: usize| self.components(kind) == old(self).components(kind)
                    && self.count(kind) == old(self).count(kind),
                forall|i: int| 0 <= i < old(self).Pools@.len() ==> self.Pools@[i] == old(self).Pools@[i],
            decreases compID + 1 - self.Pools@.len(),
        {
            let ghost before = *self;
            let pool = Pool::New();
            self.Pools.push(pool);
            assert forall|kind: usize| self.components(kind) == before.components(kind)
                && self.count(kind) == before.count(kind) by {
                if kind as int == before.Pools@.len() {
                    assert(self.Pools@[kind as int]@ =~= Map::<usize, C>::empty());
                }
            }
        }
        let ghost before = *self;
        let pool = &mut self.Pools[compID];
        pool.AddComponent(entity, component);
        assert forall|kind: usize| kind != compID implies self.components(kind) == before.components(kind)
            && self.count(kind) == before.count(kind) by {
            if kind < self.Pools@.len() {
                assert(self.Pools@[kind as int] == before.Pools@[kind as int]);
            }
        }
    }

    /// Takes away the component of kind `compID` of `entity`.
    pub fn RemoveComponent(&mut self, compID: usize, entity: Entity)
        requires
            old(self).wf(),
            old(self).components(compID).contains_key(entity.ID),
        ensures
            final(self).wf(),
            final(self).kind_count() == old(self).kind_count(),
            final(self).components(compID) == old(self).components(compID).remove(entity.ID),
            final(self).count(compID) == old(self).count(compID) - 1,
            forall|kind: usize| kind != compID ==> final(self).components(kind) == old(self).components(kind)
                && final(self).count(kind) == old(self).count(kind),
    {
        let ghost before = *self;
        let pool = &mut self.Pools[compID];
        pool.RemoveComponent(entity);
        assert forall|kind: usize| kind != compID implies self.components(kind) == before.components(kind)
            && self.count(kind) == before.count(kind) by {
            if kind < self.Pools@.len() {
                assert(self.Pools@[kind as int] == before.Pools@[kind as int]);
            }
        }
    }

    /// Whether `entity` has a component of kind `compID`.
    pub fn HasComponent(&mut self, compID: usize, entity: Entity) -> (r: bool)
        requires
            old(self).wf(),
        ensures
            *final(self) == *old(self),
            r == old(self).components(compID).contains_key(entity.ID),
    {
        if compID >= self.Pools.len() {
            return false;
        }
        self.Pools[compID].HasComponent(entity)
    }

    /// The component of kind `compID` of `entity`.
    pub fn GetComponent(&mut self, compID: usize, entity: Entity) -> (r: &C)
        requires
            old(self).wf(),
            old(self).components(compID).contains_key(entity.ID),
        ensures
            *final(self) == *old(self),
            *r == old(self).components(compID)[entity.ID],
    {
        self.Pools[compID].GetComponent(entity)
    }

    /// The component of kind `compID` of `entity`, to change.
    pub fn GetComponentMut(&mut self, compID: usize, entity: Entity) -> (r: &mut C)
        requires
            old(self).wf(),
            old(self).components(compID).contains_key(entity.ID),
        ensures
            *r == old(self).components(compID)[entity.ID],
            final(self).wf(),
            final(self).kind_count() == old(self).kind_count(),
            final(self).components(compID) == old(self).components(compID).insert(entity.ID, *final(r)),
            final(self).count(compID) == old(self).count(compID),
            forall|kind: usize| kind != compID ==> final(self).components(kind) == old(self).components(kind)
                && final(self).count(kind) == old(self).count(kind),
    {
        let pool = &mut self.Pools[compID];
        pool.GetComponentMut(entity)
    }
}


/// Adding a component for an entity that had none and taking it away again
/// leaves the pool's components and their order as they were.
pub proof fn law_remove_undoes_add<C>(pool: Pool<C>, added: Pool<C>, removed: Pool<C>, id: usize, c: C)
    requires
        pool.wf(),
        !pool@.contains_key(id),
        pool.adds(added, id, c),
        added.removes(removed, id),
    ensures
        removed@ == pool@,
        removed.order() == pool.order(),
{
    assert(pool@.insert(id, c).remove(id) =~= pool@);
    let order = pool.order();
    if order.contains(id) {
        let k = choose|k: int| 0 <= k < order.len() && order[k] == id;
        assert(slot_in(pool.IndexList@, pool.EntityList@[k].ID) == Some(k as usize));
        assert(false);
    }
    let pushed = order.push(id);
    assert(pushed[order.len() as int] == id);
    assert(pushed.contains(id));
    let k = pushed.index_of(id);
    if k < order.len() {
        assert(order[k] == id);
    }
    assert(pushed.remove(k) =~= order);
}

/// An entity keeps its component while other entities come and go: along a
/// run of pools, each made from the one before it by a call about an entity
/// other than `e` (adding, removing, or changing a component, which keep
/// every other entity's entry, as their contracts say), `e` keeps its entry;
/// so after adding `c` for `e`, `e`'s component is found to be `c`.
pub proof fn law_pool_calls_on_others_keep_a_component<C>(runs: Seq<Pool<C>>, touched: Seq<usize>, e: usize)
    requires
        runs.len() == touched.len() + 1,
        forall|i: int| 0 <= i < touched.len() ==> #[trigger] touched[i] != e && same_except(runs[i]@, runs[i + 1]@, touched[i]),
    ensures
        runs.last()@.contains_key(e) == runs[0]@.contains_key(e),
        runs[0]@.contains_key(e) ==> runs.last()@[e] == runs[0]@[e],
{
    let maps = Seq::new(runs.len(), |i: int| runs[i]@);
    assert forall|i: int| 0 <= i < touched.len() implies #[trigger] touched[i] != e && same_except(maps[i], maps[i + 1], touched[i]) by {
        assert(touched[i] != e && same_except(runs[i]@, runs[i + 1]@, touched[i]));
    }
    lemma_untouched_entry_stays(maps, touched, e);
    assert(maps.last() == runs.last()@);
}

/// A call that changes a pool: adding a component for an entity that has
/// none, or removing the component of an entity that has one.
pub enum PoolCall<C> {
    Add(usize, C),
    Remove(usize),
}

/// Whether `after` is `before` once `call` was made, as the requirements and
/// contracts of `AddComponent` and `RemoveComponent` say.
pub open spec fn pool_makes_call<C>(before: Pool<C>, after: Pool<C>, call: PoolCall<C>) -> bool {
    match call {
        PoolCall::Add(f, c) => !before@.contains_key(f) && before.adds(after, f, c),
        PoolCall::Remove(f) => before@.contains_key(f) && before.removes(after, f),
    }
}

/// Whether `call` removes the component of entity `e`.
pub open spec fn removes_entity<C>(call: PoolCall<C>, e: usize) -> bool {
    call matches PoolCall::Remove(f) && f == e
}

/// Along a run of pools made by `calls`, none of which removes `e`'s
/// component, `e` keeps the component it holds at the start.
proof fn lemma_pool_component_stays<C>(runs: Seq<Pool<C>>, calls: Seq<PoolCall<C>>, e: usize, c: C)
    requires
        runs.len() == calls.len() + 1,
        forall|i: int| 0 <= i < calls.len() ==> pool_makes_call(runs[i], runs[i + 1], #[trigger] calls[i]),
        forall|i: int| 0 <= i < calls.len() ==> !removes_entity(#[trigger] calls[i], e),
        runs[0]@.contains_key(e),
        runs[0]@[e] == c,
    ensures
        runs.last()@.contains_key(e),
        runs.last()@[e] == c,
    decreases calls.len(),
{
    if calls.len() > 0 {
        let n = calls.len() - 1;
        assert forall|i: int| 0 <= i < calls.drop_last().len() implies pool_makes_call(runs.drop_last()[i], runs.drop_last()[i + 1], #[trigger] calls.drop_last()[i]) by {
            assert(pool_makes_call(runs[i], runs[i + 1], calls[i]));
        }
        assert forall|i: int| 0 <= i < calls.drop_last().len() implies !removes_entity(#[trigger] calls.drop_last()[i], e) by {
            assert(!removes_entity(calls[i], e));
        }
        lemma_pool_component_stays(runs.drop_last(), calls.drop_last(), e, c);
        assert(pool_makes_call(runs[n], runs[n + 1], calls[n]));
        assert(!removes_entity(calls[n], e));
        assert(runs.drop_last().last() == runs[n]);
    }
}

/// After adding `c` for entity `e`, any run of further adds and removes that
/// does not remove `e`'s component leaves `e` with `c` itself: reading `e`'s
/// component then gives `c`.
pub proof fn law_added_component_is_found<C>(runs: Seq<Pool<C>>, calls: Seq<PoolCall<C>>, e: usize, c: C)
    requires
        runs.len() == calls.len() + 1,
        forall|i: int| 0 <= i < calls.len() ==> pool_makes_call(runs[i], runs[i + 1], #[trigger] calls[i]),
        calls.len() > 0,
        calls[0] == PoolCall::Add(e, c),
        forall|i: int| 1 <= i < calls.len() ==> !removes_entity(#[trigger] calls[i], e),
    ensures
        runs.last()@.contains_key(e),
        runs.last()@[e] == c,
{
    assert(pool_makes_call(runs[0], runs[1], calls[0]));
    let rest = runs.drop_first();
    let later = calls.drop_first();
    assert forall|i: int| 0 <= i < later.len() implies pool_makes_call(rest[i], rest[i + 1], #[trigger] later[i]) by {
        assert(pool_makes_call(runs[i + 1], runs[i + 2], calls[i + 1]));
    }
    assert forall|i: int| 0 <= i < later.len() implies !removes_entity(#[trigger] later[i], e) by {
        assert(!removes_entity(calls[i + 1], e));
    }
    lemma_pool_component_stays(rest, later, e, c);
    assert(rest.last() == runs.last());
}

} // verus!
