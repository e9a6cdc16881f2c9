use vstd::prelude::*;
use std::any::TypeId;

verus! {

#[verifier::external_type_specification]
#[verifier::external_body]
pub struct ExTypeId(std::any::TypeId);

/// `std::any::TypeId::of`: the id of type `T`. Nothing is stated of its value.
#[verifier::external_body]
pub(crate) fn type_id_of<T: ?Sized + 'static>() -> TypeId {
    TypeId::of::<T>()
}

/// `PartialEq::eq` of `TypeId`: two ids are equal exactly when they are the same value.
#[verifier::external_body]
pub(crate) fn type_ids_equal(a: &TypeId, b: &TypeId) -> (r: bool)
    ensures
        r == (*a == *b),
{
    *a == *b
}

/// The ids registered so far, with `id` registered too.
pub open spec fn with_registered(ids: Seq<TypeId>, id: TypeId) -> Seq<TypeId> {
    if ids.contains(id) {
        ids
    } else {
        ids.push(id)
    }
}

/// The index that `id` has among `ids`.
pub open spec fn index_in(ids: Seq<TypeId>, id: TypeId) -> int {
    choose|i: int| 0 <= i < ids.len() && ids[i] == id
}

/// No id appears twice.
pub open spec fn distinct(ids: Seq<TypeId>) -> bool {
    forall|i: int, j: int| 0 <= i < j < ids.len() ==> ids[i] != ids[j]
}

/// Hands out dense indices to types, in the order in which they are first seen.
pub struct TypeIdMaker {
    typeIdToIndex: Vec<TypeId>,
}

impl TypeIdMaker {
    /// The registered ids; each one's index is its position.
    pub closed spec fn view(&self) -> Seq<TypeId> {
        self.typeIdToIndex@
    }

    pub fn New() -> (r: TypeIdMaker)
        ensures
            r@ == Seq::<TypeId>::empty(),
    {
        TypeIdMaker { typeIdToIndex: Vec::new() }
    }

    /// The index of `typeId`, if it is registered.
    pub fn IndexOfTypeId(&self, typeId: &TypeId) -> (r: Option<usize>)
        requires
            distinct(self@),
        ensures
            match r {
                Some(i) => i < self@.len() && self@[i as int] == *typeId && index_in(self@, *typeId) == i,
                None => !self@.contains(*typeId),
            },
    {
        let mut i: usize = 0;
        while i < self.typeIdToIndex.len()
            invariant
                distinct(self@),
                i <= self@.len(),
                forall|k: int| 0 <= k < i ==> self@[k] != *typeId,
            decreases self@.len() - i,
        {
            if type_ids_equal(&self.typeIdToIndex[i], typeId) {
                assert(index_in(self@, *typeId) == i) by {
                    assert(0 <= i < self@.len() && self@[i as int] == *typeId);
                    let c = index_in(self@, *typeId);
                    assert(0 <= c < self@.len() && self@[c] == *typeId);
                    if c < i {
                        assert(self@[c] != self@[i as int]);
                    } else if c > i {
                        assert(self@[i as int] != self@[c]);
                    }
                }
                return Some(i);
            }
            i += 1;
        }
        None
    }

    /// Registers `typeId` if it is new, and answers its index.
    pub fn GetIndexOfTypeId(&mut self, typeId: TypeId) -> (r: usize)
        requires
            distinct(old(self)@),
        ensures
            distinct(final(self)@),
            final(self)@ == with_registered(old(self)@, typeId),
            r < final(self)@.len(),
            r <= old(self)@.len(),
            r == index_in(final(self)@, typeId),
            final(self)@[r as int] == typeId,
            !old(self)@.contains(typeId) ==> r == old(self)@.len(),
    {
        match self.IndexOfTypeId(&typeId) {
            Some(i) => i,
            None => {
                let n = self.typeIdToIndex.len();
                self.typeIdToIndex.push(typeId);
                assert(self@[n as int] == typeId);
                assert(index_in(self@, typeId) == n) by {
                    assert(0 <= n < self@.len() && self@[n as int] == typeId);
                    let c = index_in(self@, typeId);
                    assert(0 <= c < self@.len() && self@[c] == typeId);
                    if c < n {
                        assert(old(self)@[c] == typeId);
                    }
                }
                n
            },
        }
    }

    /// Whether `typeId` is registered.
    pub fn HasTypeIdBeenRegistered(&self, typeId: &TypeId) -> (r: bool)
        requires
            distinct(self@),
        ensures
            r == self@.contains(*typeId),
    {
        self.IndexOfTypeId(typeId).is_some()
    }

    /// The index of type `T`, registering it first if it is new.
    pub fn GetTypeId<T: ?Sized + 'static>(&mut self) -> (r: usize)
        requires
            distinct(old(self)@),
        ensures
            distinct(final(self)@),
            r <= old(self)@.len(),
            exists|id: TypeId|
                final(self)@ == with_registered(old(self)@, id) && r == index_in(final(self)@, id)
                    && final(self)@[r as int] == id,
    {
        let typeId = type_id_of::<T>();
        self.GetIndexOfTypeId(typeId)
    }

    /// Registers type `T` if it is new.
    pub fn RegisterType<T: ?Sized + 'static>(&mut self)
        requires
            distinct(old(self)@),
        ensures
            distinct(final(self)@),
            exists|id: TypeId| final(self)@ == with_registered(old(self)@, id),
    {
        let typeId = type_id_of::<T>();
        self.GetIndexOfTypeId(typeId);
    }

    /// Whether type `T` is registered.
    pub fn HasTypeBeenRegistered<T: ?Sized + 'static>(&self) -> (r: bool)
        requires
            distinct(self@),
        ensures
            exists|id: TypeId| r == self@.contains(id),
    {
        let typeId = type_id_of::<T>();
        self.HasTypeIdBeenRegistered(&typeId)
    }
}


/// Registering an id twice is the same as registering it once.
pub proof fn law_registering_twice_is_once(ids: Seq<TypeId>, id: TypeId)
    ensures
        with_registered(with_registered(ids, id), id) == with_registered(ids, id),
{
    if !ids.contains(id) {
        assert(ids.push(id)[ids.len() as int] == id);
    }
}

/// Registering an id keeps the ids unique and keeps the index of every id
/// already registered.
pub proof fn law_registering_keeps_indices(ids: Seq<TypeId>, id: TypeId, other: TypeId)
    requires
        distinct(ids),
        ids.contains(other),
    ensures
        distinct(with_registered(ids, id)),
        index_in(with_registered(ids, id), other) == index_in(ids, other),
{
    let after = with_registered(ids, id);
    let k = index_in(ids, other);
    assert(0 <= k < ids.len() && ids[k] == other);
    assert(after[k] == other);
    assert(after.contains(other));
    let j = index_in(after, other);
    assert(0 <= j < after.len() && after[j] == other);
    if j != k {
        if j < ids.len() {
            if j < k {
                assert(ids[j] != ids[k]);
            } else {
                assert(ids[k] != ids[j]);
            }
        } else {
            assert(!ids.contains(id));
            assert(after[j] == id);
        }
    }
}

} // verus!
