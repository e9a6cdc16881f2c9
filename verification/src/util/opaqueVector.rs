use vstd::prelude::*;

verus! {

/// The capacity after resizing a vector of capacity `capacity` to hold
/// `newSize` elements: it grows by half (rounded up) when too small, and
/// shrinks to fit when at most half of it would be used.
pub open spec fn resized_capacity(capacity: int, newSize: int) -> int {
    if newSize > capacity {
        capacity + (capacity + 1) / 2
    } else if newSize < capacity && 2 * newSize <= capacity {
        newSize
    } else {
        capacity
    }
}

/// A growable vector that keeps its own capacity: it grows by a factor of 1.5
/// and shrinks to fit once at most half of its capacity is in use. Its first
/// slots may hold elements that were dropped in place: they still count in
/// its length, but can no longer be read.
#[derive(Debug)]
pub struct OpaqueVector<T> {
    data: Vec<T>,
    dropped: usize,
    capacity: usize,
}

impl<T> OpaqueVector<T> {
    /// The elements that can still be read, in order; they stand after the
    /// dropped slots.
    pub closed spec fn view(&self) -> Seq<T> {
        self.data@
    }

    /// How many slots at the front hold dropped elements.
    pub closed spec fn dropped(&self) -> nat {
        self.dropped as nat
    }

    /// The number of slots in use: the dropped ones and the live elements.
    pub open spec fn length(&self) -> nat {
        self.dropped() + self@.len()
    }

    pub closed spec fn capacity(&self) -> nat {
        self.capacity as nat
    }

    /// The slots in use fit in the capacity.
    pub open spec fn wf(&self) -> bool {
        self.length() <= self.capacity()
    }

    /// `after` is `self` with `element` pushed at the end, the capacity
    /// grown first if it was full.
    pub open spec fn pushes(self, after: Self, element: T) -> bool {
        &&& after.wf()
        &&& after@ == self@.push(element)
        &&& after.dropped() == self.dropped()
        &&& after.capacity() == resized_capacity(self.capacity() as int, self.length() + 1int)
    }

    /// `after` is `self` with its last element, `last`, taken off, the
    /// capacity shrunk to fit when at most half of it stays in use.
    pub open spec fn pops(self, after: Self, last: T) -> bool {
        &&& after.wf()
        &&& last == self@.last()
        &&& after@ == self@.drop_last()
        &&& after.dropped() == self.dropped()
        &&& after.capacity() == resized_capacity(self.capacity() as int, self.length() - 1)
    }

    /// Whether one more element can be pushed: there is room, or the capacity
    /// can grow (a capacity of 0 cannot).
    pub open spec fn can_push(&self) -> bool {
        self.length() < self.capacity() || (self.capacity() > 0 && self.capacity() + (self.capacity()
            + 1) / 2 <= usize::MAX)
    }

    /// An empty vector with room for `capacity` elements.
    pub fn New(capacity: usize) -> (r: OpaqueVector<T>)
        ensures
            r.wf(),
            r@ == Seq::<T>::empty(),
            r.dropped() == 0,
            r.capacity() == capacity,
    {
        OpaqueVector { data: Vec::with_capacity(capacity), dropped: 0, capacity: capacity }
    }

    fn TryResize(&mut self, newSize: usize)
        requires
            newSize > old(self).capacity() ==> old(self).capacity() > 0 && old(self).capacity() + (
            old(self).capacity() + 1) / 2 <= usize::MAX && old(self).capacity() + (old(self).capacity()
                + 1) / 2 >= newSize,
        ensures
            final(self).capacity() == resized_capacity(old(self).capacity() as int, newSize as int),
            final(self)@ == old(self)@,
            final(self).dropped() == old(self).dropped(),
    {
        if newSize > self.capacity {
            return self.Grow(newSize);
        }
        if newSize < self.capacity && newSize <= self.capacity / 2 {
            return self.Shrink(newSize);
        }
    }

    fn Grow(&mut self, newSize: usize)
        requires
            old(self).capacity() + (old(self).capacity() + 1) / 2 <= usize::MAX,
            old(self).capacity() + (old(self).capacity() + 1) / 2 >= newSize,
        ensures
            final(self).capacity() == old(self).capacity() + (old(self).capacity() + 1) / 2,
            final(self)@ == old(self)@,
            final(self).dropped() == old(self).dropped(),
    {
        let newCapacity = self.capacity + (self.capacity + 1) / 2;
        self.capacity = newCapacity;
    }

    fn Shrink(&mut self, newSize: usize)
        requires
            newSize <= old(self).capacity(),
        ensures
            final(self).capacity() == newSize,
            final(self)@ == old(self)@,
            final(self).dropped() == old(self).dropped(),
    {
        self.capacity = newSize;
    }

    /// Appends `element`, growing the capacity first if it is full.
    pub fn Push(&mut self, element: T)
        requires
            old(self).wf(),
            old(self).can_push(),
        ensures
            old(self).pushes(*final(self), element),
    {
        self.TryResize(self.dropped + self.data.len() + 1);
        self.data.push(element);
    }

    /// Removes and returns the last element, shrinking the capacity to fit
    /// when at most half of it stays in use. The last slot must hold a live
    /// element.
    pub fn Pop(&mut self) -> (r: T)
        requires
            old(self).wf(),
            old(self)@.len() > 0,
        ensures
            old(self).pops(*final(self), r),
    {
        let last = self.data.pop().unwrap();
        let newSize = self.dropped + self.data.len();
        self.TryResize(newSize);
        last
    }

    /// The element in slot `index`, to read or change; the slot must hold a
    /// live element.
    pub fn Get(&mut self, index: usize) -> (r: &mut T)
        requires
            old(self).dropped() <= index < old(self).length(),
        ensures
            *r == old(self)@[index - old(self).dropped()],
            final(self)@ == old(self)@.update(index - old(self).dropped(), *final(r)),
            final(self).dropped() == old(self).dropped(),
            final(self).capacity() == old(self).capacity(),
            final(self).wf() == old(self).wf(),
    {
        &mut self.data[index - self.dropped]
    }

    /// The number of slots in use, dropped ones included.
    pub fn GetLength(&self) -> (r: usize)
        requires
            self.wf(),
        ensures
            r == self.length(),
    {
        self.dropped + self.data.len()
    }

    pub fn GetCapacity(&self) -> (r: usize)
        ensures
            r == self.capacity(),
    {
        self.capacity
    }

    /// Drops every element in place: the slots stay in use, so the length
    /// and the capacity stay, but no element can be read any more.
    pub fn DropElements(&mut self)
        requires
            old(self).wf(),
        ensures
            final(self).wf(),
            final(self)@ == Seq::<T>::empty(),
            final(self).dropped() == old(self).length(),
            final(self).length() == old(self).length(),
            final(self).capacity() == old(self).capacity(),
    {
        self.dropped = self.dropped + self.data.len();
        self.data.clear();
    }
}


/// Popping right after pushing `x` gives `x` back, and leaves the elements
/// as they were, in a vector whose elements still fit its capacity.
pub proof fn law_pop_undoes_push<T>(
    v: OpaqueVector<T>,
    pushed: OpaqueVector<T>,
    popped: OpaqueVector<T>,
    x: T,
    r: T,
)
    requires
        v.wf(),
        v.pushes(pushed, x),
        pushed.pops(popped, r),
    ensures
        r == x,
        popped@ == v@,
        popped.length() == v.length(),
        popped.length() <= popped.capacity(),
{
    assert(v@.push(x).drop_last() =~= v@);
}

/// A vector grows only when it is full, to half as much again (rounded up),
/// and only shrinks to fit exactly what it holds.
pub proof fn law_capacity_follows_use(capacity: int, newSize: int)
    requires
        0 <= newSize,
        1 <= capacity,
    ensures
        newSize > capacity ==> resized_capacity(capacity, newSize) == capacity + (capacity + 1) / 2,
        newSize <= capacity ==> resized_capacity(capacity, newSize) == capacity || resized_capacity(capacity, newSize)
            == newSize,
        newSize <= capacity ==> newSize <= resized_capacity(capacity, newSize),
{
}

} // verus!
