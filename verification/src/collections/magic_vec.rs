//! A fixed-capacity vector whose elements are lent out one borrow at a time:
//! each element is marked while lent, and a marked element is not lent again
//! until it is given back.
use std::marker::PhantomData;
use vstd::prelude::*;

verus! {

#[derive(Clone, Copy, Debug)]
pub struct MagicHandle(Option<usize>);

impl MagicHandle {
    /// The element this handle names, if any.
    pub closed spec fn target(self) -> Option<usize> {
        self.0
    }

    /// A handle that names no element.
    pub fn null() -> (h: MagicHandle)
        ensures
            h.target() is None,
    {
        MagicHandle(None)
    }
}

/// A lent element: its handle. The element is reached through `MagicVec::data_mut`
/// and given back with `MagicVec::release`.
pub struct MagicRef<T> {
    pub handle: MagicHandle,
    _marker: PhantomData<T>,
}

impl<T> MagicRef<T> {
    /// The element this borrow is of.
    pub closed spec fn slot(&self) -> Option<usize> {
        self.handle.target()
    }
}

struct MagicCell<T> {
    id: usize,
    data: T,
    used: bool,
}

impl<T> MagicCell<T> {
    fn new(id: usize, data: T) -> (c: Self)
        ensures
            c.id == id,
            c.data == data,
            !c.used,
    {
        MagicCell { id, data, used: false }
    }
}

pub struct MagicVec<T> {
    data: Vec<MagicCell<T>>,
    capacity: usize,
}

impl<T> MagicVec<T> {
    /// The elements, in order.
    pub closed spec fn items(&self) -> Seq<T> {
        self.data@.map_values(|c: MagicCell<T>| c.data)
    }

    /// Which elements are lent out.
    pub closed spec fn lent(&self) -> Seq<bool> {
        self.data@.map_values(|c: MagicCell<T>| c.used)
    }

    pub closed spec fn spec_capacity(&self) -> usize {
        self.capacity
    }

    /// Each element knows its own position.
    pub closed spec fn wf(&self) -> bool {
        forall|i: int| 0 <= i < self.data@.len() ==> (#[trigger] self.data@[i]).id == i
    }

    pub fn new(capacity: usize) -> (v: Self)
        ensures
            v.wf(),
            v.items().len() == 0,
            v.spec_capacity() == capacity,
    {
        let v = MagicVec { data: Vec::with_capacity(capacity), capacity };
        assert(v.items() =~= Seq::<T>::empty());
        v
    }

    /// Removes every element; none may be lent out.
    pub fn clear(&mut self)
        requires
            forall|i: int| 0 <= i < old(self).lent().len() ==> !#[trigger] old(self).lent()[i],
        ensures
            final(self).wf(),
            final(self).items().len() == 0,
            final(self).spec_capacity() == old(self).spec_capacity(),
    {
        self.data.clear();
        assert(self.items() =~= Seq::<T>::empty());
    }

    /// Lends out the element of `handle`, unless it is lent out already.
    pub fn get(&mut self, handle: MagicHandle) -> (r: Option<MagicRef<T>>)
        requires
            old(self).wf(),
            handle.target() is Some ==> handle.target().unwrap() < old(self).items().len(),
        ensures
            final(self).wf(),
            final(self).items() == old(self).items(),
            final(self).spec_capacity() == old(self).spec_capacity(),
            match handle.target() {
                None => r is None && final(self).lent() == old(self).lent(),
                Some(i) => if old(self).lent()[i as int] {
                    r is None && final(self).lent() == old(self).lent()
                } else {
                    r is Some && r.unwrap().slot() == Some(i) && final(self).lent() == old(
                        self,
                    ).lent().update(i as int, true)
                },
            },
    {
        let handle = match handle.0 {
            None => {
                return None;
            },
            Some(h) => h,
        };
        if self.data[handle].used {
            return None;
        }
        let ghost before = self.data@;
        self.data[handle].used = true;
        proof {
            assert(self.items() =~= before.map_values(|c: MagicCell<T>| c.data));
            assert(self.lent() =~= before.map_values(|c: MagicCell<T>| c.used).update(handle as int, true));
        }
        Some(MagicRef { handle: MagicHandle(Some(self.data[handle].id)), _marker: PhantomData })
    }

    /// The lent element of `r`.
    pub fn data_mut(&mut self, r: &MagicRef<T>) -> (d: &mut T)
        requires
            old(self).wf(),
            r.slot() is Some,
            r.slot().unwrap() < old(self).items().len(),
        ensures
            *d == old(self).items()[r.slot().unwrap() as int],
            final(self).items() == old(self).items().update(r.slot().unwrap() as int, *final(d)),
            final(self).lent() == old(self).lent(),
            final(self).wf(),
            final(self).spec_capacity() == old(self).spec_capacity(),
    {
        let i = r.handle.0.unwrap();
        &mut self.data[i].data
    }

    /// Gives back the element of `r`.
    pub fn release(&mut self, r: MagicRef<T>)
        requires
            old(self).wf(),
            r.slot() is Some,
            r.slot().unwrap() < old(self).items().len(),
            old(self).lent()[r.slot().unwrap() as int],
        ensures
            final(self).wf(),
            final(self).items() == old(self).items(),
            final(self).lent() == old(self).lent().update(r.slot().unwrap() as int, false),
            final(self).spec_capacity() == old(self).spec_capacity(),
    {
        let i = r.handle.0.unwrap();
        let ghost before = self.data@;
        self.data[i].used = false;
        proof {
            assert(self.items() =~= before.map_values(|c: MagicCell<T>| c.data));
            assert(self.lent() =~= before.map_values(|c: MagicCell<T>| c.used).update(i as int, false));
        }
    }

    /// Appends an element; the vector must stay below its capacity.
    pub fn push(&mut self, data: T)
        requires
            old(self).wf(),
            old(self).items().len() + 1 < old(self).spec_capacity(),
        ensures
            final(self).wf(),
            final(self).items() == old(self).items().push(data),
            final(self).lent() == old(self).lent().push(false),
            final(self).spec_capacity() == old(self).spec_capacity(),
    {
        let ghost before = self.data@;
        let id = self.data.len();
        self.data.push(MagicCell::new(id, data));
        proof {
            assert(self.items() =~= before.map_values(|c: MagicCell<T>| c.data).push(data));
            assert(self.lent() =~= before.map_values(|c: MagicCell<T>| c.used).push(false));
        }
    }

    /// An iterator over the elements that are not lent out.
    pub fn iter(&self) -> (it: MagicVecIterator)
        ensures
            it.position() == 0,
    {
        MagicVecIterator { index: 0 }
    }
}

/// Walks a [`MagicVec`], lending out each element that is not lent out yet.
pub struct MagicVecIterator {
    index: usize,
}

impl MagicVecIterator {
    /// The position of the next element to look at.
    pub closed spec fn position(&self) -> int {
        self.index as int
    }

    /// Lends out the next element that is not lent out, from this position on.
    pub fn next<T>(&mut self, vec: &mut MagicVec<T>) -> (r: Option<MagicRef<T>>)
        requires
            old(vec).wf(),
        ensures
            final(vec).wf(),
            final(vec).items() == old(vec).items(),
            final(vec).spec_capacity() == old(vec).spec_capacity(),
            forall|j: int| old(self).position() <= j < final(self).position() - 1 ==> old(vec).lent()[j],
            match r {
                Some(m) => {
                    let i = final(self).position() - 1;
                    &&& old(self).position() <= i < old(vec).items().len()
                    &&& !old(vec).lent()[i]
                    &&& m.slot() == Some(i as usize)
                    &&& final(vec).lent() == old(vec).lent().update(i, true)
                    &&& forall|j: int| old(self).position() <= j < i ==> old(vec).lent()[j]
                },
                None => {
                    &&& final(vec).lent() == old(vec).lent()
                    &&& forall|j: int| old(self).position() <= j < old(vec).items().len() ==> old(vec).lent()[j]
                },
            },
    {
        let ghost start = self.index;
        while self.index < vec.data.len()
            invariant
                vec.wf(),
                vec.items() == old(vec).items(),
                vec.lent() == old(vec).lent(),
                vec.spec_capacity() == old(vec).spec_capacity(),
                start == old(self).position(),
                start <= self.index,
                forall|j: int| start <= j < self.index ==> old(vec).lent()[j],
            decreases vec.data@.len() - self.index,
        {
            let i = self.index;
            self.index = self.index + 1;
            let r = vec.get(MagicHandle(Some(i)));
            if r.is_some() {
                return r;
            }
        }
        None
    }
}

} // verus!
