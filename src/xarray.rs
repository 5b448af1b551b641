//! A sparse array of values indexed by integers, with allocation of free
//! indices.
use vstd::prelude::*;

use crate::error::Error;
use std::collections::BTreeMap;

pub mod flags;

verus! {

/// A sparse array. An index is absent, reserved (allocated but empty), or
/// holds a value.
pub struct XArray<T> {
    flags: u32,
    entries: BTreeMap<usize, Option<T>>,
}

/// A shared borrow of a value stored in an [`XArray`].
pub struct Guard<'a, T> {
    value: &'a T,
}

/// An index allocated in an [`XArray`] and not yet filled.
pub struct Reservation {
    index: usize,
}

/// Whether `flags` asks allocation to skip index zero.
pub open spec fn zero_busy(flags: u32) -> bool {
    (flags & flags::ZERO_BUSY) != 0
}

/// Whether `flags` allows allocation of indices.
pub open spec fn tracks_free(flags: u32) -> bool {
    (flags & flags::TRACK_FREE) != 0
}

/// The lowest index that allocation in `[min, ..]` may hand out.
pub open spec fn alloc_floor(flags: u32, min: u32) -> int {
    if zero_busy(flags) && min == 0 {
        1
    } else {
        min as int
    }
}

/// `i` is the lowest index in `[floor, max]` that `m` does not hold.
pub open spec fn lowest_free<T>(m: Map<usize, Option<T>>, floor: int, max: int, i: int) -> bool {
    &&& floor <= i <= max
    &&& !m.contains_key(i as usize)
    &&& forall|j: int| floor <= j < i ==> m.contains_key(#[trigger] (j as usize))
}

impl<'a, T> View for Guard<'a, T> {
    type V = T;

    closed spec fn view(&self) -> T {
        *self.value
    }
}

impl<'a, T> Guard<'a, T> {
    /// The borrowed value.
    pub fn borrow(&self) -> (r: &T)
        ensures
            *r == self@,
    {
        self.value
    }
}

impl<T> View for XArray<T> {
    type V = Map<usize, Option<T>>;

    closed spec fn view(&self) -> Map<usize, Option<T>> {
        self.entries@
    }
}

impl<T> XArray<T> {
    pub closed spec fn spec_flags(&self) -> u32 {
        self.flags
    }

    /// An empty array with the given flags.
    pub fn new(flags: u32) -> (r: Result<XArray<T>, Error>)
        ensures
            match r {
                Ok(xa) => xa@ == Map::<usize, Option<T>>::empty() && xa.spec_flags() == flags,
                Err(_) => false,
            },
    {
        Ok(XArray { flags, entries: BTreeMap::new() })
    }

    /// Stores `value` at `index` and returns the value it replaces, if any.
    pub fn replace(&mut self, index: usize, value: T) -> (r: Result<Option<T>, Error>)
        ensures
            final(self)@ == old(self)@.insert(index, Some(value)),
            final(self).spec_flags() == old(self).spec_flags(),
            r == Ok::<Option<T>, Error>(
                if old(self)@.contains_key(index) {
                    old(self)@[index]
                } else {
                    None
                },
            ),
    {
        match self.entries.insert(index, Some(value)) {
            Some(prev) => Ok(prev),
            None => Ok(None),
        }
    }

    /// Stores `value` at `index`.
    pub fn set(&mut self, index: usize, value: T) -> (r: Result<(), Error>)
        ensures
            final(self)@ == old(self)@.insert(index, Some(value)),
            final(self).spec_flags() == old(self).spec_flags(),
            r is Ok,
    {
        self.replace(index, value)?;
        Ok(())
    }

    /// Borrows the value at `index`; `None` when the index is absent or
    /// only reserved.
    pub fn get(&self, index: usize) -> (r: Option<Guard<'_, T>>)
        ensures
            match r {
                Some(g) => self@.contains_key(index) && self@[index] == Some(g@),
                None => !self@.contains_key(index) || self@[index] is None,
            },
    {
        match self.entries.get(&index) {
            Some(Some(v)) => Some(Guard { value: v }),
            _ => None,
        }
    }

    /// Removes the entry at `index`, value or reservation, and returns the
    /// value it held, if any.
    pub fn remove(&mut self, index: usize) -> (r: Option<T>)
        ensures
            final(self)@ == old(self)@.remove(index),
            final(self).spec_flags() == old(self).spec_flags(),
            r == if old(self)@.contains_key(index) {
                old(self)@[index]
            } else {
                None
            },
    {
        match self.entries.remove(&index) {
            Some(prev) => prev,
            None => None,
        }
    }

    /// Stores `value` (a reservation when `None`) at the lowest free index in
    /// `[min, max]` and returns that index.
    ///
    /// Index zero is skipped when the array was created with
    /// [`flags::ZERO_BUSY`]. Fails with `InvalidArgument` when the array does
    /// not track free indices, and with `Busy` when the range has no free
    /// index; the array is then unchanged.
    pub fn alloc_limits(&mut self, value: Option<T>, min: u32, max: u32) -> (r: Result<usize, Error>)
        ensures
            final(self).spec_flags() == old(self).spec_flags(),
            !tracks_free(old(self).spec_flags()) ==> r == Err::<usize, Error>(Error::InvalidArgument)
                && final(self)@ == old(self)@,
            tracks_free(old(self).spec_flags()) ==> match r {
                Ok(i) => {
                    &&& lowest_free(
                        old(self)@,
                        alloc_floor(old(self).spec_flags(), min),
                        max as int,
                        i as int,
                    )
                    &&& final(self)@ == old(self)@.insert(i, value)
                },
                Err(e) => {
                    &&& e == Error::Busy
                    &&& forall|j: int|
                        alloc_floor(old(self).spec_flags(), min) <= j <= max ==> old(
                            self,
                        )@.contains_key(#[trigger] (j as usize))
                    &&& final(self)@ == old(self)@
                },
            },
    {
        if (self.flags & flags::TRACK_FREE) == 0 {
            return Err(Error::InvalidArgument);
        }
        let floor: u64 = if (self.flags & flags::ZERO_BUSY) != 0 && min == 0 {
            1
        } else {
            min as u64
        };
        if floor > max as u64 {
            return Err(Error::Busy);
        }
        let mut cand: u64 = floor;
        while cand <= max as u64
            invariant
                floor == alloc_floor(self.flags, min),
                tracks_free(self.flags),
                floor <= cand <= max as u64 + 1,
                self@ == old(self)@,
                self.flags == old(self).flags,
                forall|j: int| floor <= j < cand ==> self@.contains_key(#[trigger] (j as usize)),
            decreases max as u64 + 1 - cand,
        {
            let idx = cand as usize;
            if !self.entries.contains_key(&idx) {
                self.entries.insert(idx, value);
                return Ok(idx);
            }
            cand = cand + 1;
        }
        Err(Error::Busy)
    }

    /// Stores `value` at the lowest free index from zero up, as
    /// [`XArray::alloc_limits`] does over the whole `u32` range.
    pub fn allocate(&mut self, value: Option<T>) -> (r: Result<usize, Error>)
        ensures
            final(self).spec_flags() == old(self).spec_flags(),
            !tracks_free(old(self).spec_flags()) ==> r == Err::<usize, Error>(Error::InvalidArgument)
                && final(self)@ == old(self)@,
            tracks_free(old(self).spec_flags()) ==> match r {
                Ok(i) => {
                    &&& lowest_free(
                        old(self)@,
                        alloc_floor(old(self).spec_flags(), 0),
                        u32::MAX as int,
                        i as int,
                    )
                    &&& final(self)@ == old(self)@.insert(i, value)
                },
                Err(e) => {
                    &&& e == Error::Busy
                    &&& forall|j: int|
                        alloc_floor(old(self).spec_flags(), 0) <= j <= u32::MAX ==> old(
                            self,
                        )@.contains_key(#[trigger] (j as usize))
                    &&& final(self)@ == old(self)@
                },
            },
    {
        self.alloc_limits(value, 0, u32::MAX)
    }

    /// Reserves the lowest free index in `[min, max]`, as
    /// [`XArray::alloc_limits`] does with no value.
    pub fn reserve_limits(&mut self, min: u32, max: u32) -> (r: Result<Reservation, Error>)
        ensures
            final(self).spec_flags() == old(self).spec_flags(),
            !tracks_free(old(self).spec_flags()) ==> r is Err && r->Err_0 == Error::InvalidArgument
                && final(self)@ == old(self)@,
            tracks_free(old(self).spec_flags()) ==> match r {
                Ok(res) => {
                    &&& lowest_free(
                        old(self)@,
                        alloc_floor(old(self).spec_flags(), min),
                        max as int,
                        res@ as int,
                    )
                    &&& final(self)@ == old(self)@.insert(res@, None)
                },
                Err(e) => {
                    &&& e == Error::Busy
                    &&& forall|j: int|
                        alloc_floor(old(self).spec_flags(), min) <= j <= max ==> old(
                            self,
                        )@.contains_key(#[trigger] (j as usize))
                    &&& final(self)@ == old(self)@
                },
            },
    {
        let index = self.alloc_limits(None, min, max)?;
        Ok(Reservation { index })
    }

    /// Reserves the lowest free index from zero up.
    pub fn reserve(&mut self) -> (r: Result<Reservation, Error>)
        ensures
            final(self).spec_flags() == old(self).spec_flags(),
            !tracks_free(old(self).spec_flags()) ==> r is Err && r->Err_0 == Error::InvalidArgument
                && final(self)@ == old(self)@,
            tracks_free(old(self).spec_flags()) ==> match r {
                Ok(res) => {
                    &&& lowest_free(
                        old(self)@,
                        alloc_floor(old(self).spec_flags(), 0),
                        u32::MAX as int,
                        res@ as int,
                    )
                    &&& final(self)@ == old(self)@.insert(res@, None)
                },
                Err(e) => {
                    &&& e == Error::Busy
                    &&& forall|j: int|
                        alloc_floor(old(self).spec_flags(), 0) <= j <= u32::MAX ==> old(
                            self,
                        )@.contains_key(#[trigger] (j as usize))
                    &&& final(self)@ == old(self)@
                },
            },
    {
        let index = self.allocate(None)?;
        Ok(Reservation { index })
    }
}

impl View for Reservation {
    type V = usize;

    closed spec fn view(&self) -> usize {
        self.index
    }
}

impl Reservation {
    /// Fills the reserved index of `xa` with `value` and returns the index.
    pub fn store<T>(self, xa: &mut XArray<T>, value: T) -> (r: Result<usize, Error>)
        ensures
            final(xa)@ == old(xa)@.insert(self@, Some(value)),
            final(xa).spec_flags() == old(xa).spec_flags(),
            r == Ok::<usize, Error>(self@),
    {
        let _ = xa.replace(self.index, value);
        Ok(self.index)
    }

    /// The reserved index.
    pub fn index(&self) -> (r: usize)
        ensures
            r == self@,
    {
        self.index
    }

    /// Gives the reserved index back, removing whatever `xa` holds there.
    pub fn release<T>(self, xa: &mut XArray<T>)
        ensures
            final(xa)@ == old(xa)@.remove(self@),
            final(xa).spec_flags() == old(xa).spec_flags(),
    {
        let _ = xa.remove(self.index);
    }
}

} // verus!
