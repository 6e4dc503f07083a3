//! A snapshot collection of kernel objects of one kind, as fetched in one
//! query, together with a cursor for walking it. The collection is
//! immutable: a fresh snapshot must be fetched after any kernel mutation.

use vstd::prelude::*;

verus! {

/// A point-in-time, fixed-size collection of kernel objects of kind `T`.
pub struct Cache<T> {
    items: Vec<T>,
}

impl<T> View for Cache<T> {
    type V = Seq<T>;

    closed spec fn view(&self) -> Seq<T> {
        self.items@
    }
}

impl<T> Cache<T> {
    /// Wraps the objects of one snapshot fetch.
    pub fn new(items: Vec<T>) -> (r: Cache<T>)
        ensures
            r@ == items@,
    {
        Cache { items }
    }

    /// The number of objects in the snapshot.
    pub fn len(&self) -> (r: usize)
        ensures
            r == self@.len(),
    {
        self.items.len()
    }

    /// The object at position `i`.
    pub fn get(&self, i: usize) -> (r: &T)
        requires
            i < self@.len(),
        ensures
            *r == self@[i as int],
    {
        &self.items[i]
    }

    /// A cursor positioned at the start of the snapshot.
    pub fn iter(&self) -> (r: CacheIter<'_, T>)
        ensures
            r.cache == self,
            r.index == 0,
    {
        CacheIter { cache: self, index: 0 }
    }
}

/// A cursor over a snapshot: the objects before `index` have been handed
/// out already.
pub struct CacheIter<'a, T> {
    pub cache: &'a Cache<T>,
    pub index: usize,
}

impl<'a, T> CacheIter<'a, T> {
    /// Hands out the next object, or nothing when the snapshot is
    /// exhausted.
    pub fn next(&mut self) -> (r: Option<&'a T>)
        ensures
            final(self).cache == old(self).cache,
            old(self).index < old(self).cache@.len() ==> final(self).index == old(self).index + 1
                && (match r {
                Some(t) => *t == old(self).cache@[old(self).index as int],
                None => false,
            }),
            old(self).index >= old(self).cache@.len() ==> final(self).index == old(self).index
                && r is None,
    {
        if self.index < self.cache.items.len() {
            let t = &self.cache.items[self.index];
            self.index = self.index + 1;
            Some(t)
        } else {
            None
        }
    }

    /// How many objects the underlying snapshot holds in all.
    pub fn size_hint(&self) -> (r: usize)
        ensures
            r == self.cache@.len(),
    {
        self.cache.items.len()
    }
}

} // verus!
