//! An arena: a store of values that hands out an index for each value it
//! takes, and gives the value back for the index.
use vstd::prelude::*;

verus! {

/// A growing store of values addressed by index.
pub struct Arena<T> {
    storage: Vec<T>,
}

impl<T> View for Arena<T> {
    type V = Seq<T>;

    /// The values in the order they were allocated.
    closed spec fn view(&self) -> Seq<T> {
        self.storage@
    }
}

impl<T> Arena<T> {
    /// Creates an empty arena.
    pub fn new() -> (r: Self)
        ensures
            r@ == Seq::<T>::empty(),
    {
        Arena { storage: Vec::new() }
    }

    /// Stores a value and returns its index. The value is read back by
    /// `get` with that index, and earlier values stay as they were.
    pub fn allocate(&mut self, value: T) -> (id: usize)
        ensures
            final(self)@ == old(self)@.push(value),
            id == old(self)@.len(),
    {
        let id = self.storage.len();
        self.storage.push(value);
        id
    }

    /// The value stored under an index.
    pub fn get(&self, id: usize) -> (r: &T)
        requires
            id < self@.len(),
        ensures
            *r == self@[id as int],
    {
        &self.storage[id]
    }

    /// The number of values stored.
    pub fn len(&self) -> (r: usize)
        ensures
            r == self@.len(),
    {
        self.storage.len()
    }
}

/// Stores a value in an arena and returns its index.
pub fn arena_alloc<T>(arena: &mut Arena<T>, val: T) -> (id: usize)
    ensures
        final(arena)@ == old(arena)@.push(val),
        id == old(arena)@.len(),
{
    arena.allocate(val)
}

} // verus!
