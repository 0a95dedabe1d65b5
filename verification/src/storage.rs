//! Stores: one per value type, each owning a root block and the arena
//! capability it was built with.

use vstd::prelude::*;
use crate::block::{SparseBlock, DenseBlock, DefaultAlloc};
use crate::component::Component;

verus! {

/// Marker for a per-type store.
pub trait Storage {

}

/// A packed store: a three-level trie of packed blocks.
pub struct DenseStorage<T: Component, A = DefaultAlloc> {
    pub root: DenseBlock<Box<DenseBlock<Box<DenseBlock<T, A>>, A>>, A>,
    pub alloc: A,
}

/// An addressable store: a flat, single-level addressable root block.
/// The same block shape composes recursively for deeper tries.
pub struct SparseStorage<T: Component, A = DefaultAlloc> {
    pub root: SparseBlock<T, A>,
    pub alloc: A,
}

impl<T: Component, A> Storage for SparseStorage<T, A> {

}

impl<T: Component, A: Copy> SparseStorage<T, A> {
    /// A fresh store: empty root block, nothing present, nothing absent.
    pub fn new(alloc: A) -> (s: Self)
        ensures
            s.root.inner.presence_mask == 0,
            s.root.inner.absence_mask == 0,
            s.root.inner.header.absence_mask == 0,
            s.root.inner.data@.len() == 128,
            forall|i: int| 0 <= i < 128 ==> s.root.inner.data@[i] is None,
            s.root.slots_wf(),
            s.alloc == alloc,
    {
        SparseStorage { root: SparseBlock::new(alloc), alloc }
    }
}

impl<T: Component> Default for SparseStorage<T, DefaultAlloc> {
    /// A fresh store on the default allocator.
    fn default() -> (s: Self)
        ensures
            s.root.inner.presence_mask == 0,
            s.root.inner.absence_mask == 0,
            s.root.inner.header.absence_mask == 0,
            s.root.inner.data@.len() == 128,
            s.root.slots_wf(),
    {
        SparseStorage::new(DefaultAlloc)
    }
}

} // verus!
