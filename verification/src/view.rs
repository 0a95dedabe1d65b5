//! Views: borrowed windows over one run's worth of backing values.

use vstd::prelude::*;
use crate::block::{SparseBlock, DefaultAlloc};

verus! {

/// A read-only window over a contiguous run of a store's backing slice.
pub struct RunView<'a, T> {
    data: &'a [T],
}

impl<'a, T> vstd::view::View for RunView<'a, T> {
    type V = Seq<T>;

    closed spec fn view(&self) -> Seq<T> {
        self.data@
    }
}

impl<'a, T> RunView<'a, T> {
    /// The empty view.
    pub fn none() -> (v: Self)
        ensures
            v@.len() == 0,
    {
        RunView { data: &[] }
    }

    /// True iff the view covers no slots.
    pub fn is_none(&self) -> (r: bool)
        ensures
            r == (self@.len() == 0),
    {
        self.data.len() == 0
    }

    /// A view over `data`.
    pub fn new(data: &'a [T]) -> (v: Self)
        ensures
            v@ == data@,
    {
        RunView { data }
    }

    /// Number of slots the view covers.
    pub fn len(&self) -> (r: usize)
        ensures
            r == self@.len(),
    {
        self.data.len()
    }

    /// The backing slice of the view.
    pub fn as_slice(&self) -> (r: &'a [T])
        ensures
            r@ == self@,
    {
        self.data
    }
}

/// A mutable window over one run of an addressable block: it carries the
/// run's bitmap and a back-reference to the owning block, so a bulk
/// presence or absence edit commits against the whole run at once.
pub struct ViewMut<'a, T, A = DefaultAlloc> {
    mask: u128,
    block: Option<&'a mut SparseBlock<T, A>>,
    len: usize,
}

impl<'a, T, A> ViewMut<'a, T, A> {
    /// The run's bitmap: one bit per slot the window covers.
    pub closed spec fn mask_spec(&self) -> u128 {
        self.mask
    }

    /// The current state of the owning block, if the window has one.
    pub closed spec fn target(&self) -> Option<SparseBlock<T, A>> {
        match self.block {
            Some(b) => Some(*b),
            None => None,
        }
    }

    /// Number of slots the window covers.
    pub closed spec fn len_spec(&self) -> usize {
        self.len
    }

    /// Publishes every slot of the run in the owning block.
    pub fn set_all(&mut self)
        ensures
            final(self).mask_spec() == old(self).mask_spec(),
            final(self).len_spec() == old(self).len_spec(),
            old(self).target() is None ==> final(self).target() is None,
            old(self).target() is Some ==> {
                let b0 = old(self).target()->0;
                let b1 = final(self).target()->0;
                &&& final(self).target() is Some
                &&& b1.inner.presence_mask == b0.inner.presence_mask | old(self).mask_spec()
                &&& b1.inner.absence_mask == b0.inner.absence_mask & !old(self).mask_spec()
                &&& b1.inner.data == b0.inner.data
                &&& b1.inner.header == b0.inner.header
            },
    {
        let m = self.mask;
        match &mut self.block {
            Some(b) => {
                b.inner.set_all(m);
            },
            None => {},
        }
    }

    /// Tombstones every slot of the run in the owning block.
    pub fn skip_all(&mut self)
        ensures
            final(self).mask_spec() == old(self).mask_spec(),
            final(self).len_spec() == old(self).len_spec(),
            old(self).target() is None ==> final(self).target() is None,
            old(self).target() is Some ==> {
                let b0 = old(self).target()->0;
                let b1 = final(self).target()->0;
                &&& final(self).target() is Some
                &&& b1.inner.presence_mask == b0.inner.presence_mask & !old(self).mask_spec()
                &&& b1.inner.absence_mask == b0.inner.absence_mask | old(self).mask_spec()
                &&& b1.inner.data == b0.inner.data
                &&& b1.inner.header == b0.inner.header
            },
    {
        let m = self.mask;
        match &mut self.block {
            Some(b) => {
                b.inner.skip_all(m);
            },
            None => {},
        }
    }

    /// Resets every slot of the run in the owning block to unknown.
    pub fn clear_all(&mut self)
        ensures
            final(self).mask_spec() == old(self).mask_spec(),
            final(self).len_spec() == old(self).len_spec(),
            old(self).target() is None ==> final(self).target() is None,
            old(self).target() is Some ==> {
                let b0 = old(self).target()->0;
                let b1 = final(self).target()->0;
                &&& final(self).target() is Some
                &&& b1.inner.presence_mask == b0.inner.presence_mask & !old(self).mask_spec()
                &&& b1.inner.absence_mask == b0.inner.absence_mask & !old(self).mask_spec()
                &&& b1.inner.data == b0.inner.data
                &&& b1.inner.header == b0.inner.header
            },
    {
        let m = self.mask;
        match &mut self.block {
            Some(b) => {
                b.inner.clear_all(m);
            },
            None => {},
        }
    }

    /// The empty mutable view: no slots, no owning block.
    pub fn none() -> (v: Self)
        ensures
            v.mask_spec() == 0,
            v.target() is None,
            v.len_spec() == 0,
    {
        ViewMut { mask: 0, block: None, len: 0 }
    }

    /// A mutable view committing `mask` against `block` for a run of
    /// `len` slots.
    pub fn for_block(block: &'a mut SparseBlock<T, A>, mask: u128, len: usize) -> (v: Self)
        ensures
            v.mask_spec() == mask,
            v.len_spec() == len,
            v.target() == Some(*old(block)),
    {
        ViewMut { mask, block: Some(block), len }
    }

    /// True iff the view covers no slots.
    pub fn is_none(&self) -> (r: bool)
        ensures
            r == (self.len_spec() == 0),
    {
        self.len == 0
    }

    /// Number of slots the view covers.
    pub fn len(&self) -> (r: usize)
        ensures
            r == self.len_spec(),
    {
        self.len
    }
}

} // verus!
