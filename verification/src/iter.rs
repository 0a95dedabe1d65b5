//! Run iterators: lazy walks over the maximal runs of a presence bitmap,
//! yielding one read-only view per run, and the intersection machinery
//! that co-iterates two stores over the AND of their bitmaps.

use vstd::prelude::*;
use vstd::slice::slice_subrange;
use crate::mask::{
    bit, pop_below, popcount, lemma_bit_algebra, lemma_pop_below_le, lemma_pop_below_high_zero,
    lemma_pop_below_clear_run, lemma_pop_below_mono, lemma_pop_below_agree, cap_mask, low_bits,
    lemma_low_bits,
};
use crate::runs::{lowest_run, run_mask, is_lowest_run};
use crate::block::{SparseBlock, DenseBlock};
use crate::view::RunView;

verus! {

/// One step of addressable run iteration: the emitted view `v` covers
/// the lowest maximal run of `m0` in `d0`, slot `i` backed by position
/// `i`, and `m1` is `m0` with that run cleared.
pub open spec fn sparse_step<T>(m0: u128, d0: Seq<T>, m1: u128, v: Seq<T>) -> bool {
    exists|s: nat, l: nat|
        #![auto]
        {
            &&& is_lowest_run(m0, s, l)
            &&& v == d0.subrange(s as int, (s + l) as int)
            &&& forall|i: u128| i < 128 ==> bit(m1, i) == (bit(m0, i) && !(s <= i < s + l))
        }
}

/// One step of packed run iteration: the emitted view covers the lowest
/// maximal run of `m0`, backed by the next `l` packed positions from
/// `off0`; the cursor advances by the run length.
pub open spec fn dense_step<T>(
    m0: u128,
    d0: Seq<T>,
    off0: nat,
    m1: u128,
    off1: nat,
    v: Seq<T>,
) -> bool {
    exists|s: nat, l: nat|
        #![auto]
        {
            &&& is_lowest_run(m0, s, l)
            &&& v == d0.subrange(off0 as int, (off0 + l) as int)
            &&& off1 == off0 + l
            &&& forall|i: u128| i < 128 ==> bit(m1, i) == (bit(m0, i) && !(s <= i < s + l))
        }
}

/// Lazy sequence of views over the maximal runs of a bitmap, for an
/// addressable payload where slot `i` lives at position `i`.
pub struct RunsIter<'a, T> {
    data: &'a [T],
    mask: u128,
}

impl<'a, T> RunsIter<'a, T> {
    /// The bits still to be walked.
    pub closed spec fn mask_spec(&self) -> u128 {
        self.mask
    }

    /// The backing slice the views index into.
    pub closed spec fn data_spec(&self) -> Seq<T> {
        self.data@
    }

    /// Every remaining bit addresses a backed slot.
    pub open spec fn wf(&self) -> bool {
        forall|i: u128| i < 128 && bit(self.mask_spec(), i) ==> i < self.data_spec().len()
    }

    /// An iterator over the runs of `mask` in `data`.
    pub fn new(data: &'a [T], mask: u128) -> (it: Self)
        requires
            forall|i: u128| i < 128 && bit(mask, i) ==> i < data@.len(),
        ensures
            it.mask_spec() == mask,
            it.data_spec() == data@,
            it.wf(),
    {
        RunsIter { data, mask }
    }

    /// The next maximal run, lowest first, as a view over its slots;
    /// `None` once every run has been emitted.
    pub fn next(&mut self) -> (r: Option<RunView<'a, T>>)
        requires
            old(self).wf(),
        ensures
            final(self).wf(),
            final(self).data_spec() == old(self).data_spec(),
            old(self).mask_spec() == 0 ==> r is None && final(self).mask_spec() == 0,
            old(self).mask_spec() != 0 ==> r is Some && sparse_step(
                old(self).mask_spec(),
                old(self).data_spec(),
                final(self).mask_spec(),
                (r->0)@,
            ),
    {
        if self.mask == 0 {
            return None;
        }
        proof {
            lemma_bit_algebra();
        }
        let run = lowest_run(self.mask);
        let rm = run_mask(run);
        let start = run.start as usize;
        let end = start + run.len as usize;
        proof {
            assert(bit(self.mask_spec(), (end - 1) as u128));
            assert((end - 1) < self.data_spec().len());
        }
        let v = RunView::new(slice_subrange(self.data, start, end));
        self.mask = self.mask & !rm;
        proof {
            let s = run.start as nat;
            let l = run.len as nat;
            assert(is_lowest_run(old(self).mask_spec(), s, l) && v@ == old(
                self,
            ).data_spec().subrange(s as int, (s + l) as int) && forall|i: u128|
                i < 128 ==> bit(final(self).mask_spec(), i) == (bit(old(self).mask_spec(), i) && !(
                s <= i < s + l)));
        }
        Some(v)
    }
}

/// Lazy sequence of views over the maximal runs of a bitmap, for a
/// packed payload: each run consumes the next `len` packed positions.
pub struct DenseRunsIter<'a, T> {
    data: &'a [T],
    mask: u128,
    offset: usize,
}

impl<'a, T> DenseRunsIter<'a, T> {
    /// The bits still to be walked.
    pub closed spec fn mask_spec(&self) -> u128 {
        self.mask
    }

    /// The backing slice the views index into.
    pub closed spec fn data_spec(&self) -> Seq<T> {
        self.data@
    }

    /// The packed position the next run starts at.
    pub closed spec fn offset_spec(&self) -> nat {
        self.offset as nat
    }

    /// The positions the remaining runs will consume are all backed.
    pub open spec fn wf(&self) -> bool {
        self.offset_spec() + pop_below(self.mask_spec(), 128) <= self.data_spec().len()
    }

    /// The next maximal run, lowest first, as a view over the packed
    /// positions backing it; `None` once every run has been emitted.
    pub fn next(&mut self) -> (r: Option<RunView<'a, T>>)
        requires
            old(self).wf(),
        ensures
            final(self).wf(),
            final(self).data_spec() == old(self).data_spec(),
            old(self).mask_spec() == 0 ==> r is None && *final(self) == *old(self),
            old(self).mask_spec() != 0 ==> r is Some && dense_step(
                old(self).mask_spec(),
                old(self).data_spec(),
                old(self).offset_spec(),
                final(self).mask_spec(),
                final(self).offset_spec(),
                (r->0)@,
            ),
    {
        if self.mask == 0 {
            return None;
        }
        proof {
            lemma_bit_algebra();
        }
        let run = lowest_run(self.mask);
        let rm = run_mask(run);
        let ghost m0 = self.mask;
        let ghost s = run.start as nat;
        let ghost l = run.len as nat;
        self.mask = self.mask & !rm;
        proof {
            lemma_pop_below_clear_run(m0, self.mask, s, l, 128);
            assert(old(self).offset_spec() + l <= self.data_spec().len());
        }
        let _dlen = self.data.len();
        let begin = self.offset;
        let end = begin + run.len as usize;
        self.offset = end;
        let v = RunView::new(slice_subrange(self.data, begin, end));
        proof {
            assert(is_lowest_run(m0, s, l) && v@ == old(self).data_spec().subrange(
                begin as int,
                (begin + l) as int,
            ) && final(self).offset_spec() == old(self).offset_spec() + l && forall|i: u128|
                i < 128 ==> bit(final(self).mask_spec(), i) == (bit(m0, i) && !(s <= i < s + l)));
        }
        Some(v)
    }
}

/// One step of addressable intersection: both views cover the same
/// lowest maximal run of the combined mask, each in its own store.
pub open spec fn sparse_pair_step<T, U>(
    m0: u128,
    da: Seq<T>,
    db: Seq<U>,
    m1: u128,
    va: Seq<T>,
    vb: Seq<U>,
) -> bool {
    exists|s: nat, l: nat|
        #![auto]
        {
            &&& is_lowest_run(m0, s, l)
            &&& va == da.subrange(s as int, (s + l) as int)
            &&& vb == db.subrange(s as int, (s + l) as int)
            &&& forall|i: u128| i < 128 ==> bit(m1, i) == (bit(m0, i) && !(s <= i < s + l))
        }
}

/// One step of packed intersection: both views cover the same lowest
/// maximal run `[s, s+l)` of the combined mask, each at its own store's
/// compacted positions. Physical compaction differs per store, so each
/// side's cursor is the count of that store's own presence bits below
/// the run start.
pub open spec fn dense_pair_step<T, U>(
    m0: u128,
    ma: u128,
    mb: u128,
    da: Seq<T>,
    db: Seq<U>,
    m1: u128,
    va: Seq<T>,
    vb: Seq<U>,
) -> bool {
    exists|s: nat, l: nat|
        #![auto]
        {
            &&& is_lowest_run(m0, s, l)
            &&& va == da.subrange(pop_below(ma, s) as int, (pop_below(ma, s) + l) as int)
            &&& vb == db.subrange(pop_below(mb, s) as int, (pop_below(mb, s) + l) as int)
            &&& forall|i: u128| i < 128 ==> bit(m1, i) == (bit(m0, i) && !(s <= i < s + l))
        }
}

/// Paired run iteration over the AND of two addressable stores' bitmaps.
pub struct IntersectRuns<'a, 'b, T, U> {
    data_a: &'a [T],
    data_b: &'b [U],
    mask: u128,
}

impl<'a, 'b, T, U> IntersectRuns<'a, 'b, T, U> {
    /// The bits still to be walked.
    pub closed spec fn mask_spec(&self) -> u128 {
        self.mask
    }

    /// The first store's backing slice.
    pub closed spec fn data_a_spec(&self) -> Seq<T> {
        self.data_a@
    }

    /// The second store's backing slice.
    pub closed spec fn data_b_spec(&self) -> Seq<U> {
        self.data_b@
    }

    /// Every remaining bit addresses a backed slot in both stores.
    pub open spec fn wf(&self) -> bool {
        forall|i: u128|
            i < 128 && bit(self.mask_spec(), i) ==> i < self.data_a_spec().len() && i
                < self.data_b_spec().len()
    }

    /// Refines the intersection with a further mask, such as the OR of
    /// several other stores' presence bitmaps: "all of A and B, and at
    /// least one of the others" without materializing anything.
    pub fn and_mask(self, mask: u128) -> (it: Self)
        requires
            self.wf(),
        ensures
            it.mask_spec() == self.mask_spec() & mask,
            it.data_a_spec() == self.data_a_spec(),
            it.data_b_spec() == self.data_b_spec(),
            it.wf(),
    {
        proof {
            lemma_bit_algebra();
        }
        IntersectRuns { data_a: self.data_a, data_b: self.data_b, mask: self.mask & mask }
    }

    /// The next maximal run of the combined mask, as one view per store
    /// over the same slot range; `None` once every run has been emitted.
    pub fn next(&mut self) -> (r: Option<(RunView<'a, T>, RunView<'b, U>)>)
        requires
            old(self).wf(),
        ensures
            final(self).wf(),
            final(self).data_a_spec() == old(self).data_a_spec(),
            final(self).data_b_spec() == old(self).data_b_spec(),
            old(self).mask_spec() == 0 ==> r is None && final(self).mask_spec() == 0,
            old(self).mask_spec() != 0 ==> r is Some && sparse_pair_step(
                old(self).mask_spec(),
                old(self).data_a_spec(),
                old(self).data_b_spec(),
                final(self).mask_spec(),
                ((r->0).0)@,
                ((r->0).1)@,
            ),
    {
        if self.mask == 0 {
            return None;
        }
        proof {
            lemma_bit_algebra();
        }
        let run = lowest_run(self.mask);
        let rm = run_mask(run);
        let start = run.start as usize;
        let end = start + run.len as usize;
        proof {
            assert(bit(self.mask_spec(), (end - 1) as u128));
            assert((end - 1) < self.data_a_spec().len());
            assert((end - 1) < self.data_b_spec().len());
        }
        let va = RunView::new(slice_subrange(self.data_a, start, end));
        let vb = RunView::new(slice_subrange(self.data_b, start, end));
        self.mask = self.mask & !rm;
        proof {
            let s = run.start as nat;
            let l = run.len as nat;
            assert(is_lowest_run(old(self).mask_spec(), s, l) && va@ == old(
                self,
            ).data_a_spec().subrange(s as int, (s + l) as int) && vb@ == old(
                self,
            ).data_b_spec().subrange(s as int, (s + l) as int) && forall|i: u128|
                i < 128 ==> bit(final(self).mask_spec(), i) == (bit(old(self).mask_spec(), i) && !(
                s <= i < s + l)));
        }
        Some((va, vb))
    }
}

/// Intersection of two addressable run sources: run extraction over the
/// AND of their bitmaps, pairing views from both stores.
pub fn intersect<'a, 'b, T, U>(a: RunsIter<'a, T>, b: RunsIter<'b, U>) -> (it: IntersectRuns<
    'a,
    'b,
    T,
    U,
>)
    requires
        a.wf(),
        b.wf(),
    ensures
        it.mask_spec() == a.mask_spec() & b.mask_spec(),
        it.data_a_spec() == a.data_spec(),
        it.data_b_spec() == b.data_spec(),
        it.wf(),
{
    proof {
        lemma_bit_algebra();
        assert forall|i: u128|
            i < 128 && bit(a.mask_spec() & b.mask_spec(), i) implies i < a.data_spec().len() && i
            < b.data_spec().len() by {
            assert(bit(a.mask_spec(), i));
            assert(bit(b.mask_spec(), i));
        }
    }
    IntersectRuns { data_a: a.data, data_b: b.data, mask: a.mask & b.mask }
}

/// Paired run iteration over the AND of two packed stores' bitmaps.
/// Each store keeps its own presence mask: physical compaction differs
/// per store, so each side's positions are derived from its own bits.
pub struct DenseIntersectRuns<'a, 'b, T, U> {
    data_a: &'a [T],
    data_b: &'b [U],
    mask: u128,
    mask_a: u128,
    mask_b: u128,
}

impl<'a, 'b, T, U> DenseIntersectRuns<'a, 'b, T, U> {
    /// The bits still to be walked.
    pub closed spec fn mask_spec(&self) -> u128 {
        self.mask
    }

    /// The first store's own presence bits, which place its values.
    pub closed spec fn mask_a_spec(&self) -> u128 {
        self.mask_a
    }

    /// The second store's own presence bits, which place its values.
    pub closed spec fn mask_b_spec(&self) -> u128 {
        self.mask_b
    }

    /// The first store's backing slice.
    pub closed spec fn data_a_spec(&self) -> Seq<T> {
        self.data_a@
    }

    /// The second store's backing slice.
    pub closed spec fn data_b_spec(&self) -> Seq<U> {
        self.data_b@
    }

    /// Every remaining run bit is present in both stores, and each
    /// store's presence bits are all backed by its packed payload.
    pub open spec fn wf(&self) -> bool {
        &&& forall|i: u128|
            i < 128 && bit(self.mask_spec(), i) ==> bit(self.mask_a_spec(), i) && bit(
                self.mask_b_spec(),
                i,
            )
        &&& pop_below(self.mask_a_spec(), 128) <= self.data_a_spec().len()
        &&& pop_below(self.mask_b_spec(), 128) <= self.data_b_spec().len()
    }

    /// Refines the intersection with a further mask; see
    /// [`IntersectRuns::and_mask`]. Only the run mask narrows: each
    /// store's values stay placed by its own presence bits.
    pub fn and_mask(self, mask: u128) -> (it: Self)
        requires
            self.wf(),
        ensures
            it.mask_spec() == self.mask_spec() & mask,
            it.mask_a_spec() == self.mask_a_spec(),
            it.mask_b_spec() == self.mask_b_spec(),
            it.data_a_spec() == self.data_a_spec(),
            it.data_b_spec() == self.data_b_spec(),
            it.wf(),
    {
        proof {
            lemma_bit_algebra();
        }
        DenseIntersectRuns {
            data_a: self.data_a,
            data_b: self.data_b,
            mask: self.mask & mask,
            mask_a: self.mask_a,
            mask_b: self.mask_b,
        }
    }

    /// The next maximal run of the combined mask, as one view per store
    /// over that run's values at the store's own compacted positions;
    /// `None` once every run has been emitted.
    pub fn next(&mut self) -> (r: Option<(RunView<'a, T>, RunView<'b, U>)>)
        requires
            old(self).wf(),
        ensures
            final(self).wf(),
            final(self).data_a_spec() == old(self).data_a_spec(),
            final(self).data_b_spec() == old(self).data_b_spec(),
            final(self).mask_a_spec() == old(self).mask_a_spec(),
            final(self).mask_b_spec() == old(self).mask_b_spec(),
            old(self).mask_spec() == 0 ==> r is None && *final(self) == *old(self),
            old(self).mask_spec() != 0 ==> r is Some && dense_pair_step(
                old(self).mask_spec(),
                old(self).mask_a_spec(),
                old(self).mask_b_spec(),
                old(self).data_a_spec(),
                old(self).data_b_spec(),
                final(self).mask_spec(),
                ((r->0).0)@,
                ((r->0).1)@,
            ),
    {
        if self.mask == 0 {
            return None;
        }
        proof {
            lemma_bit_algebra();
        }
        let run = lowest_run(self.mask);
        let rm = run_mask(run);
        let ghost m0 = self.mask;
        let ghost s = run.start as nat;
        let ghost l = run.len as nat;
        let below = cap_mask(run.start as usize);
        let a_begin = popcount(self.mask_a & below) as usize;
        let b_begin = popcount(self.mask_b & below) as usize;
        proof {
            lemma_low_bits(s);
            // The computed cursors are each store's set-bit count below
            // the run start.
            lemma_pop_below_agree(self.mask_a & below, self.mask_a, s);
            lemma_pop_below_high_zero(self.mask_a & below, s, 128);
            lemma_pop_below_agree(self.mask_b & below, self.mask_b, s);
            lemma_pop_below_high_zero(self.mask_b & below, s, 128);
            assert(a_begin == pop_below(self.mask_a, s));
            assert(b_begin == pop_below(self.mask_b, s));
            // The run's bits are present in both stores, so the cursor
            // plus the run length stays within each payload.
            lemma_pop_below_clear_run(self.mask_a, self.mask_a & !rm, s, l, 128);
            lemma_pop_below_agree(self.mask_a & !rm, self.mask_a, s);
            lemma_pop_below_mono(self.mask_a & !rm, s, 128);
            assert(pop_below(self.mask_a, s) + l <= self.data_a_spec().len());
            lemma_pop_below_clear_run(self.mask_b, self.mask_b & !rm, s, l, 128);
            lemma_pop_below_agree(self.mask_b & !rm, self.mask_b, s);
            lemma_pop_below_mono(self.mask_b & !rm, s, 128);
            assert(pop_below(self.mask_b, s) + l <= self.data_b_spec().len());
        }
        let _dlen_a = self.data_a.len();
        let _dlen_b = self.data_b.len();
        let a_end = a_begin + run.len as usize;
        let b_end = b_begin + run.len as usize;
        let va = RunView::new(slice_subrange(self.data_a, a_begin, a_end));
        let vb = RunView::new(slice_subrange(self.data_b, b_begin, b_end));
        self.mask = self.mask & !rm;
        proof {
            assert(is_lowest_run(m0, s, l));
            assert(va@ == old(self).data_a_spec().subrange(a_begin as int, (a_begin + l) as int));
            assert(vb@ == old(self).data_b_spec().subrange(b_begin as int, (b_begin + l) as int));
            assert(forall|i: u128|
                i < 128 ==> bit(final(self).mask_spec(), i) == (bit(m0, i) && !(s <= i < s + l)));
        }
        Some((va, vb))
    }
}

/// Intersection of two packed run sources: run extraction over the AND
/// of their bitmaps. Each store's presence mask is kept so that every
/// emitted view indexes that store's own compacted layout.
pub fn intersect_dense<'a, 'b, T, U>(a: DenseRunsIter<'a, T>, b: DenseRunsIter<'b, U>) -> (it:
    DenseIntersectRuns<'a, 'b, T, U>)
    requires
        a.wf(),
        b.wf(),
    ensures
        it.mask_spec() == a.mask_spec() & b.mask_spec(),
        it.mask_a_spec() == a.mask_spec(),
        it.mask_b_spec() == b.mask_spec(),
        it.data_a_spec() == a.data_spec(),
        it.data_b_spec() == b.data_spec(),
        it.wf(),
{
    proof {
        lemma_bit_algebra();
    }
    DenseIntersectRuns {
        data_a: a.data,
        data_b: b.data,
        mask: a.mask & b.mask,
        mask_a: a.mask,
        mask_b: b.mask,
    }
}

/// Run-view access over an addressable payload.
pub trait IterViews<'a, T> {
    /// The bitmap the returned iterator walks.
    spec fn views_mask(&self) -> u128;

    /// The backing slice its views index into.
    spec fn views_data(&self) -> Seq<T>;

    fn views(&'a self) -> (it: RunsIter<'a, T>)
        ensures
            it.mask_spec() == self.views_mask(),
            it.data_spec() == self.views_data(),
            it.wf(),
    ;
}

impl<'a, T, A> SparseBlock<T, A> {
    /// Runs of every present slot, as views over the block's cells.
    pub fn views(&'a self) -> (it: RunsIter<'a, Option<T>>)
        requires
            self.inner.data@.len() == 128,
        ensures
            it.mask_spec() == self.inner.presence_mask,
            it.data_spec() == self.inner.data@,
            it.wf(),
    {
        RunsIter::new(self.inner.data.as_slice(), self.inner.presence_mask)
    }

    /// Runs of the slots that are present and not tombstoned in the
    /// roll-up absence mask: three-state filtering without extra storage.
    pub fn views_complement(&'a self) -> (it: RunsIter<'a, Option<T>>)
        requires
            self.inner.data@.len() == 128,
        ensures
            it.mask_spec() == self.inner.presence_mask & !self.inner.header.absence_mask,
            it.data_spec() == self.inner.data@,
            it.wf(),
    {
        let effective = self.inner.presence_mask & !self.inner.header.absence_mask;
        proof {
            lemma_bit_algebra();
        }
        RunsIter::new(self.inner.data.as_slice(), effective)
    }
}

impl<'a, T, A> IterViews<'a, Option<T>> for SparseBlock<T, A> {
    /// Every present slot, when the payload holds its full 128 cells; a
    /// shorter payload yields nothing rather than an unbacked walk.
    open spec fn views_mask(&self) -> u128 {
        if self.inner.data@.len() >= 128 {
            self.inner.presence_mask
        } else {
            0
        }
    }

    open spec fn views_data(&self) -> Seq<Option<T>> {
        self.inner.data@
    }

    fn views(&'a self) -> (it: RunsIter<'a, Option<T>>) {
        let mask = if self.inner.data.len() >= 128 {
            self.inner.presence_mask
        } else {
            0
        };
        proof {
            lemma_bit_algebra();
        }
        RunsIter::new(self.inner.data.as_slice(), mask)
    }
}

impl<'a, T, A> DenseBlock<T, A> {
    /// Runs of every present slot the packed payload can back, as views
    /// over consecutive packed positions.
    pub fn views_dense(&'a self) -> (it: DenseRunsIter<'a, T>)
        ensures
            it.mask_spec() == self.inner.presence_mask & low_bits(self.inner.data@.len() as nat),
            it.data_spec() == self.inner.data@,
            it.offset_spec() == 0,
            it.wf(),
    {
        let len = self.inner.data.len();
        let cm = cap_mask(len);
        let mask = self.inner.presence_mask & cm;
        proof {
            lemma_bit_algebra();
            lemma_low_bits(len as nat);
            let lcap: nat = if len >= 128 {
                128nat
            } else {
                len as nat
            };
            lemma_pop_below_high_zero(mask, lcap, 128);
            lemma_pop_below_le(mask, lcap);
        }
        DenseRunsIter { data: self.inner.data.as_slice(), mask, offset: 0 }
    }
}

} // verus!
