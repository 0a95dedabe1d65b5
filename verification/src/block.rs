//! Blocks: the fixed-shape containers behind every store. A block pairs a
//! 128-bit presence bitmap with a 128-bit absence bitmap over its payload,
//! which is either a 128-slot addressable array of possibly-unwritten
//! cells (`SparseBlock`), a growable packed array (`DenseBlock`), or a
//! level of child blocks of the same kind.

use vstd::prelude::*;
use crate::mask::{
    bit, pop_below, popcount, lemma_bit_algebra, lemma_mutators_preserve_disjointness, or_over,
    lemma_or_facts, lemma_or_over_high_zero, low_bits, lemma_low_bits, cap_mask, lowest_set_bit,
};
use crate::runs::{lowest_run, run_mask};

verus! {

/// Header of an addressable block: the roll-up absence mask, marking
/// descendant subtrees known to be entirely empty. Distinct from the
/// block's own absence mask; meaningful at interior trie levels.
#[derive(Default, Debug, Clone, Copy, PartialEq, Eq, Structural)]
pub struct SparseHeader {
    pub absence_mask: u128,
}

/// Header of a packed block; packed blocks carry no extra metadata.
#[derive(Default, Debug, Clone, Copy, PartialEq, Eq, Structural)]
pub struct DenseHeader {}

/// A lightweight, copyable stand-in for the global heap, used where no
/// arena capability is threaded through.
#[derive(Default, Debug, Clone, Copy, PartialEq, Eq, Structural)]
pub struct DefaultAlloc;

/// Write access to a block's presence bitmap.
pub trait MutBlock<T> {
    fn set_all(&mut self, mask: u128);
}

/// The common block shape: the bitmap pair, a change marker, a
/// kind-specific header, the arena capability the block was built with,
/// and the payload.
pub struct Block<T, H, A> {
    pub presence_mask: u128,
    pub absence_mask: u128,
    pub changed_at: u64,
    pub header: H,
    pub alloc: A,
    pub data: T,
}

impl<T, H, A> Block<T, H, A> {
    /// Number of slots currently marked present.
    pub fn count(&self) -> (r: usize)
        ensures
            r == pop_below(self.presence_mask, 128),
    {
        popcount(self.presence_mask) as usize
    }

    /// True iff slot `index` is marked present. Indices at or past 128
    /// address no slot at this level.
    pub fn has(&self, index: u32) -> (r: bool)
        requires
            index < 128,
        ensures
            r == bit(self.presence_mask, index as u128),
    {
        let p = self.presence_mask;
        let i: u128 = index as u128;
        proof {
            assert(i < 128 ==> ((p & (1u128 << i)) != 0) == ((p >> i) & 1u128 == 1u128))
                by (bit_vector);
        }
        (p & (1u128 << i)) != 0
    }

    /// True iff any slot selected by `mask` is marked present.
    pub fn has_any(&self, mask: u128) -> (r: bool)
        ensures
            r == (self.presence_mask & mask != 0),
    {
        (self.presence_mask & mask) != 0
    }

    /// Publishes every slot in `mask` as present, clearing any tombstone
    /// on those slots first, so presence and absence stay disjoint.
    pub fn set_all(&mut self, mask: u128)
        ensures
            final(self).presence_mask == old(self).presence_mask | mask,
            final(self).absence_mask == old(self).absence_mask & !mask,
            final(self).changed_at == old(self).changed_at,
            final(self).header == old(self).header,
            final(self).alloc == old(self).alloc,
            final(self).data == old(self).data,
            old(self).presence_mask & old(self).absence_mask == 0 ==> final(self).presence_mask
                & final(self).absence_mask == 0,
    {
        proof {
            if old(self).presence_mask & old(self).absence_mask == 0 {
                lemma_mutators_preserve_disjointness(
                    old(self).presence_mask,
                    old(self).absence_mask,
                    mask,
                );
            }
        }
        self.absence_mask = self.absence_mask & !mask;
        self.presence_mask = self.presence_mask | mask;
    }

    /// Tombstones every slot in `mask`: marked absent without touching
    /// the backing storage.
    pub fn skip_all(&mut self, mask: u128)
        ensures
            final(self).presence_mask == old(self).presence_mask & !mask,
            final(self).absence_mask == old(self).absence_mask | mask,
            final(self).changed_at == old(self).changed_at,
            final(self).header == old(self).header,
            final(self).alloc == old(self).alloc,
            final(self).data == old(self).data,
            old(self).presence_mask & old(self).absence_mask == 0 ==> final(self).presence_mask
                & final(self).absence_mask == 0,
    {
        proof {
            if old(self).presence_mask & old(self).absence_mask == 0 {
                lemma_mutators_preserve_disjointness(
                    old(self).presence_mask,
                    old(self).absence_mask,
                    mask,
                );
            }
        }
        self.presence_mask = self.presence_mask & !mask;
        self.absence_mask = self.absence_mask | mask;
    }

    /// Resets every slot in `mask` to unknown: neither present nor absent.
    pub fn clear_all(&mut self, mask: u128)
        ensures
            final(self).presence_mask == old(self).presence_mask & !mask,
            final(self).absence_mask == old(self).absence_mask & !mask,
            final(self).changed_at == old(self).changed_at,
            final(self).header == old(self).header,
            final(self).alloc == old(self).alloc,
            final(self).data == old(self).data,
            old(self).presence_mask & old(self).absence_mask == 0 ==> final(self).presence_mask
                & final(self).absence_mask == 0,
    {
        proof {
            if old(self).presence_mask & old(self).absence_mask == 0 {
                lemma_mutators_preserve_disjointness(
                    old(self).presence_mask,
                    old(self).absence_mask,
                    mask,
                );
            }
        }
        self.presence_mask = self.presence_mask & !mask;
        self.absence_mask = self.absence_mask & !mask;
    }
}

/// A packed block: values live in a growable array whose physical order
/// tracks ascending slot order for the bits currently set.
pub struct DenseBlock<T, A = DefaultAlloc> {
    pub inner: Block<Vec<T>, DenseHeader, A>,
}

/// An addressable block: a fixed array of 128 cells where slot `i` maps
/// directly to position `i`; a cell holds a value only once written.
pub struct SparseBlock<T, A = DefaultAlloc> {
    pub inner: Block<Vec<Option<T>>, SparseHeader, A>,
}

/// A fixed payload of 128 unwritten cells.
fn empty_slots<T>() -> (v: Vec<Option<T>>)
    ensures
        v@.len() == 128,
        forall|i: int| 0 <= i < 128 ==> v@[i] is None,
{
    let mut v: Vec<Option<T>> = Vec::new();
    let mut i: usize = 0;
    while i < 128
        invariant
            i <= 128,
            v@.len() == i,
            forall|k: int| 0 <= k < i ==> v@[k] is None,
        decreases 128 - i,
    {
        v.push(None);
        i = i + 1;
    }
    v
}

impl<T, A> DenseBlock<T, A> {
    /// A fresh packed block with room for `capacity` values, recording
    /// the arena capability it was built with.
    pub fn new_in(capacity: usize, alloc: A) -> (b: Box<Self>)
        ensures
            b.inner.presence_mask == 0,
            b.inner.absence_mask == 0,
            b.inner.changed_at == 0,
            b.inner.header == (DenseHeader {  }),
            b.inner.alloc == alloc,
            b.inner.data@.len() == 0,
    {
        Box::new(
            Self {
                inner: Block {
                    presence_mask: 0,
                    absence_mask: 0,
                    changed_at: 0,
                    header: DenseHeader {  },
                    data: Vec::with_capacity(capacity),
                    alloc,
                },
            },
        )
    }

    /// Publishes slots as present. A packed block keeps no absence mask
    /// of its own here: physical compaction is the write path's duty.
    pub fn set_all(&mut self, mask: u128)
        ensures
            final(self).inner.presence_mask == old(self).inner.presence_mask | mask,
            final(self).inner.absence_mask == old(self).inner.absence_mask,
            final(self).inner.changed_at == old(self).inner.changed_at,
            final(self).inner.header == old(self).inner.header,
            final(self).inner.alloc == old(self).inner.alloc,
            final(self).inner.data == old(self).inner.data,
    {
        self.inner.presence_mask = self.inner.presence_mask | mask;
    }
}

impl<T, A> SparseBlock<T, A> {
    /// Every published slot holds a written value, and the payload holds
    /// exactly its 128 cells. Run extraction and release both assume this.
    pub open spec fn slots_wf(&self) -> bool {
        &&& self.inner.data@.len() == 128
        &&& forall|i: u128|
            i < 128 && bit(self.inner.presence_mask, i) ==> self.inner.data@[i as int] is Some
    }

    /// A fresh addressable block: empty masks, 128 unwritten cells.
    pub fn new(alloc: A) -> (b: Self)
        ensures
            b.inner.presence_mask == 0,
            b.inner.absence_mask == 0,
            b.inner.changed_at == 0,
            b.inner.header == (SparseHeader { absence_mask: 0 }),
            b.inner.alloc == alloc,
            b.inner.data@.len() == 128,
            forall|i: int| 0 <= i < 128 ==> b.inner.data@[i] is None,
            b.slots_wf(),
    {
        let b = Self {
            inner: Block {
                presence_mask: 0,
                absence_mask: 0,
                changed_at: 0,
                header: SparseHeader { absence_mask: 0 },
                data: empty_slots(),
                alloc,
            },
        };
        proof {
            lemma_bit_algebra();
        }
        b
    }

    /// A fresh addressable block behind an owning handle; the capacity of
    /// an addressable block is fixed at 128.
    pub fn new_in(alloc: A) -> (b: Box<Self>)
        ensures
            b.inner.presence_mask == 0,
            b.inner.absence_mask == 0,
            b.inner.changed_at == 0,
            b.inner.header == (SparseHeader { absence_mask: 0 }),
            b.inner.alloc == alloc,
            b.inner.data@.len() == 128,
            forall|i: int| 0 <= i < 128 ==> b.inner.data@[i] is None,
            b.slots_wf(),
    {
        Box::new(Self::new(alloc))
    }

    /// Writes a value into cell `index`. Writing does not publish: the
    /// slot counts as present only after a `set_all` covering its bit.
    pub fn write(&mut self, index: u32, value: T)
        requires
            index < 128,
            old(self).inner.data@.len() == 128,
        ensures
            final(self).inner.data@ == old(self).inner.data@.update(index as int, Some(value)),
            final(self).inner.presence_mask == old(self).inner.presence_mask,
            final(self).inner.absence_mask == old(self).inner.absence_mask,
            final(self).inner.changed_at == old(self).inner.changed_at,
            final(self).inner.header == old(self).inner.header,
            final(self).inner.alloc == old(self).inner.alloc,
            old(self).slots_wf() ==> final(self).slots_wf(),
    {
        self.inner.data[index as usize] = Some(value);
    }

    /// Releases exactly the published values. The presence bitmap is
    /// walked as maximal runs of set bits — lowest set bit, then the
    /// length of the run starting there — and exactly those cells are
    /// emptied, once each; cells never published are left untouched.
    /// Afterwards nothing is present. Returns how many values were
    /// released.
    pub fn release_all(&mut self) -> (released: usize)
        requires
            old(self).slots_wf(),
        ensures
            released == pop_below(old(self).inner.presence_mask, 128),
            forall|i: int|
                0 <= i < 128 ==> final(self).inner.data@[i] == (if bit(
                    old(self).inner.presence_mask,
                    i as u128,
                ) {
                    None::<T>
                } else {
                    old(self).inner.data@[i]
                }),
            final(self).inner.presence_mask == 0,
            final(self).inner.absence_mask == old(self).inner.absence_mask,
            final(self).inner.changed_at == old(self).inner.changed_at,
            final(self).inner.header == old(self).inner.header,
            final(self).inner.alloc == old(self).inner.alloc,
            final(self).slots_wf(),
    {
        let released = popcount(self.inner.presence_mask) as usize;
        let ghost p0 = self.inner.presence_mask;
        let ghost d0 = self.inner.data@;
        let mut m: u128 = self.inner.presence_mask;
        let ghost mut gb: nat = 0nat;
        proof {
            lemma_bit_algebra();
        }
        while m != 0
            invariant
                gb <= 128,
                p0 == old(self).inner.presence_mask,
                d0 == old(self).inner.data@,
                d0.len() == 128,
                self.inner.presence_mask == p0,
                self.inner.absence_mask == old(self).inner.absence_mask,
                self.inner.changed_at == old(self).inner.changed_at,
                self.inner.header == old(self).inner.header,
                self.inner.alloc == old(self).inner.alloc,
                self.inner.data@.len() == 128,
                forall|j: u128| j < gb ==> !bit(m, j),
                forall|j: u128| gb <= j < 128 ==> bit(m, j) == bit(p0, j),
                forall|i: int|
                    0 <= i < 128 ==> self.inner.data@[i] == (if bit(p0, i as u128) && i < gb {
                        None::<T>
                    } else {
                        d0[i]
                    }),
            decreases 128 - gb,
        {
            proof {
                lemma_bit_algebra();
            }
            let run = lowest_run(m);
            let rm = run_mask(run);
            let ghost s = run.start as nat;
            let ghost r = run.len as nat;
            proof {
                assert(bit(m, run.start as u128));
                assert(s >= gb);
            }
            let mut j: usize = run.start as usize;
            let end: usize = run.start as usize + run.len as usize;
            while j < end
                invariant
                    run.start as usize <= j <= end,
                    end == s + r,
                    s + r <= 128,
                    s == run.start as nat,
                    r == run.len as nat,
                    gb <= s,
                    d0.len() == 128,
                    self.inner.presence_mask == p0,
                    self.inner.absence_mask == old(self).inner.absence_mask,
                    self.inner.changed_at == old(self).inner.changed_at,
                    self.inner.header == old(self).inner.header,
                    self.inner.alloc == old(self).inner.alloc,
                    self.inner.data@.len() == 128,
                    forall|i: int|
                        0 <= i < 128 ==> self.inner.data@[i] == (if (bit(p0, i as u128) && i < gb)
                            || (s <= i < j) {
                            None::<T>
                        } else {
                            d0[i]
                        }),
                decreases end - j,
            {
                self.inner.data[j] = None;
                j = j + 1;
            }
            m = m & !rm;
            proof {
                lemma_bit_algebra();
                let old_gb = gb;
                gb = s + r;
                assert forall|jj: u128| jj < gb implies !bit(m, jj) by {
                    if jj < s {
                    } else {
                        assert(bit(rm, jj));
                    }
                }
                assert forall|jj: u128| gb <= jj < 128 implies bit(m, jj) == bit(p0, jj) by {
                    assert(!bit(rm, jj));
                }
                assert forall|i: int|
                    0 <= i < 128 implies self.inner.data@[i] == (if bit(p0, i as u128) && i < gb {
                    None::<T>
                } else {
                    d0[i]
                }) by {
                    if old_gb <= i < s {
                        assert(!bit(p0, i as u128));
                    }
                }
            }
        }
        proof {
            lemma_bit_algebra();
            assert forall|i: int|
                0 <= i < 128 implies self.inner.data@[i] == (if bit(p0, i as u128) {
                None::<T>
            } else {
                d0[i]
            }) by {
                if gb <= i {
                    assert(bit(m, i as u128) == bit(p0, i as u128));
                }
            }
        }
        self.inner.presence_mask = 0;
        released
    }
}

impl<T> Default for SparseBlock<T, DefaultAlloc> {
    /// A fresh addressable block on the default allocator.
    fn default() -> (b: Self)
        ensures
            b.inner.presence_mask == 0,
            b.inner.absence_mask == 0,
            b.inner.header == (SparseHeader { absence_mask: 0 }),
            b.inner.data@.len() == 128,
            b.slots_wf(),
    {
        SparseBlock::new(DefaultAlloc)
    }
}

/// The presence bitmap an addressable child contributes to aggregation.
pub open spec fn child_presence<T, A>(c: Option<Box<SparseBlock<T, A>>>) -> u128 {
    match c {
        Some(b) => b.inner.presence_mask,
        None => 0,
    }
}

/// The roll-up absence an addressable child contributes to aggregation.
pub open spec fn child_rollup<T, A>(c: Option<Box<SparseBlock<T, A>>>) -> u128 {
    match c {
        Some(b) => b.inner.header.absence_mask,
        None => 0,
    }
}

impl<U, A> SparseBlock<Box<SparseBlock<U, A>>, A> {
    /// Refreshes this interior block from the children selected by
    /// `mask`. The roll-up absence becomes the OR of the refreshed
    /// children's own roll-up absence, and presence becomes the OR of
    /// their presence with fully-absent subtrees pruned out, so a change
    /// propagates upward in time proportional to the set bits of `mask`.
    pub fn recompute_all(&mut self, mask: u128)
        requires
            old(self).inner.data@.len() == 128,
            forall|i: u128| i < 128 && bit(mask, i) ==> old(self).inner.data@[i as int] is Some,
        ensures
            ({
                let cp = old(self).inner.data@.map(|k: int, c| child_presence(c));
                let ca = old(self).inner.data@.map(|k: int, c| child_rollup(c));
                &&& final(self).inner.header.absence_mask == or_over(ca, mask, 128)
                &&& final(self).inner.presence_mask == or_over(cp, mask, 128) & !or_over(
                    ca,
                    mask,
                    128,
                )
            }),
            final(self).inner.absence_mask == old(self).inner.absence_mask,
            final(self).inner.changed_at == old(self).inner.changed_at,
            final(self).inner.alloc == old(self).inner.alloc,
            final(self).inner.data == old(self).inner.data,
    {
        let ghost cp = self.inner.data@.map(|k: int, c| child_presence(c));
        let ghost ca = self.inner.data@.map(|k: int, c| child_rollup(c));
        let mut m: u128 = mask;
        let mut sel: u128 = 0;
        let mut skip: u128 = 0;
        let ghost mut b: nat = 0nat;
        proof {
            lemma_bit_algebra();
            lemma_or_facts();
        }
        while m != 0
            invariant
                b <= 128,
                *self == *old(self),
                old(self).inner.data@.len() == 128,
                forall|i: u128|
                    i < 128 && bit(mask, i) ==> old(self).inner.data@[i as int] is Some,
                cp == old(self).inner.data@.map(|k: int, c| child_presence(c)),
                ca == old(self).inner.data@.map(|k: int, c| child_rollup(c)),
                forall|j: u128| j < b ==> !bit(m, j),
                forall|j: u128| b <= j < 128 ==> bit(m, j) == bit(mask, j),
                sel == or_over(cp, mask, b),
                skip == or_over(ca, mask, b),
            decreases 128 - b,
        {
            proof {
                lemma_bit_algebra();
                lemma_or_facts();
            }
            let idx = lowest_set_bit(m);
            proof {
                assert(bit(mask, idx as u128));
                assert(idx >= b);
                lemma_or_over_high_zero(cp, mask, b, idx as nat);
                lemma_or_over_high_zero(ca, mask, b, idx as nat);
            }
            let c = self.inner.data[idx as usize].as_ref().unwrap();
            sel = sel | c.inner.presence_mask;
            skip = skip | c.inner.header.absence_mask;
            m = m & !(1u128 << (idx as u128));
            proof {
                b = (idx + 1) as nat;
                assert(cp[idx as int] == child_presence(old(self).inner.data@[idx as int]));
                assert(ca[idx as int] == child_rollup(old(self).inner.data@[idx as int]));
                assert(sel == or_over(cp, mask, b));
                assert(skip == or_over(ca, mask, b));
            }
        }
        proof {
            lemma_or_over_high_zero(cp, mask, b, 128);
            lemma_or_over_high_zero(ca, mask, b, 128);
        }
        let eff = sel & !skip;
        self.inner.header.absence_mask = skip;
        self.inner.presence_mask = eff;
    }
}

impl<U, A> DenseBlock<Box<DenseBlock<U, A>>, A> {
    /// Refreshes this interior packed block from the children selected
    /// by `mask`: presence becomes the OR of the refreshed children's
    /// presence. Packed interiors propagate no roll-up absence. Bits of
    /// `mask` past the number of children select nothing.
    pub fn recompute_all(&mut self, mask: u128)
        ensures
            ({
                let cp = old(self).inner.data@.map(
                    |k: int, c: Box<DenseBlock<U, A>>| c.inner.presence_mask,
                );
                final(self).inner.presence_mask == or_over(
                    cp,
                    mask & low_bits(old(self).inner.data@.len() as nat),
                    128,
                )
            }),
            final(self).inner.absence_mask == old(self).inner.absence_mask,
            final(self).inner.changed_at == old(self).inner.changed_at,
            final(self).inner.header == old(self).inner.header,
            final(self).inner.alloc == old(self).inner.alloc,
            final(self).inner.data == old(self).inner.data,
    {
        let ghost cp = self.inner.data@.map(|k: int, c: Box<DenseBlock<U, A>>| c.inner.presence_mask);
        let bounds = cap_mask(self.inner.data.len());
        let mask0 = mask & bounds;
        proof {
            lemma_bit_algebra();
            lemma_or_facts();
            lemma_low_bits(old(self).inner.data@.len() as nat);
        }
        let mut m: u128 = mask0;
        let mut sel: u128 = 0;
        let ghost mut b: nat = 0nat;
        while m != 0
            invariant
                b <= 128,
                *self == *old(self),
                mask0 == mask & low_bits(old(self).inner.data@.len() as nat),
                forall|i: u128| i < 128 && bit(mask0, i) ==> i < old(self).inner.data@.len(),
                cp == old(self).inner.data@.map(
                    |k: int, c: Box<DenseBlock<U, A>>| c.inner.presence_mask,
                ),
                forall|j: u128| j < b ==> !bit(m, j),
                forall|j: u128| b <= j < 128 ==> bit(m, j) == bit(mask0, j),
                sel == or_over(cp, mask0, b),
            decreases 128 - b,
        {
            proof {
                lemma_bit_algebra();
                lemma_or_facts();
            }
            let idx = lowest_set_bit(m);
            proof {
                assert(bit(mask0, idx as u128));
                assert(idx >= b);
                lemma_or_over_high_zero(cp, mask0, b, idx as nat);
            }
            let c = &self.inner.data[idx as usize];
            sel = sel | c.inner.presence_mask;
            m = m & !(1u128 << (idx as u128));
            proof {
                b = (idx + 1) as nat;
                assert(cp[idx as int] == old(self).inner.data@[idx as int].inner.presence_mask);
                assert(sel == or_over(cp, mask0, b));
            }
        }
        proof {
            lemma_or_over_high_zero(cp, mask0, b, 128);
        }
        self.inner.presence_mask = sel;
    }
}

} // verus!
