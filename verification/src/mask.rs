//! 128-bit presence/absence bitmap arithmetic: bit-level specifications,
//! the algebraic laws of the three bitmap mutators, and the verified
//! bit-trick primitives (lowest set bit, run length, popcount, capacity
//! mask) that run extraction and destruction are built on.

use vstd::prelude::*;

verus! {

/// True iff bit `i` of `m` is set (meaningful for `i < 128`).
pub open spec fn bit(m: u128, i: u128) -> bool {
    (m >> i) & 1u128 == 1u128
}

/// Number of set bits of `m` whose index is below `n`.
pub open spec fn pop_below(m: u128, n: nat) -> nat
    decreases n,
{
    if n == 0 {
        0
    } else {
        pop_below(m, (n - 1) as nat) + if bit(m, (n - 1) as u128) {
            1nat
        } else {
            0nat
        }
    }
}

/// How `|`, `&`, `!` and the constant masks act on individual bits.
pub proof fn lemma_bit_algebra()
    by (bit_vector)
    ensures
        forall|x: u128, y: u128, i: u128|
            i < 128 ==> (#[trigger] bit(x | y, i)) == (bit(x, i) || bit(y, i)),
        forall|x: u128, y: u128, i: u128|
            i < 128 ==> (#[trigger] bit(x & y, i)) == (bit(x, i) && bit(y, i)),
        forall|x: u128, i: u128| i < 128 ==> (#[trigger] bit(!x, i)) == !bit(x, i),
        forall|i: u128| i < 128 ==> #[trigger] bit(u128::MAX, i),
        forall|i: u128| !(#[trigger] bit(0u128, i)),
{
}

/// Presence and absence stay disjoint under each of the three bitmap
/// mutators: publish (`p|m`, `a&!m`), tombstone (`p&!m`, `a|m`) and
/// reset (`p&!m`, `a&!m`).
pub proof fn lemma_mutators_preserve_disjointness(p: u128, a: u128, m: u128)
    by (bit_vector)
    requires
        p & a == 0,
    ensures
        (p | m) & (a & !m) == 0,
        (p & !m) & (a | m) == 0,
        (p & !m) & (a & !m) == 0,
{
}

/// Publishing the same mask twice leaves the same masks as publishing it once.
pub proof fn lemma_set_all_idempotent(p: u128, a: u128, m: u128)
    by (bit_vector)
    ensures
        ((p | m) | m) == (p | m),
        ((a & !m) & !m) == (a & !m),
{
}

/// Tombstoning the same mask twice leaves the same masks as tombstoning it once.
pub proof fn lemma_skip_all_idempotent(p: u128, a: u128, m: u128)
    by (bit_vector)
    ensures
        ((p & !m) & !m) == (p & !m),
        ((a | m) | m) == (a | m),
{
}

/// Shift facts behind the bit-walking loops: composing single-bit shifts,
/// shifting everything out, and the two nonzero tests.
pub proof fn lemma_shift_facts()
    by (bit_vector)
    ensures
        forall|m: u128, i: u128| i < 128 ==> (#[trigger] (m >> i)) >> 1u128 == m >> ((i + 1) as u128),
        forall|m: u128, i: u128| i >= 128 ==> (#[trigger] (m >> i)) == 0,
        forall|x: u128| x != 0 && x & 1u128 == 0 ==> (x >> 1u128) != 0,
        forall|x: u128| x & 1u128 == 1 ==> x != 0,
        forall|m: u128| #[trigger] (m >> 0u128) == m,
        forall|x: u128| #[trigger] (x & 1u128) == 0 || (x & 1u128) == 1,
{
}

/// Bitwise OR of `masks[i]` over the set bits of `q` with index below `n`.
pub open spec fn or_over(masks: Seq<u128>, q: u128, n: nat) -> u128
    decreases n,
{
    if n == 0 {
        0
    } else {
        or_over(masks, q, (n - 1) as nat) | if bit(q, (n - 1) as u128) {
            masks[(n - 1) as int]
        } else {
            0u128
        }
    }
}

/// `x | 0` is `x`, and clearing one bit leaves every other bit alone.
pub proof fn lemma_or_facts()
    by (bit_vector)
    ensures
        forall|x: u128| #[trigger] (x | 0u128) == x,
        forall|x: u128, idx: u128, j: u128|
            idx < 128 && j < 128 ==> (#[trigger] bit(x & !(1u128 << idx), j)) == (bit(x, j) && j
                != idx),
{
}

/// The OR stops growing across indices whose selector bits are clear.
pub proof fn lemma_or_over_high_zero(masks: Seq<u128>, q: u128, l: nat, n: nat)
    requires
        l <= n <= 128,
        forall|j: u128| l <= j < n ==> !bit(q, j),
    ensures
        or_over(masks, q, n) == or_over(masks, q, l),
    decreases n,
{
    lemma_or_facts();
    if n > l {
        lemma_or_over_high_zero(masks, q, l, (n - 1) as nat);
    }
}

/// At most `n` bits lie below index `n`.
pub proof fn lemma_pop_below_le(m: u128, n: nat)
    ensures
        pop_below(m, n) <= n,
    decreases n,
{
    if n > 0 {
        lemma_pop_below_le(m, (n - 1) as nat);
    }
}

/// The count stops growing once the remaining bits are clear.
pub proof fn lemma_pop_below_high_zero(m: u128, l: nat, n: nat)
    requires
        l <= n <= 128,
        forall|j: u128| l <= j < n ==> !bit(m, j),
    ensures
        pop_below(m, n) == pop_below(m, l),
    decreases n,
{
    if n > l {
        lemma_pop_below_high_zero(m, l, (n - 1) as nat);
    }
}

/// Counting over a longer prefix never counts fewer bits.
pub proof fn lemma_pop_below_mono(m: u128, l: nat, n: nat)
    requires
        l <= n,
    ensures
        pop_below(m, l) <= pop_below(m, n),
    decreases n,
{
    if n > l {
        lemma_pop_below_mono(m, l, (n - 1) as nat);
    }
}

/// Bitmaps that agree below `n` count the same there.
pub proof fn lemma_pop_below_agree(a: u128, b: u128, n: nat)
    requires
        n <= 128,
        forall|i: u128| i < n ==> bit(a, i) == bit(b, i),
    ensures
        pop_below(a, n) == pop_below(b, n),
    decreases n,
{
    if n > 0 {
        lemma_pop_below_agree(a, b, (n - 1) as nat);
    }
}

/// Clearing a run `[s, s+r)` of bits that are all set in `a` removes
/// exactly the part of the run below `n` from the count.
pub proof fn lemma_pop_below_clear_run(a: u128, b: u128, s: nat, r: nat, n: nat)
    requires
        s + r <= 128,
        n <= 128,
        forall|i: u128| s <= i < s + r ==> bit(a, i),
        forall|i: u128| i < 128 ==> bit(b, i) == (bit(a, i) && !(s <= i < s + r)),
    ensures
        pop_below(a, n) == pop_below(b, n) + if n <= s {
            0nat
        } else if n <= s + r {
            (n - s) as nat
        } else {
            r
        },
    decreases n,
{
    if n > 0 {
        lemma_pop_below_clear_run(a, b, s, r, (n - 1) as nat);
    }
}

/// Bitmap with exactly the bits below `l` set.
pub open spec fn low_bits(l: nat) -> u128 {
    if l >= 128 {
        u128::MAX
    } else {
        (((1u128 << (l as u128)) - 1) as u128)
    }
}

/// Which bits `low_bits` sets.
pub proof fn lemma_low_bits(l: nat)
    ensures
        forall|i: u128| i < 128 ==> (bit(low_bits(l), i) <==> i < l),
{
    if l >= 128 {
        lemma_bit_algebra();
    } else {
        let lv = l as u128;
        assert forall|i: u128| i < 128 implies (bit(low_bits(l), i) <==> i < l) by {
            assert((lv < 128 && i < 128) ==> (bit((((1u128 << lv) - 1) as u128), i) <==> i < lv))
                by (bit_vector);
        }
    }
}

/// The capacity mask of a payload with `len` positions: exactly the
/// bits of the slots the payload can back, `[0, min(len, 128))`.
pub fn cap_mask(len: usize) -> (cm: u128)
    ensures
        cm == low_bits(len as nat),
{
    if len >= 128 {
        u128::MAX
    } else {
        let sh: u128 = len as u128;
        proof {
            assert(sh < 128 ==> 1u128 << sh >= 1) by (bit_vector);
        }
        (1u128 << sh) - 1
    }
}

/// Index of the lowest set bit of `m`.
pub fn lowest_set_bit(m: u128) -> (r: u32)
    requires
        m != 0,
    ensures
        r < 128,
        bit(m, r as u128),
        forall|j: u128| j < r ==> !bit(m, j),
{
    proof {
        lemma_shift_facts();
    }
    let mut i: u32 = 0;
    let mut x: u128 = m;
    while x & 1 == 0
        invariant
            m != 0,
            i < 128,
            x == m >> (i as u128),
            x != 0,
            forall|j: u128| j < i ==> !bit(m, j),
        decreases 128 - i,
    {
        proof {
            lemma_shift_facts();
        }
        x = x >> 1;
        i = i + 1;
    }
    i
}

/// Length of the run of consecutive set bits of `m` that starts at `s`.
pub fn run_length_from(m: u128, s: u32) -> (r: u32)
    requires
        s < 128,
        bit(m, s as u128),
    ensures
        1 <= r,
        s + r <= 128,
        forall|j: u128| s <= j < s + r ==> bit(m, j),
        s + r < 128 ==> !bit(m, (s + r) as u128),
{
    proof {
        lemma_shift_facts();
    }
    let mut r: u32 = 0;
    let mut x: u128 = m >> s;
    while x & 1 == 1
        invariant
            s < 128,
            bit(m, s as u128),
            s + r <= 128,
            x == m >> ((s + r) as u128),
            forall|j: u128| s <= j < s + r ==> bit(m, j),
        decreases 128 - r,
    {
        proof {
            lemma_shift_facts();
        }
        x = x >> 1;
        r = r + 1;
    }
    r
}

/// Population count of `m`.
pub fn popcount(m: u128) -> (r: u32)
    ensures
        r == pop_below(m, 128),
{
    proof {
        lemma_shift_facts();
    }
    let mut i: u32 = 0;
    let mut x: u128 = m;
    let mut r: u32 = 0;
    while i < 128
        invariant
            i <= 128,
            r <= i,
            x == m >> (i as u128),
            r == pop_below(m, i as nat),
        decreases 128 - i,
    {
        proof {
            lemma_shift_facts();
        }
        if x & 1 == 1 {
            r = r + 1;
        }
        x = x >> 1;
        i = i + 1;
    }
    r
}

} // verus!
