//! Decomposition of a presence bitmap into maximal runs of contiguous
//! set bits, the shape every batch iterator of this crate walks.

use vstd::prelude::*;
use crate::mask::{bit, lowest_set_bit, run_length_from, lemma_bit_algebra};

verus! {

/// One maximal run of contiguous set bits: slots `[start, start + len)`.
#[derive(Clone, Copy, Debug, PartialEq, Eq, Structural)]
pub struct Run {
    pub start: u32,
    pub len: u32,
}

/// `[s, s+r)` is the lowest maximal run of set bits of `m`.
pub open spec fn is_lowest_run(m: u128, s: nat, r: nat) -> bool {
    &&& 1 <= r
    &&& s + r <= 128
    &&& (forall|j: u128| j < s ==> !bit(m, j))
    &&& (forall|j: u128| s <= j < s + r ==> bit(m, j))
    &&& (s + r < 128 ==> !bit(m, (s + r) as u128))
}

/// Slot `i` lies inside `run`.
pub open spec fn in_run(run: Run, i: u128) -> bool {
    run.start <= i < run.start + run.len
}

/// Some run of `runs` contains slot `i`.
pub open spec fn covered(runs: Seq<Run>, i: u128) -> bool {
    exists|k: int| 0 <= k < runs.len() && in_run(#[trigger] runs[k], i)
}

/// The lowest maximal run of set bits of `m`.
pub fn lowest_run(m: u128) -> (run: Run)
    requires
        m != 0,
    ensures
        is_lowest_run(m, run.start as nat, run.len as nat),
{
    let start = lowest_set_bit(m);
    let len = run_length_from(m, start);
    Run { start, len }
}

/// Bitmap with exactly the bits of `run` set. A full-width run yields the
/// all-ones pattern directly: building it by shifting `1` left 128 times
/// would overflow the shift.
#[verifier::rlimit(60)]
pub fn run_mask(run: Run) -> (rm: u128)
    requires
        run.start < 128,
        1 <= run.len,
        run.start + run.len <= 128,
    ensures
        forall|i: u128| i < 128 ==> (bit(rm, i) <==> in_run(run, i)),
{
    let s: u128 = run.start as u128;
    let r: u128 = run.len as u128;
    if run.len == 128 {
        proof {
            lemma_bit_algebra();
        }
        u128::MAX
    } else {
        proof {
            assert(r < 128 ==> 1u128 << r >= 1) by (bit_vector);
        }
        let rm = ((1u128 << r) - 1) << s;
        proof {
            assert forall|i: u128| i < 128 implies (bit(rm, i) <==> s <= i < s + r) by {
                assert((s < 128 && 1 <= r && r < 128 && s + r <= 128 && i < 128) ==> (bit(
                    ((((1u128 << r) - 1) as u128) << s),
                    i,
                ) <==> (s <= i && i < s + r))) by (bit_vector);
            }
        }
        rm
    }
}

/// Splits a bitmap into its maximal runs of set bits, in ascending order.
///
/// Run extraction is complete: the runs are non-overlapping, strictly
/// ascending with at least one clear bit between consecutive runs, and
/// their union is exactly the set bits of `m`. In particular the all-ones
/// bitmap yields the single run `[0, 128)`.
pub fn run_ranges(m: u128) -> (runs: Vec<Run>)
    ensures
        forall|k: int|
            0 <= k < runs@.len() ==> 1 <= (#[trigger] runs@[k]).len && runs@[k].start + runs@[k].len
                <= 128,
        forall|k: int|
            0 <= k && k + 1 < runs@.len() ==> (#[trigger] runs@[k]).start + runs@[k].len < runs@[k
                + 1].start,
        forall|i: u128| i < 128 ==> (bit(m, i) <==> covered(runs@, i)),
{
    let mut runs: Vec<Run> = Vec::new();
    let mut mm: u128 = m;
    let ghost mut gb: nat = 0nat;
    proof {
        lemma_bit_algebra();
    }
    while mm != 0
        invariant
            gb <= 128,
            forall|i: u128| i < gb ==> !bit(mm, i),
            forall|i: u128| gb <= i < 128 ==> bit(mm, i) == bit(m, i),
            forall|i: u128| i < 128 && i < gb ==> (bit(m, i) <==> covered(runs@, i)),
            forall|k: int|
                0 <= k < runs@.len() ==> 1 <= (#[trigger] runs@[k]).len && runs@[k].start
                    + runs@[k].len <= gb,
            forall|k: int|
                0 <= k && k + 1 < runs@.len() ==> (#[trigger] runs@[k]).start + runs@[k].len
                    < runs@[k + 1].start,
            forall|k: int|
                0 <= k < runs@.len() && (#[trigger] runs@[k]).start + runs@[k].len < 128 ==> !bit(
                    m,
                    (runs@[k].start + runs@[k].len) as u128,
                ),
        decreases 128 - gb,
    {
        proof {
            lemma_bit_algebra();
        }
        let ghost old_runs = runs@;
        let ghost old_gb = gb;
        let run = lowest_run(mm);
        let rm = run_mask(run);
        let ghost s = run.start as nat;
        let ghost r = run.len as nat;
        proof {
            // The new run starts at or after the processed boundary.
            assert(bit(mm, run.start as u128));
            assert(s >= old_gb);
        }
        runs.push(run);
        let ghost old_mm = mm;
        mm = mm & !rm;
        proof {
            gb = s + r;
            assert forall|i: u128| i < gb implies !bit(mm, i) by {
                if i < s {
                } else {
                    assert(bit(rm, i));
                }
            }
            assert forall|i: u128| gb <= i < 128 implies bit(mm, i) == bit(m, i) by {
                assert(!bit(rm, i));
                assert(bit(old_mm, i) == bit(m, i));
            }
            assert forall|i: u128| i < 128 && i < gb implies (bit(m, i) <==> covered(
                runs@,
                i,
            )) by {
                let kn = old_runs.len() as int;
                if i < old_gb {
                    if covered(runs@, i) {
                        let k = choose|k: int| 0 <= k < runs@.len() && in_run(runs@[k], i);
                        if k < kn {
                            assert(covered(old_runs, i));
                        } else {
                            assert(in_run(run, i));
                        }
                    }
                    if covered(old_runs, i) {
                        let k = choose|k: int| 0 <= k < old_runs.len() && in_run(old_runs[k], i);
                        assert(in_run(runs@[k], i));
                    }
                } else if i < s {
                    assert(bit(old_mm, i) == bit(m, i));
                    assert(!bit(old_mm, i));
                    if covered(runs@, i) {
                        let k = choose|k: int| 0 <= k < runs@.len() && in_run(runs@[k], i);
                        if k < kn {
                            assert(old_runs[k].start + old_runs[k].len <= old_gb);
                            assert(false);
                        } else {
                            assert(false);
                        }
                    }
                } else {
                    assert(bit(old_mm, i) == bit(m, i));
                    assert(bit(old_mm, i));
                    assert(in_run(runs@[kn], i));
                }
            }
            assert forall|k: int|
                0 <= k && k + 1 < runs@.len() implies (#[trigger] runs@[k]).start + runs@[k].len
                < runs@[k + 1].start by {
                let kn = old_runs.len() as int;
                if k + 1 < kn {
                } else {
                    // The separating clear bit keeps the new run strictly
                    // after the previous one.
                    assert(runs@[k] == old_runs[k]);
                    assert(runs@[k + 1] == run);
                    let e = old_runs[k].start + old_runs[k].len;
                    assert(e <= old_gb);
                    assert(e < 128 ==> !bit(m, e as u128));
                    assert(bit(old_mm, run.start as u128));
                    assert(bit(m, run.start as u128));
                }
            }
        }
    }
    proof {
        lemma_bit_algebra();
        assert forall|i: u128| i < 128 implies (bit(m, i) <==> covered(runs@, i)) by {
            if i >= gb {
                assert(bit(mm, i) == bit(m, i));
                if covered(runs@, i) {
                    let k = choose|k: int| 0 <= k < runs@.len() && in_run(runs@[k], i);
                    assert(runs@[k].start + runs@[k].len <= gb);
                    assert(false);
                }
            }
        }
    }
    runs
}

} // verus!
