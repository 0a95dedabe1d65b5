use ercs::block::{DefaultAlloc, DenseBlock, SparseBlock};
use ercs::iter::{intersect, intersect_dense};

#[test]
fn dense_views_single_run() {
    let mut d = DenseBlock::<u32, DefaultAlloc>::new_in(8, DefaultAlloc);
    d.inner.data.push(0);
    d.inner.data.push(0);
    d.inner.data.push(10);
    d.inner.data.push(11);
    d.inner.data.push(12);
    d.inner.data.push(13);
    d.set_all(0b00111100);
    let mut runs: Vec<usize> = Vec::new();
    let mut it = d.views_dense();
    while let Some(v) = it.next() {
        runs.push(v.len());
    }
    assert_eq!(runs, vec![4]);
}

#[test]
fn dense_views_multiple_runs() {
    let mut d = DenseBlock::<u32, DefaultAlloc>::new_in(8, DefaultAlloc);
    d.inner.data.push(0);
    d.inner.data.push(10);
    d.inner.data.push(11);
    d.inner.data.push(0);
    d.inner.data.push(14);
    d.set_all(0b10110);
    let mut runs: Vec<usize> = Vec::new();
    let mut it = d.views_dense();
    while let Some(v) = it.next() {
        runs.push(v.len());
    }
    assert_eq!(runs, vec![2, 1]);
}

#[test]
fn sparse_views_single_run() {
    let mut s = SparseBlock::<u32, DefaultAlloc>::new_in(DefaultAlloc);
    for i in 2..6u32 {
        s.write(i, i);
    }
    let bits = 0b00111100u128;
    s.inner.set_all(bits);
    let mut runs: Vec<usize> = Vec::new();
    let mut it = s.views();
    while let Some(v) = it.next() {
        runs.push(v.len());
    }
    assert_eq!(runs, vec![4]);
}

#[test]
fn sparse_views_multiple_runs() {
    let mut s = SparseBlock::<u32, DefaultAlloc>::new_in(DefaultAlloc);
    for &i in &[1u32, 2, 4] {
        s.write(i, i);
    }
    let bits = 0b10110u128;
    s.inner.set_all(bits);
    let mut runs: Vec<usize> = Vec::new();
    let mut it = s.views();
    while let Some(v) = it.next() {
        runs.push(v.len());
    }
    assert_eq!(runs, vec![2, 1]);
}

#[test]
fn sparse_views_complement_uses_absence_mask() {
    let mut s = SparseBlock::<u32, DefaultAlloc>::new_in(DefaultAlloc);
    for &i in &[1u32, 2, 3, 4, 8, 9] {
        s.write(i, i);
    }
    let sel = (1u128 << 1) | (1u128 << 2) | (1u128 << 3) | (1u128 << 4) | (1u128 << 8)
        | (1u128 << 9);
    s.inner.set_all(sel);
    s.inner.header.absence_mask |= (1u128 << 2) | (1u128 << 9);
    let mut runs: Vec<usize> = Vec::new();
    let mut it = s.views_complement();
    while let Some(v) = it.next() {
        runs.push(v.len());
    }
    assert_eq!(runs, vec![1, 2, 1]);
}

#[test]
fn intersect_dense_runs_yields_tuple_views() {
    let mut a = DenseBlock::<u32, DefaultAlloc>::new_in(10, DefaultAlloc);
    let mut b = DenseBlock::<u64, DefaultAlloc>::new_in(10, DefaultAlloc);
    for x in [0u32, 1, 2, 3, 4, 5, 6, 7, 8, 9] {
        a.inner.data.push(x);
    }
    for x in [10u64, 11, 12, 13, 14, 15, 16, 17, 18, 19] {
        b.inner.data.push(x);
    }
    let ma = (1u128 << 2) | (1u128 << 3) | (1u128 << 4) | (1u128 << 5) | (1u128 << 8);
    let mb = (1u128 << 3) | (1u128 << 4) | (1u128 << 8);
    a.set_all(ma);
    b.set_all(mb);
    let mut pairs: Vec<(usize, usize)> = Vec::new();
    let mut it = intersect_dense(a.views_dense(), b.views_dense());
    while let Some((va, vb)) = it.next() {
        pairs.push((va.len(), vb.len()));
    }
    assert_eq!(pairs, vec![(2, 2), (1, 1)]);
}

#[test]
fn all_and_either_sparse_only_iterate_ab() {
    let mut a = SparseBlock::<u32, DefaultAlloc>::new_in(DefaultAlloc);
    let mut b = SparseBlock::<u32, DefaultAlloc>::new_in(DefaultAlloc);
    let mut c = SparseBlock::<u32, DefaultAlloc>::new_in(DefaultAlloc);
    let mut d = SparseBlock::<u32, DefaultAlloc>::new_in(DefaultAlloc);
    let mut e = SparseBlock::<u32, DefaultAlloc>::new_in(DefaultAlloc);

    for i in [2u32, 3, 4, 8, 9] {
        a.write(i, i);
    }
    for i in [3u32, 4, 9] {
        b.write(i, i);
    }
    for i in [4u32, 9] {
        c.write(i, i);
    }
    for i in [3u32] {
        d.write(i, i);
    }
    for i in [8u32] {
        e.write(i, i);
    }

    let ma = (1u128 << 2) | (1u128 << 3) | (1u128 << 4) | (1u128 << 8) | (1u128 << 9);
    let mb = (1u128 << 3) | (1u128 << 4) | (1u128 << 9);
    let mc = (1u128 << 4) | (1u128 << 9);
    let md = 1u128 << 3;
    let me = 1u128 << 8;

    a.inner.set_all(ma);
    b.inner.set_all(mb);
    c.inner.set_all(mc);
    d.inner.set_all(md);
    e.inner.set_all(me);

    let either = {
        let cm = c.inner.presence_mask;
        let dm = d.inner.presence_mask;
        let em = e.inner.presence_mask;
        cm | dm | em
    };
    let mut pairs: Vec<(usize, usize)> = Vec::new();
    let mut it = intersect(a.views(), b.views()).and_mask(either);
    while let Some((va, vb)) = it.next() {
        pairs.push((va.len(), vb.len()));
    }
    assert_eq!(pairs, vec![(2, 2), (1, 1)]);
}

#[test]
fn all_and_either_dense_only_iterate_ab() {
    let mut a = DenseBlock::<u32, DefaultAlloc>::new_in(10, DefaultAlloc);
    let mut b = DenseBlock::<u32, DefaultAlloc>::new_in(10, DefaultAlloc);
    let mut c = DenseBlock::<u32, DefaultAlloc>::new_in(10, DefaultAlloc);
    let mut d = DenseBlock::<u32, DefaultAlloc>::new_in(10, DefaultAlloc);
    let mut e = DenseBlock::<u32, DefaultAlloc>::new_in(10, DefaultAlloc);

    for x in 0..10u32 {
        a.inner.data.push(x);
        b.inner.data.push(x);
        c.inner.data.push(x);
        d.inner.data.push(x);
        e.inner.data.push(x);
    }

    let ma = (1u128 << 3) | (1u128 << 4) | (1u128 << 8);
    let mb = (1u128 << 3) | (1u128 << 4) | (1u128 << 9);
    let mc = (1u128 << 4) | (1u128 << 9);
    let md = 1u128 << 3;
    let me = 1u128 << 8;

    a.set_all(ma);
    b.set_all(mb);
    c.set_all(mc);
    d.set_all(md);
    e.set_all(me);

    let either = {
        let cm = c.inner.presence_mask;
        let dm = d.inner.presence_mask;
        let em = e.inner.presence_mask;
        cm | dm | em
    };
    let mut pairs: Vec<(usize, usize)> = Vec::new();
    let mut it = intersect_dense(a.views_dense(), b.views_dense()).and_mask(either);
    while let Some((va, vb)) = it.next() {
        pairs.push((va.len(), vb.len()));
    }
    assert_eq!(pairs, vec![(2, 2)]);
}

#[test]
fn intersect_sparse_runs_yields_tuple_views() {
    let mut a = SparseBlock::<u32, DefaultAlloc>::new_in(DefaultAlloc);
    let mut b = SparseBlock::<u64, DefaultAlloc>::new_in(DefaultAlloc);
    for i in [2u32, 3, 4, 9] {
        a.write(i, i);
    }
    for i in [3u32, 4, 9] {
        b.write(i, i as u64);
    }
    let ma = (1u128 << 2) | (1u128 << 3) | (1u128 << 4) | (1u128 << 9);
    let mb = (1u128 << 3) | (1u128 << 4) | (1u128 << 9);
    a.inner.set_all(ma);
    b.inner.set_all(mb);
    let mut pairs: Vec<(usize, usize)> = Vec::new();
    let mut it = intersect(a.views(), b.views());
    while let Some((va, vb)) = it.next() {
        pairs.push((va.len(), vb.len()));
    }
    assert_eq!(pairs, vec![(2, 2), (1, 1)]);
}

#[test]
fn sparse_views_full_presence_is_one_run_of_128() {
    let mut s = SparseBlock::<u8, DefaultAlloc>::new_in(DefaultAlloc);
    for i in 0..128u32 {
        s.write(i, i as u8);
    }
    s.inner.set_all(u128::MAX);
    let mut runs: Vec<usize> = Vec::new();
    let mut it = s.views();
    while let Some(v) = it.next() {
        runs.push(v.len());
    }
    assert_eq!(runs, vec![128]);
}

#[test]
fn sparse_views_yield_written_values_in_slot_order() {
    let mut s = SparseBlock::<u32, DefaultAlloc>::new_in(DefaultAlloc);
    for &i in &[5u32, 6, 7, 40] {
        s.write(i, 100 + i);
    }
    s.inner.set_all((1u128 << 5) | (1u128 << 6) | (1u128 << 7) | (1u128 << 40));
    let mut seen: Vec<u32> = Vec::new();
    let mut it = s.views();
    while let Some(v) = it.next() {
        for cell in v.as_slice() {
            seen.push(cell.unwrap());
        }
    }
    assert_eq!(seen, vec![105, 106, 107, 140]);
}

#[test]
fn intersect_dense_pairs_values_by_each_stores_own_layout() {
    let mut a = DenseBlock::<u32, DefaultAlloc>::new_in(4, DefaultAlloc);
    let mut b = DenseBlock::<u32, DefaultAlloc>::new_in(4, DefaultAlloc);
    a.inner.data.push(20);
    a.inner.data.push(30);
    a.inner.data.push(0);
    a.inner.data.push(0);
    b.inner.data.push(99);
    b.inner.data.push(0);
    b.inner.data.push(0);
    b.inner.data.push(0);
    a.set_all((1u128 << 2) | (1u128 << 3));
    b.set_all(1u128 << 3);
    let mut it = intersect_dense(a.views_dense(), b.views_dense());
    let (va, vb) = it.next().unwrap();
    assert_eq!(va.as_slice(), &[30]);
    assert_eq!(vb.as_slice(), &[99]);
    assert!(it.next().is_none());
}

#[test]
fn and_mask_keeps_each_stores_own_layout() {
    let mut a = DenseBlock::<u32, DefaultAlloc>::new_in(4, DefaultAlloc);
    let mut b = DenseBlock::<u32, DefaultAlloc>::new_in(4, DefaultAlloc);
    for x in [11u32, 12, 13, 0] {
        a.inner.data.push(x);
    }
    for x in [22u32, 23, 0, 0] {
        b.inner.data.push(x);
    }
    a.set_all((1u128 << 1) | (1u128 << 2) | (1u128 << 3));
    b.set_all((1u128 << 2) | (1u128 << 3));
    let mut it = intersect_dense(a.views_dense(), b.views_dense()).and_mask(1u128 << 3);
    let (va, vb) = it.next().unwrap();
    assert_eq!(va.as_slice(), &[13]);
    assert_eq!(vb.as_slice(), &[23]);
    assert!(it.next().is_none());
}

#[test]
fn dense_views_consume_packed_positions_in_order() {
    let mut d = DenseBlock::<u32, DefaultAlloc>::new_in(8, DefaultAlloc);
    d.inner.data.push(70);
    d.inner.data.push(71);
    d.inner.data.push(90);
    d.inner.data.push(0);
    d.inner.data.push(0);
    d.set_all((1u128 << 0) | (1u128 << 1) | (1u128 << 3));
    let mut seen: Vec<u32> = Vec::new();
    let mut it = d.views_dense();
    while let Some(v) = it.next() {
        for x in v.as_slice() {
            seen.push(*x);
        }
    }
    assert_eq!(seen, vec![70, 71, 90]);
}
