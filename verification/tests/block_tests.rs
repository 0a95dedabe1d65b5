use std::cell::Cell;
use std::rc::Rc;

use ercs::block::{DefaultAlloc, DenseBlock, SparseBlock};

#[test]
fn sparse_block_new_in_initializes_header_and_masks() {
    let bump = bumpalo::Bump::new();
    let _ = &bump;

    let b = SparseBlock::<u32, DefaultAlloc>::new_in(DefaultAlloc);

    assert_eq!(b.inner.presence_mask, 0);
    assert_eq!(b.inner.absence_mask, 0);

    assert_eq!(b.inner.count(), 0);
    assert!(!b.inner.has(0));
}

#[test]
fn sparse_block_set_all_updates_masks() {
    let mut b = SparseBlock::<u32, DefaultAlloc>::new_in(DefaultAlloc);
    b.inner.set_all(0b101);
    assert_eq!(b.inner.presence_mask, 0b101);
    assert_eq!(b.inner.absence_mask, 0);

    b.inner.set_all(0b111);
    assert_eq!(b.inner.presence_mask, 0b111);
    assert_eq!(b.inner.header.absence_mask, 0);
}

#[test]
fn sparse_block_set_all_clears_overlapping_skip_bits() {
    let mut b = SparseBlock::<u32, DefaultAlloc>::new_in(DefaultAlloc);
    b.inner.absence_mask = 0b101;
    b.inner.set_all(0b111);
    assert_eq!(b.inner.presence_mask, 0b111);
    assert_eq!(b.inner.absence_mask, 0);
}

#[test]
fn sparse_block_clear_all_clears_select_bits() {
    let mut b = SparseBlock::<u32, DefaultAlloc>::new_in(DefaultAlloc);
    b.inner.set_all(0b1011);
    b.inner.clear_all(0b0001);
    assert_eq!(b.inner.presence_mask, 0b1010);
    assert_eq!(b.inner.absence_mask, 0);
}

#[test]
fn sparse_block_clear_all_clears_skip_bits() {
    let mut b = SparseBlock::<u32, DefaultAlloc>::new_in(DefaultAlloc);
    b.inner.skip_all(0b0101);
    b.inner.clear_all(0b0001);
    assert_eq!(b.inner.absence_mask, 0b0100);
    assert_eq!(b.inner.presence_mask, 0);
}

#[test]
fn sparse_block_clear_all_clears_both_masks() {
    let mut b = SparseBlock::<u32, DefaultAlloc>::new_in(DefaultAlloc);
    b.inner.set_all(0b0011);
    b.inner.skip_all(0b1000);
    b.inner.clear_all(0b1011);
    assert_eq!(b.inner.presence_mask, 0);
    assert_eq!(b.inner.absence_mask, 0);
}

#[test]
fn invariant_disjointness_after_set_and_skip_sequences() {
    let mut b = SparseBlock::<u32, DefaultAlloc>::new_in(DefaultAlloc);
    let _ = b.inner.set_all(0b0110);
    assert_eq!(b.inner.presence_mask & b.inner.absence_mask, 0);
    let _ = b.inner.skip_all(0b0011);
    assert_eq!(b.inner.presence_mask & b.inner.absence_mask, 0);
    let _ = b.inner.set_all(0b1111);
    assert_eq!(b.inner.presence_mask & b.inner.absence_mask, 0);
    let _ = b.inner.skip_all(0b1100);
    assert_eq!(b.inner.presence_mask & b.inner.absence_mask, 0);
}

#[test]
fn set_all_idempotent_and_disjointness() {
    let mut b = SparseBlock::<u32, DefaultAlloc>::new_in(DefaultAlloc);
    b.inner.set_all(0b0101);
    b.inner.set_all(0b0101);
    assert_eq!(b.inner.presence_mask, 0b0101);
    assert_eq!(b.inner.absence_mask, 0);
    assert_eq!(b.inner.presence_mask & b.inner.absence_mask, 0);
}

#[test]
fn skip_all_idempotent_and_disjointness() {
    let mut b = SparseBlock::<u32, DefaultAlloc>::new_in(DefaultAlloc);
    b.inner.skip_all(0b1010);
    b.inner.skip_all(0b1010);
    assert_eq!(b.inner.absence_mask, 0b1010);
    assert_eq!(b.inner.presence_mask, 0);
    assert_eq!(b.inner.presence_mask & b.inner.absence_mask, 0);
}

#[test]
fn set_then_skip_same_bits_disjoint_result() {
    let mut b = SparseBlock::<u32, DefaultAlloc>::new_in(DefaultAlloc);
    let _ = b.inner.set_all(0b1010);
    let _ = b.inner.skip_all(0b1000);
    assert_eq!(b.inner.presence_mask, 0b0010);
    assert_eq!(b.inner.absence_mask, 0b1000);
    assert_eq!(b.inner.presence_mask & b.inner.absence_mask, 0);
}

#[test]
fn skip_then_set_same_bits_disjoint_result() {
    let mut b = SparseBlock::<u32, DefaultAlloc>::new_in(DefaultAlloc);
    let _ = b.inner.skip_all(0b1001);
    let _ = b.inner.set_all(0b0001);
    assert_eq!(b.inner.absence_mask, 0b1000);
    assert_eq!(b.inner.presence_mask, 0b0001);
    assert_eq!(b.inner.presence_mask & b.inner.absence_mask, 0);
}

#[test]
fn dense_block_set_all_updates_presence_mask_and_returns_changed_count() {
    let mut d = DenseBlock::<u32, DefaultAlloc>::new_in(8, DefaultAlloc);
    d.set_all(0b0101);
    assert_eq!(d.inner.presence_mask, 0b0101);
    assert_eq!(d.inner.count(), 2);

    d.set_all(0b0111);
    assert_eq!(d.inner.presence_mask, 0b0111);
    assert_eq!(d.inner.count(), 3);
}

#[test]
fn sparse_block_drop_drops_initialized_elements_using_mask() {
    struct Track(Rc<Cell<usize>>);
    impl Drop for Track {
        fn drop(&mut self) {
            self.0.set(self.0.get() + 1);
        }
    }

    let drops = Rc::new(Cell::new(0usize));
    let mut b = SparseBlock::<Track, DefaultAlloc>::new_in(DefaultAlloc);
    b.write(3, Track(drops.clone()));
    b.write(7, Track(drops.clone()));
    let bits = (1u128 << 3) | (1u128 << 7);
    b.inner.set_all(bits);

    let released = b.release_all();

    assert_eq!(released, 2);
    assert_eq!(drops.get(), 2);
    assert!(b.inner.data[3].is_none());
    assert!(b.inner.data[7].is_none());
    assert_eq!(b.inner.presence_mask, 0);
}

#[test]
fn dense_block_with_bumpalo_allocator() {
    let arena = bumpalo::Bump::new();
    let mut d = DenseBlock::<u32, &bumpalo::Bump>::new_in(8, &arena);
    d.inner.data.push(1);
    d.inner.data.push(2);
    d.set_all(0b11);
    assert_eq!(d.inner.presence_mask, 0b11);
    assert_eq!(d.inner.data.len(), 2);
}

#[test]
fn dense_page_with_bumpalo_allocator_recompute() {
    let arena = bumpalo::Bump::new();
    let mut page = DenseBlock::<Box<DenseBlock<u32, &bumpalo::Bump>>, &bumpalo::Bump>::new_in(
        8, &arena,
    );

    let mut c0 = DenseBlock::<u32, &bumpalo::Bump>::new_in(8, &arena);
    let mut c1 = DenseBlock::<u32, &bumpalo::Bump>::new_in(8, &arena);

    c0.set_all(0b0011);
    c1.set_all(0b0101);

    page.inner.data.push(c0);
    page.inner.data.push(c1);

    page.recompute_all(0b0011);

    let sel = page.inner.data[0].inner.presence_mask | page.inner.data[1].inner.presence_mask;
    assert_eq!(page.inner.presence_mask, sel);
}

#[test]
fn sparse_page_recompute_prunes_rolled_up_absence() {
    let mut page =
        SparseBlock::<Box<SparseBlock<u32, DefaultAlloc>>, DefaultAlloc>::new_in(DefaultAlloc);

    let mut c0 = SparseBlock::<u32, DefaultAlloc>::new(DefaultAlloc);
    c0.inner.set_all(0b0011);
    let mut c1 = SparseBlock::<u32, DefaultAlloc>::new(DefaultAlloc);
    c1.inner.set_all(0b1100);
    c1.inner.header.absence_mask = 0b0100;

    page.write(0, Box::new(c0));
    page.write(1, Box::new(c1));

    page.recompute_all(0b0011);

    assert_eq!(page.inner.header.absence_mask, 0b0100);
    assert_eq!(page.inner.presence_mask, 0b1011);
}

#[test]
fn block_has_and_has_any_follow_presence() {
    let mut b = SparseBlock::<u8, DefaultAlloc>::new(DefaultAlloc);
    b.inner.set_all((1u128 << 5) | (1u128 << 9));
    assert!(b.inner.has(5));
    assert!(b.inner.has(9));
    assert!(!b.inner.has(6));
    assert!(b.inner.has_any(0b10_0000));
    assert!(!b.inner.has_any(0b01_0000));
    assert_eq!(b.inner.count(), 2);
}

#[test]
fn count_of_full_presence_is_128() {
    let mut b = SparseBlock::<u8, DefaultAlloc>::new(DefaultAlloc);
    b.inner.set_all(u128::MAX);
    assert_eq!(b.inner.count(), 128);
}
