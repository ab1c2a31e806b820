use lib::malloc::{layout_for, TestAllocHeader, TEST_ALLOC_MAGIC};
use lib::sparse_array::{is_region_valid, sparse_array_read, sparse_array_write, SparseArray};

#[test]
fn sparse_array_needs_a_size_and_blocks() {
    assert!(SparseArray::new(0, 4, 2, 2).is_none());
    assert!(SparseArray::new(4, 4, 0, 2).is_none());
    assert!(SparseArray::new(u32::MAX, u32::MAX, 1, 1).is_none());
    let sa = SparseArray::new(10, 6, 4, 4).unwrap();
    assert!(is_region_valid(&sa, 0, 0, 10, 6));
    assert!(!is_region_valid(&sa, 0, 0, 11, 6));
    assert!(!is_region_valid(&sa, 3, 0, 3, 6));
}

#[test]
fn sparse_array_reads_back_what_was_written() {
    let mut sa = SparseArray::new(10, 6, 4, 4).unwrap();
    let src = [1, 2, 3, 4, 5, 6, 7, 8];
    assert!(sparse_array_write(&mut sa, 3, 2, 7, 4, &src, 1, 4, false));
    let mut dest = vec![-1; 8];
    assert!(sparse_array_read(&sa, 3, 2, 7, 4, &mut dest, 1, 4, false));
    assert_eq!(dest, src.to_vec());
    let mut all = vec![-1; 60];
    assert!(sparse_array_read(&sa, 0, 0, 10, 6, &mut all, 1, 10, false));
    assert_eq!(all[2 * 10 + 3], 1);
    assert_eq!(all[3 * 10 + 6], 8);
    assert_eq!(all[0], 0);
    assert_eq!(all[5 * 10 + 9], 0);
}

#[test]
fn sparse_array_invalid_regions() {
    let mut sa = SparseArray::new(4, 4, 2, 2).unwrap();
    let mut dest = vec![7; 4];
    assert!(sparse_array_read(&sa, 2, 2, 5, 3, &mut dest, 1, 2, true));
    assert!(!sparse_array_read(&sa, 2, 2, 5, 3, &mut dest, 1, 2, false));
    assert_eq!(dest, vec![7; 4]);
    assert!(!sparse_array_write(&mut sa, 0, 0, 0, 1, &[1], 1, 1, false));
    let mut d = vec![9; 1];
    assert!(sparse_array_read(&sa, 0, 0, 1, 1, &mut d, 1, 1, false));
    assert_eq!(d, vec![0]);
}

#[test]
fn test_allocations_keep_their_size() {
    let a = TestAllocHeader::malloc(5);
    assert!(a.header.is_valid());
    assert_eq!(a.header.size, 5);
    assert_eq!(a.bytes, vec![0; 5]);
    let mut b = TestAllocHeader::realloc(Some(a), 8);
    assert_eq!(b.header.size, 8);
    assert_eq!(b.bytes.len(), 8);
    TestAllocHeader::free(&mut b);
    assert!(!b.header.is_valid());
    assert_eq!(b.header.magic, 0);
    let c = TestAllocHeader::calloc(3, 4).unwrap();
    assert_eq!(c.header.size, 12);
    assert_eq!(c.header.magic, TEST_ALLOC_MAGIC);
    assert!(TestAllocHeader::calloc(usize::MAX, 2).is_none());
    assert!(TestAllocHeader::size() >= 8);
}

#[test]
fn realloc_keeps_the_first_bytes() {
    let mut a = TestAllocHeader::malloc(3);
    a.bytes = vec![1, 2, 3];
    let b = TestAllocHeader::realloc(Some(a), 2);
    assert_eq!(b.bytes, vec![1, 2]);
    let c = TestAllocHeader::realloc(Some(b), 4);
    assert_eq!(c.bytes, vec![1, 2, 0, 0]);
    let l = layout_for(100);
    assert_eq!((l.size, l.align), (116, 16));
}

#[test]
fn sparse_array_write_allocates_exactly_the_blocks_it_meets() {
    // 10 x 6 samples in blocks of 4 x 4: a grid of 3 x 2 blocks.
    let mut sa = SparseArray::new(10, 6, 4, 4).unwrap();
    assert!(sparse_array_write(&mut sa, 3, 2, 7, 4, &[1, 2, 3, 4, 5, 6, 7, 8], 1, 4, false));
    // Columns 3..7 meet block columns 0 and 1, rows 2..4 block row 0 only.
    assert!(sa.data_block(0, 0).is_some());
    assert!(sa.data_block(1, 0).is_some());
    assert!(sa.data_block(2, 0).is_none());
    assert!(sa.data_block(0, 1).is_none());
    assert!(sa.data_block(1, 1).is_none());
    assert!(sa.data_block(2, 1).is_none());
    let b = sa.data_block(0, 0).unwrap();
    assert_eq!(b.len(), 16);
    assert_eq!(b[2 * 4 + 3], 1);
    assert_eq!(b[0], 0);
}
