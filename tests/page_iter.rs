use gtrace::PageIter;

fn check(addr: usize, len: usize, v: Vec<(usize, usize)>) {
    let iov: Vec<(usize, usize)> = PageIter::new(addr, len, 10).collect();
    assert_eq!(iov, v);
}

#[test]
fn test_page_iter() {
    check(3, 5, vec![(3, 5)]);
    check(3, 21, vec![(3, 7), (10, 10), (20, 4)]);
    check(10, 10, vec![(10, 10)]);
    check(10, 11, vec![(10, 10), (20, 1)]);
    check(10, 0, vec![]);
}

#[test]
fn pieces_are_contiguous_and_sum_to_length() {
    let (a, l, p) = (4093usize, 10000usize, 4096usize);
    let pieces = PageIter::new(a, l, p).collect();
    assert_eq!(pieces.first().unwrap().0, a);
    let mut next = a;
    let mut sum = 0usize;
    for (i, &(start, len)) in pieces.iter().enumerate() {
        assert_eq!(start, next);
        assert!(len > 0);
        if i > 0 && i + 1 < pieces.len() {
            assert_eq!(len, p);
        }
        next = start + len;
        sum += len;
    }
    assert_eq!(sum, l);
    assert_eq!(pieces, vec![(4093, 3), (4096, 4096), (8192, 4096), (12288, 1805)]);
}

#[test]
fn next_walks_one_piece_at_a_time() {
    let mut it = PageIter::new(5, 7, 4);
    assert_eq!(it.next(), Some((5, 3)));
    assert_eq!(it.next(), Some((8, 4)));
    assert_eq!(it.next(), None);
    assert_eq!(it.next(), None);
}

#[test]
fn range_ending_at_top_of_address_space() {
    let a = usize::MAX - 5;
    let pieces = PageIter::new(a, 5, 4096).collect();
    assert_eq!(pieces, vec![(a, 5)]);
}
