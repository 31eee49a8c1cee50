use balancer::partition::{div_ceil, range};

#[test]
fn div_ceil_rounds_up() {
    assert_eq!(div_ceil(10, 3), 4);
    assert_eq!(div_ceil(9, 3), 3);
    assert_eq!(div_ceil(1, 3), 1);
    assert_eq!(div_ceil(0, 5), 0);
    assert_eq!(div_ceil(7, 1), 7);
    assert_eq!(div_ceil(7, 7), 1);
    assert_eq!(div_ceil(7, 8), 1);
}

#[test]
fn div_ceil_near_the_limit() {
    assert_eq!(div_ceil(usize::MAX, 1), usize::MAX);
    assert_eq!(div_ceil(usize::MAX, 2), usize::MAX / 2 + 1);
    assert_eq!(div_ceil(usize::MAX, usize::MAX), 1);
    assert_eq!(div_ceil(usize::MAX - 1, usize::MAX), 1);
}

#[test]
fn range_ten_over_three() {
    assert_eq!(range(10, 3, 0), (0, 4));
    assert_eq!(range(10, 3, 1), (4, 8));
    assert_eq!(range(10, 3, 2), (8, 10));
}

#[test]
fn range_single_rank_owns_all() {
    assert_eq!(range(10, 1, 0), (0, 10));
    assert_eq!(range(0, 1, 0), (0, 0));
}

#[test]
fn range_of_nothing_is_empty() {
    for rank in 0..4 {
        assert_eq!(range(0, 4, rank), (0, 0));
    }
}

#[test]
fn range_beyond_last_share_is_empty() {
    // ten items in shares of two: ranks 5 and 6 of 7 get nothing
    assert_eq!(range(10, 7, 4), (8, 10));
    assert_eq!(range(10, 7, 5), (10, 10));
    assert_eq!(range(10, 7, 6), (10, 10));
    assert_eq!(range(10, 7, 1000), (10, 10));
    assert_eq!(range(3, 5, usize::MAX), (3, 3));
}

#[test]
fn range_more_ranks_than_items() {
    assert_eq!(range(2, 5, 0), (0, 1));
    assert_eq!(range(2, 5, 1), (1, 2));
    assert_eq!(range(2, 5, 2), (2, 2));
    assert_eq!(range(2, 5, 4), (2, 2));
}

#[test]
fn range_near_the_limit() {
    assert_eq!(range(usize::MAX, 2, 0), (0, usize::MAX / 2 + 1));
    assert_eq!(range(usize::MAX, 2, 1), (usize::MAX / 2 + 1, usize::MAX));
    assert_eq!(range(usize::MAX, 2, 2), (usize::MAX, usize::MAX));
    assert_eq!(range(usize::MAX, usize::MAX, usize::MAX - 1), (usize::MAX - 1, usize::MAX));
}

#[test]
fn ranges_partition_the_index_space() {
    for total in 0..60usize {
        for size in 1..12usize {
            let chunk = div_ceil(total, size);
            let mut expected_start = 0;
            for rank in 0..size {
                let (l, r) = range(total, size, rank);
                assert_eq!(l, expected_start, "gap or overlap at rank {rank}");
                assert!(l <= r && r <= total);
                assert!(r - l <= chunk);
                expected_start = r;
            }
            assert_eq!(expected_start, total);
        }
    }
}

#[test]
fn every_index_has_one_owner() {
    for total in 0..40usize {
        for size in 1..9usize {
            for i in 0..total {
                let mut owners = Vec::new();
                for rank in 0..size {
                    let (l, r) = range(total, size, rank);
                    if l <= i && i < r {
                        owners.push(rank);
                    }
                }
                assert_eq!(owners, vec![i / div_ceil(total, size)]);
            }
        }
    }
}
