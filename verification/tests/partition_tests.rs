use hyperion::partition::work_ranges;

#[test]
fn even_split_with_remainder_on_last_worker() {
    assert_eq!(work_ranges(10, 3), vec![(0, 3), (3, 6), (6, 10)]);
    assert_eq!(work_ranges(9, 3), vec![(0, 3), (3, 6), (6, 9)]);
}

#[test]
fn fewer_items_than_workers() {
    assert_eq!(work_ranges(2, 4), vec![(0, 1), (1, 2)]);
    assert_eq!(work_ranges(1, 8), vec![(0, 1)]);
}

#[test]
fn no_items_no_ranges() {
    assert!(work_ranges(0, 4).is_empty());
}

#[test]
fn single_worker_takes_all() {
    assert_eq!(work_ranges(7, 1), vec![(0, 7)]);
}

#[test]
fn ranges_cover_each_item_once() {
    for len in 0..40usize {
        for workers in 1..9usize {
            let r = work_ranges(len, workers);
            let mut seen = vec![0usize; len];
            for (a, b) in r {
                for i in a..b {
                    seen[i] += 1;
                }
            }
            assert!(seen.iter().all(|&c| c == 1));
        }
    }
}
