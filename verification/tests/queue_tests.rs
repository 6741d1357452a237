use photo_grid_print::queue::{checked_total_copies, expand_copies, page_bounds, page_count};
use photo_grid_print::session::sheet_count;

#[test]
fn queue_repeats_each_photo_by_its_copies() {
    assert_eq!(expand_copies(&vec![2, 0, 3]), vec![0, 0, 2, 2, 2]);
    assert_eq!(expand_copies(&vec![1, 1, 1]), vec![0, 1, 2]);
    assert_eq!(expand_copies(&vec![]), Vec::<usize>::new());
    assert_eq!(expand_copies(&vec![0, 0]), Vec::<usize>::new());
}

#[test]
fn queue_length_is_the_total_of_copies() {
    let copies = vec![28, 3, 0, 7];
    let q = expand_copies(&copies);
    assert_eq!(q.len(), 38);
    assert_eq!(checked_total_copies(&copies), Some(38));
    for (i, &c) in copies.iter().enumerate() {
        assert_eq!(q.iter().filter(|&&j| j == i).count(), c);
    }
}

#[test]
fn total_copies_overflow_is_reported() {
    assert_eq!(checked_total_copies(&vec![usize::MAX, 1]), None);
    assert_eq!(checked_total_copies(&vec![usize::MAX, 0]), Some(usize::MAX));
    assert_eq!(checked_total_copies(&vec![]), Some(0));
}

#[test]
fn page_count_rounds_up() {
    assert_eq!(page_count(0, 16), 0);
    assert_eq!(page_count(1, 16), 1);
    assert_eq!(page_count(16, 16), 1);
    assert_eq!(page_count(17, 16), 2);
    assert_eq!(page_count(56, 6), 10);
}

#[test]
fn pages_split_the_queue_into_consecutive_runs() {
    let n = 17;
    let per = 6;
    let pages = page_count(n, per);
    assert_eq!(pages, 3);
    assert_eq!(page_bounds(0, per, n), (0, 6));
    assert_eq!(page_bounds(1, per, n), (6, 12));
    assert_eq!(page_bounds(2, per, n), (12, 17));
    let mut next = 0;
    for p in 0..pages {
        let (s, e) = page_bounds(p, per, n);
        assert_eq!(s, next);
        assert!(s < e && e - s <= per);
        if p + 1 < pages {
            assert_eq!(e - s, per);
        }
        next = e;
    }
    assert_eq!(next, n);
}

#[test]
fn sheet_count_for_the_preview() {
    assert_eq!(sheet_count(33, 4, 4), 3);
    assert_eq!(sheet_count(32, 4, 4), 2);
    assert_eq!(sheet_count(0, 4, 4), 0);
    assert_eq!(sheet_count(5, 0, 3), 5);
    // six-photo passport batch: 3 x 2 grid, 2 copies of one photo
    assert_eq!(sheet_count(2, 3, 2), 1);
}
