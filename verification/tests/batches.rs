use lcmspector::batching::{
    batch_size, batch_size_for, gather_batches, is_large_batch, plan_batches, split_batches,
    LARGE_BATCH_THRESHOLD, MIN_BATCH_SIZE,
};
use lcmspector::measurements::MSMeasurement;

fn paths(n: usize) -> Vec<String> {
    (0..n).map(|i| format!("file{i}")).collect()
}

fn measurement(tag: i64) -> MSMeasurement {
    MSMeasurement::from_data(Vec::new(), Vec::new(), Vec::new(), tag)
}

#[test]
fn large_batches_begin_above_the_threshold() {
    assert_eq!(LARGE_BATCH_THRESHOLD, 25);
    assert!(!is_large_batch(0));
    assert!(!is_large_batch(24));
    assert!(!is_large_batch(25));
    assert!(is_large_batch(26));
    assert!(is_large_batch(30));
    assert!(is_large_batch(usize::MAX));
}

#[test]
fn batch_size_is_an_even_share_or_five() {
    assert_eq!(MIN_BATCH_SIZE, 5);
    assert_eq!(batch_size_for(30, 2), 7);
    assert_eq!(batch_size_for(30, 4), 5);
    assert_eq!(batch_size_for(30, 1), 15);
    assert_eq!(batch_size_for(1000, 4), 125);
    assert_eq!(batch_size_for(0, 1), 5);
    assert_eq!(batch_size_for(11, 1), 5);
    assert_eq!(batch_size_for(12, 1), 6);
    assert_eq!(batch_size_for(13, 1), 6);
    assert_eq!(batch_size_for(95, 8), 5);
    assert_eq!(batch_size_for(96, 8), 6);
    assert_eq!(batch_size_for(usize::MAX, 1), usize::MAX / 2);
    assert_eq!(batch_size_for(usize::MAX, usize::MAX), 5);
}

#[test]
fn batch_size_of_this_machine() {
    for n in [0usize, 1, 10, 26, 30, 1000] {
        let size = batch_size(n);
        assert!(size >= 5);
        assert!(size <= std::cmp::max(5, n / 2));
        assert!((1..=n + 1).any(|cores| size == batch_size_for(n, cores)));
    }
}

#[test]
fn batches_are_consecutive() {
    let got = split_batches(&paths(7), 3);
    assert_eq!(
        got,
        vec![
            vec!["file0".to_string(), "file1".to_string(), "file2".to_string()],
            vec!["file3".to_string(), "file4".to_string(), "file5".to_string()],
            vec!["file6".to_string()],
        ]
    );
    assert_eq!(split_batches(&paths(6), 3).iter().map(|b| b.len()).collect::<Vec<_>>(), vec![3, 3]);
    assert_eq!(split_batches(&paths(2), 5), vec![paths(2)]);
    assert_eq!(split_batches(&paths(3), 1).len(), 3);
    assert_eq!(split_batches(&paths(3), usize::MAX), vec![paths(3)]);
    assert!(split_batches(&paths(0), 4).is_empty());
}

#[test]
fn batches_are_those_of_chunks() {
    for n in 0..40 {
        for size in 1..12 {
            let all = paths(n);
            let want: Vec<Vec<String>> = all.chunks(size).map(|c| c.to_vec()).collect();
            assert_eq!(split_batches(&all, size), want);
        }
    }
}

#[test]
fn planned_batches_hold_every_file_once() {
    for n in [0usize, 1, 26, 30, 101] {
        let all = paths(n);
        let planned = plan_batches(&all);
        assert_eq!(planned.concat(), all);
        assert!(planned.iter().all(|b| !b.is_empty()));
        assert_eq!(planned, split_batches(&all, batch_size(n)));
    }
}

#[test]
fn gathering_keeps_batch_order_and_drops_lost_batches() {
    let results = vec![
        Some(vec![measurement(1), measurement(2)]),
        None,
        Some(Vec::new()),
        Some(vec![measurement(3)]),
        None,
        Some(vec![measurement(4), measurement(5)]),
    ];
    let tags: Vec<i64> = gather_batches(results).iter().map(|m| m.mass_accuracy).collect();
    assert_eq!(tags, vec![1, 2, 3, 4, 5]);
    assert!(gather_batches(Vec::new()).is_empty());
    assert!(gather_batches(vec![None, None]).is_empty());
}
