use lcmspector::xic::{peak_index, Xic};

#[test]
fn peak_index_is_first_of_the_largest() {
    assert_eq!(peak_index(&[]), None);
    assert_eq!(peak_index(&[7]), Some(0));
    assert_eq!(peak_index(&[3, 9, 9, 1]), Some(1));
    assert_eq!(peak_index(&[3, 3, 3]), Some(0));
    assert_eq!(peak_index(&[1, 2, 3]), Some(2));
    assert_eq!(peak_index(&[-5, -2, -9]), Some(1));
    assert_eq!(peak_index(&[i64::MIN, i64::MAX, i64::MAX]), Some(1));
}

#[test]
fn chromatogram_needs_a_time_for_each_intensity() {
    assert!(Xic::from_matches(vec![1, 2], vec![5]).is_none());
    assert!(Xic::from_matches(vec![], vec![5]).is_none());
    assert!(Xic::from_matches(vec![1], vec![]).is_none());
    assert!(Xic::from_matches(vec![], vec![]).is_some());
    assert!(Xic::from_matches(vec![1, 2, 3], vec![4, 5, 6]).is_some());
}

#[test]
fn chromatogram_holds_times_over_intensities() {
    let xic = Xic::from_matches(vec![10, 20, 30, 40], vec![7, 9, 9, 8]).unwrap();
    assert!(!xic.is_empty());
    assert_eq!(xic.len(), 4);
    let times: Vec<i64> = (0..4).map(|i| xic.time(i)).collect();
    let values: Vec<i64> = (0..4).map(|i| xic.intensity(i)).collect();
    assert_eq!(times, vec![10, 20, 30, 40]);
    assert_eq!(values, vec![7, 9, 9, 8]);
    assert_eq!(xic.intensities(), vec![7, 9, 9, 8]);
    assert_eq!(xic.terms(), Some(vec![7, 9, 9, 8]));
    assert_eq!(xic.retention_time(), Some(20));
}

#[test]
fn empty_chromatogram_has_nothing() {
    let xic = Xic::from_matches(Vec::new(), Vec::new()).unwrap();
    assert!(xic.is_empty());
    assert_eq!(xic.len(), 0);
    assert!(xic.intensities().is_empty());
    assert_eq!(xic.terms(), None);
    assert_eq!(xic.retention_time(), None);
}

#[test]
fn one_sample_is_no_peak() {
    let xic = Xic::from_matches(vec![10], vec![7]).unwrap();
    assert!(!xic.is_empty());
    assert_eq!(xic.len(), 1);
    assert_eq!(xic.terms(), Some(vec![7]));
    assert_eq!(xic.retention_time(), None);
}

#[test]
fn peak_is_the_largest_and_first_among_equals() {
    let late = Xic::from_matches(vec![1, 2, 3], vec![5, 6, 7]).unwrap();
    assert_eq!(late.retention_time(), Some(3));
    let early = Xic::from_matches(vec![1, 2, 3], vec![7, 6, 5]).unwrap();
    assert_eq!(early.retention_time(), Some(1));
    let tie = Xic::from_matches(vec![1, 2, 3], vec![4, 4, 4]).unwrap();
    assert_eq!(tie.retention_time(), Some(1));
    let two = Xic::from_matches(vec![8, 9], vec![-3, -2]).unwrap();
    assert_eq!(two.retention_time(), Some(9));
    let same_time = Xic::from_matches(vec![5, 5, 6], vec![1, 2, 2]).unwrap();
    assert_eq!(same_time.retention_time(), Some(5));
}
