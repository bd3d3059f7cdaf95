use deepwise::schedule::{
    batch_ranges, mask_gate, masked_outputs, report_due, sampling_mask, shuffled_range,
};

#[test]
fn shuffled_range_is_a_permutation() {
    for n in [0usize, 1, 2, 7, 50] {
        let mut v = shuffled_range(n);
        assert_eq!(v.len(), n);
        v.sort();
        assert_eq!(v, (0..n).collect::<Vec<_>>());
    }
}

#[test]
fn sampling_mask_sizes() {
    let m = sampling_mask(10, 4);
    assert_eq!(m.len(), 4);
    let mut s = m.clone();
    s.sort();
    s.dedup();
    assert_eq!(s.len(), 4);
    assert!(m.iter().all(|&i| i < 10));
    assert_eq!(sampling_mask(3, 8).len(), 3);
    assert_eq!(sampling_mask(0, 1).len(), 0);
}

#[test]
fn mask_gate_marks_members() {
    assert_eq!(mask_gate(&vec![3, 0], 5), vec![true, false, false, true, false]);
    assert_eq!(mask_gate(&vec![], 2), vec![false, false]);
    assert_eq!(mask_gate(&vec![9], 2), vec![false, false]);
}

#[test]
fn batch_ranges_examples() {
    assert_eq!(batch_ranges(5, 2), vec![(0, 2), (2, 4), (4, 5)]);
    assert_eq!(batch_ranges(4, 4), vec![(0, 4)]);
    assert_eq!(batch_ranges(3, 10), vec![(0, 3)]);
    assert_eq!(batch_ranges(0, 3), Vec::<(usize, usize)>::new());
    assert_eq!(batch_ranges(6, 1).len(), 6);
}

#[test]
fn batches_cover_each_position_once() {
    let r = batch_ranges(17, 5);
    let mut seen = vec![0; 17];
    for (s, e) in &r {
        assert!(e - s <= 5);
        for i in *s..*e {
            seen[i] += 1;
        }
    }
    assert!(seen.iter().all(|&c| c == 1));
}

#[test]
fn report_schedule() {
    assert!(report_due(true, 0, 25));
    assert!(report_due(true, 10, 25));
    assert!(!report_due(true, 11, 25));
    assert!(report_due(true, 24, 25));
    assert!(!report_due(false, 0, 25));
    assert!(report_due(true, 0, 1));
}

#[test]
fn shuffled_range_reorders() {
    let v = shuffled_range(60);
    assert_ne!(v, (0..60).collect::<Vec<_>>());
}

#[test]
fn masked_outputs_scale_kept_and_zero_others() {
    let out = masked_outputs(&vec![1.0, 2.0, 3.0, 4.0], &vec![3, 1], 0.0, |x: f64| x * 2.0);
    assert_eq!(out, vec![0.0, 4.0, 0.0, 8.0]);
    let none = masked_outputs(&vec![1.0, 2.0], &vec![], 0.0, |x: f64| x * 2.0);
    assert_eq!(none, vec![0.0, 0.0]);
}

#[test]
fn epoch_visits_each_sample_once() {
    let order = shuffled_range(23);
    let mut visits = vec![0; 23];
    for (s, e) in batch_ranges(23, 4) {
        for &sample in &order[s..e] {
            visits[sample] += 1;
        }
    }
    assert!(visits.iter().all(|&c| c == 1));
}
