use snn::resilience::{count_cells, percentage, Resilience};
use snn::{compute_differences1, compute_differences2};

#[test]
fn equal_runs_do_not_differ() {
    let golden = vec![vec![1, 0, 1], vec![0, 0, 1]];
    assert_eq!(compute_differences1(&golden, &golden.clone()), 0);
    assert_eq!(compute_differences2(&golden, &golden.clone()), 0);
    let empty: Vec<Vec<u8>> = vec![];
    assert_eq!(compute_differences1(&empty, &empty), 0);
    assert_eq!(compute_differences2(&empty, &empty), 0);
    let hollow: Vec<Vec<u8>> = vec![vec![], vec![]];
    assert_eq!(compute_differences1(&hollow, &hollow), 0);
    assert_eq!(compute_differences2(&hollow, &hollow), 0);
}

#[test]
fn every_differing_value_is_counted() {
    let golden = vec![vec![1, 0, 1], vec![0, 0, 1], vec![1, 1, 1]];
    let faulty = vec![vec![1, 1, 1], vec![0, 0, 1], vec![0, 1, 0]];
    assert_eq!(compute_differences1(&golden, &faulty), 1);
    assert_eq!(compute_differences2(&golden, &faulty), 3);
    let last = vec![vec![1, 0, 1], vec![0, 0, 1], vec![1, 1, 0]];
    assert_eq!(compute_differences1(&golden, &last), 1);
    assert_eq!(compute_differences2(&golden, &last), 1);
    let all = vec![vec![0, 1, 0], vec![1, 1, 0], vec![0, 0, 0]];
    assert_eq!(compute_differences1(&golden, &all), 1);
    assert_eq!(compute_differences2(&golden, &all), 9);
}

#[test]
fn only_the_places_of_the_faulty_run_are_held_together() {
    let golden = vec![vec![1, 0, 1], vec![0, 0, 1], vec![1, 1, 1]];
    let shorter = vec![vec![1, 0], vec![1]];
    assert_eq!(compute_differences1(&golden, &shorter), 1);
    assert_eq!(compute_differences2(&golden, &shorter), 1);
    let agreeing = vec![vec![1, 0], vec![0]];
    assert_eq!(compute_differences1(&golden, &agreeing), 0);
    assert_eq!(compute_differences2(&golden, &agreeing), 0);
}

#[test]
fn the_count_is_zero_exactly_when_nothing_differs() {
    let golden = vec![vec![1, 0], vec![0, 1]];
    for bits in 0..16u8 {
        let faulty = vec![vec![bits & 1, (bits >> 1) & 1], vec![(bits >> 2) & 1, (bits >> 3) & 1]];
        let any = compute_differences1(&golden, &faulty);
        let count = compute_differences2(&golden, &faulty);
        assert_eq!(any == 0, count == 0);
        assert_eq!(any, (faulty != golden) as usize);
        assert_eq!(count, (bits ^ 0b1001).count_ones() as usize);
    }
}

#[test]
fn values_are_compared_not_only_as_spikes() {
    let golden = vec![vec![2, 0]];
    let faulty = vec![vec![1, 0]];
    assert_eq!(compute_differences1(&golden, &faulty), 1);
    assert_eq!(compute_differences2(&golden, &faulty), 1);
}

#[test]
fn count_cells_counts_the_values_of_a_table() {
    assert_eq!(count_cells(&vec![]), Some(0));
    assert_eq!(count_cells(&vec![vec![], vec![]]), Some(0));
    assert_eq!(count_cells(&vec![vec![1, 0, 1], vec![0, 0, 1], vec![1, 1, 1]]), Some(9));
    assert_eq!(count_cells(&vec![vec![1], vec![0, 0, 1], vec![]]), Some(4));
}

#[test]
fn percentage_rounds_down() {
    assert_eq!(percentage(2, 3), 66);
    assert_eq!(percentage(7, 9), 77);
    assert_eq!(percentage(0, 5), 0);
    assert_eq!(percentage(5, 5), 100);
    assert_eq!(percentage(1, 200), 0);
    assert_eq!(percentage(199, 200), 99);
    assert_eq!(percentage(usize::MAX, usize::MAX), 100);
    assert_eq!(percentage(usize::MAX - 1, usize::MAX), 99);
}

#[test]
fn one_faulty_run_in_three() {
    let golden = vec![vec![1, 0, 1]];
    let runs = vec![vec![vec![1, 0, 1]], vec![vec![0, 0, 0]], vec![vec![1, 0, 1]]];
    let mut tally = Resilience::new();
    for run in &runs {
        assert!(tally.compare(&golden, run));
    }
    assert_eq!(
        tally,
        Resilience { inferences: 3, count_err1: 1, bits: 9, count_err2: 2 }
    );
    assert_eq!(tally.resilience1(), Some(66));
    assert_eq!(tally.resilience2(), Some(77));
    let first = (tally.inferences - tally.count_err1) as f64 / tally.inferences as f64;
    let second = (tally.bits - tally.count_err2) as f64 / tally.bits as f64;
    assert!((first * 100.0 - 66.7).abs() < 0.05);
    assert!((second * 100.0 - 77.8).abs() < 0.05);
}

#[test]
fn the_same_tally_from_counts() {
    let mut tally = Resilience::new();
    assert!(tally.record(3, 0));
    assert!(tally.record(3, 2));
    assert!(tally.record(3, 0));
    assert_eq!(
        tally,
        Resilience { inferences: 3, count_err1: 1, bits: 9, count_err2: 2 }
    );
}

#[test]
fn a_tally_without_runs_has_no_score() {
    let tally = Resilience::new();
    assert_eq!(tally, Resilience { inferences: 0, count_err1: 0, bits: 0, count_err2: 0 });
    assert_eq!(tally.resilience1(), None);
    assert_eq!(tally.resilience2(), None);
    let mut hollow = Resilience::new();
    assert!(hollow.compare(&vec![], &vec![]));
    assert_eq!(hollow.resilience1(), Some(100));
    assert_eq!(hollow.resilience2(), None);
}

#[test]
fn a_tally_refuses_what_does_not_fit() {
    let mut tally = Resilience::new();
    assert!(!tally.record(3, 4));
    assert_eq!(tally, Resilience::new());
    assert!(tally.record(usize::MAX - 1, 5));
    assert!(!tally.record(2, 0));
    assert!(tally.record(1, 1));
    assert_eq!(
        tally,
        Resilience { inferences: 2, count_err1: 2, bits: usize::MAX, count_err2: 6 }
    );
    let mut full = Resilience { inferences: usize::MAX, count_err1: 0, bits: 0, count_err2: 0 };
    assert!(!full.record(1, 0));
    assert_eq!(full.inferences, usize::MAX);
    assert_eq!(full.resilience1(), Some(100));
}
