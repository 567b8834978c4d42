use gate_overlap::accumulator::{Accumulator, BucketRecord, BUCKET_COUNT, MAX_BUCKETS};
use gate_overlap::evaluator::sample_points;
use gate_overlap::gate::{Gate, TICKS_PER_SECOND};
use gate_overlap::ratio::Ratio;
use gate_overlap::trial::{run_gates, run_trial, run_trials};

fn total(records: &[BucketRecord]) -> u64 {
    records.iter().map(|b| b.count).sum()
}

#[test]
fn accumulator_needs_a_valid_bucket_count() {
    assert!(Accumulator::with_buckets(0).is_none());
    assert!(Accumulator::with_buckets(MAX_BUCKETS + 1).is_none());
    assert!(Accumulator::with_buckets(u64::MAX).is_none());
    assert!(Accumulator::with_buckets(1).is_some());
    assert!(Accumulator::with_buckets(MAX_BUCKETS).is_some());
}

#[test]
fn empty_accumulator_has_no_buckets() {
    assert!(Accumulator::new().buckets().is_empty());
    assert!(Accumulator::with_buckets(5).unwrap().buckets().is_empty());
}

#[test]
fn buckets_of_an_even_spread() {
    let mut acc = Accumulator::with_buckets(10).unwrap();
    for v in 0..100 {
        acc.add(v);
    }
    let records = acc.buckets();
    assert_eq!(records.len(), 10);
    for (i, b) in records.iter().enumerate() {
        assert_eq!(*b, BucketRecord { start: 10 * i as u64, end: 10 * i as u64 + 10, count: 10 });
    }
    assert_eq!(total(&records), 100);
}

#[test]
fn buckets_of_a_single_value() {
    let mut acc = Accumulator::with_buckets(1).unwrap();
    acc.add(1);
    assert_eq!(acc.buckets(), vec![BucketRecord { start: 1, end: 2, count: 1 }]);
    let mut acc = Accumulator::with_buckets(3).unwrap();
    acc.add(7);
    acc.add(7);
    assert_eq!(
        acc.buckets(),
        vec![
            BucketRecord { start: 7, end: 8, count: 2 },
            BucketRecord { start: 8, end: 9, count: 0 },
            BucketRecord { start: 9, end: 10, count: 0 },
        ]
    );
}

#[test]
fn last_bucket_takes_what_lies_beyond() {
    let mut acc = Accumulator::with_buckets(4).unwrap();
    for v in [10, 11, 12, 13, 14, 15, 16, 17, 18, 19, 19] {
        acc.add(v);
    }
    assert_eq!(
        acc.buckets(),
        vec![
            BucketRecord { start: 10, end: 12, count: 2 },
            BucketRecord { start: 12, end: 14, count: 2 },
            BucketRecord { start: 14, end: 16, count: 2 },
            BucketRecord { start: 16, end: 18, count: 5 },
        ]
    );
}

#[test]
fn standard_accumulator_has_twenty_buckets() {
    assert_eq!(BUCKET_COUNT, 20);
    let mut acc = Accumulator::new();
    acc.add(3);
    acc.add(50);
    let records = acc.buckets();
    assert_eq!(records.len(), 20);
    assert_eq!(records[0], BucketRecord { start: 3, end: 5, count: 1 });
    assert_eq!(records[19], BucketRecord { start: 41, end: 43, count: 1 });
    assert_eq!(total(&records), 2);
}

#[test]
fn histogram_shows_the_recorded_values() {
    let mut acc = Accumulator::new();
    acc.add(3);
    acc.add(5);
    acc.add(5);
    let shown = format!("{}", acc.histogram());
    assert!(shown.contains("# Number of samples = 3"));
    assert!(shown.contains("# Min = 3"));
    assert!(shown.contains("# Max = 5"));
}

#[test]
fn one_trial_records_its_peak() {
    let mut gates = vec![Gate::new(10, 0, 0).unwrap(); 6];
    let points = sample_points(Gate::max_period(&gates));
    let mut acc = Accumulator::with_buckets(1).unwrap();
    let peak = run_trial(&mut gates, &points, &mut acc);
    assert_eq!(peak, 6);
    assert_eq!(acc.buckets(), vec![BucketRecord { start: 6, end: 7, count: 1 }]);
    let peak = run_trial(&mut gates, &points, &mut acc);
    assert_eq!(peak, 6);
    assert_eq!(acc.buckets(), vec![BucketRecord { start: 6, end: 7, count: 2 }]);
}

#[test]
fn trial_peak_is_the_peak_of_the_new_phases() {
    let mut gates = Gate::generate_n_periodic(30, 20, Ratio::new(1, 2).unwrap());
    let points = sample_points(Gate::max_period(&gates));
    let mut acc = Accumulator::new();
    for _ in 0..20 {
        let peak = run_trial(&mut gates, &points, &mut acc);
        assert_eq!(peak, Gate::evaluate_max_on_range(&gates, &points));
        assert!(peak <= 30);
    }
    assert_eq!(total(&acc.buckets()), 20);
}

#[test]
fn bucket_counts_sum_to_the_number_of_trials() {
    let mut gates = Gate::generate_n_periodic(50, 20, Ratio::new(1, 2).unwrap());
    let points = sample_points(Gate::max_period(&gates));
    let mut acc = Accumulator::new();
    run_trials(&mut gates, 0, &points, &mut acc);
    assert!(acc.buckets().is_empty());
    run_trials(&mut gates, 137, &points, &mut acc);
    assert_eq!(total(&acc.buckets()), 137);
    assert_eq!(acc.buckets().len(), 20);
    run_trials(&mut gates, 63, &points, &mut acc);
    assert_eq!(total(&acc.buckets()), 200);
    assert_eq!(gates.len(), 50);
}

#[test]
fn no_trials_leave_the_population_alone() {
    let mut gates = Gate::generate_n_periodic(5, 20, Ratio::new(1, 2).unwrap());
    let before = gates.clone();
    let points = sample_points(Gate::max_period(&gates));
    let mut acc = Accumulator::new();
    run_trials(&mut gates, 0, &points, &mut acc);
    assert_eq!(gates, before);
}

#[test]
fn scenario_records_every_trial() {
    let gates = Gate::generate_n_periodic(40, 20, Ratio::new(1, 2).unwrap());
    let acc = run_gates(gates, 150);
    let records = acc.buckets();
    assert_eq!(records.len(), 20);
    assert_eq!(total(&records), 150);
    assert!(records[0].start >= 1);
    assert!(records.iter().all(|b| b.start <= 40 + 20));
    let acc = run_gates(Vec::new(), 9);
    let records = acc.buckets();
    assert_eq!(records.len(), 20);
    assert_eq!(records[0], BucketRecord { start: 0, end: 1, count: 9 });
    assert_eq!(total(&records), 9);
    assert!(run_gates(Vec::new(), 0).buckets().is_empty());
}
