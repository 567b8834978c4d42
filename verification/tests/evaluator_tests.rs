use gate_overlap::evaluator::{sample_points, SAMPLE_STEP};
use gate_overlap::gate::{Gate, TICKS_PER_SECOND};

const SECOND: i64 = TICKS_PER_SECOND as i64;

fn gate(high_secs: u64, low_secs: u64, start_secs: i64) -> Gate {
    Gate::new(high_secs * TICKS_PER_SECOND, low_secs * TICKS_PER_SECOND, start_secs * SECOND)
        .unwrap()
}

#[test]
fn four_synchronized_gates_scenario() {
    let gates = vec![gate(5, 5, 0); 4];
    let max_period = Gate::max_period(&gates);
    assert_eq!(max_period, 10 * TICKS_PER_SECOND);
    let points = sample_points(max_period);
    assert_eq!(points.len(), 20);
    assert_eq!(points[0], 10 * SECOND);
    assert_eq!(points[1], 10 * SECOND + SECOND / 2);
    assert_eq!(points[19], 19 * SECOND + SECOND / 2);
    assert_eq!(Gate::evaluate_max_on_range(&gates, &points), 4);
}

#[test]
fn empty_population_has_peak_zero() {
    let gates: Vec<Gate> = Vec::new();
    assert_eq!(Gate::max_period(&gates), 0);
    assert_eq!(Gate::evaluate_max_on_range(&gates, &[0, 5, 10, -3]), 0);
    assert_eq!(Gate::evaluate_max_on_range(&gates, &sample_points(10 * TICKS_PER_SECOND)), 0);
    assert_eq!(Gate::count_active(&gates, 17), 0);
}

#[test]
fn no_sample_points_give_peak_zero() {
    let gates = vec![gate(5, 5, 0); 4];
    assert_eq!(Gate::evaluate_max_on_range(&gates, &[]), 0);
    assert!(sample_points(0).is_empty());
}

#[test]
fn all_on_at_one_instant_gives_population_size() {
    let gates = vec![gate(2, 8, 0), gate(3, 4, -1), gate(1, 1, 0), gate(6, 1, -4), gate(1, 20, 0)];
    assert_eq!(Gate::count_active(&gates, SECOND / 2), 5);
    let points = [7 * SECOND, 3 * SECOND, SECOND / 2, 9 * SECOND];
    assert_eq!(Gate::evaluate_max_on_range(&gates, &points), 5);
    for t in points {
        assert!(Gate::count_active(&gates, t) <= 5);
    }
}

#[test]
fn peak_is_the_largest_count() {
    let gates = vec![gate(1, 9, 0), gate(1, 9, 1), gate(1, 9, 1), gate(2, 8, 3), gate(1, 9, 4)];
    assert_eq!(Gate::count_active(&gates, 0), 1);
    assert_eq!(Gate::count_active(&gates, SECOND), 2);
    assert_eq!(Gate::count_active(&gates, 2 * SECOND), 0);
    assert_eq!(Gate::count_active(&gates, 4 * SECOND), 2);
    assert_eq!(Gate::count_active(&gates, 5 * SECOND), 0);
    assert_eq!(Gate::evaluate_max_on_range(&gates, &[0]), 1);
    assert_eq!(Gate::evaluate_max_on_range(&gates, &[2 * SECOND, 5 * SECOND]), 0);
    assert_eq!(Gate::evaluate_max_on_range(&gates, &[0, SECOND, 2 * SECOND]), 2);
    assert_eq!(Gate::evaluate_max_on_range(&gates, &[2 * SECOND, SECOND, 0]), 2);
    let points = sample_points(Gate::max_period(&gates));
    assert_eq!(Gate::evaluate_max_on_range(&gates, &points), 2);
}

#[test]
fn peak_over_many_points_matches_a_plain_scan() {
    let gates: Vec<Gate> = (0..40)
        .map(|i| gate(1 + i % 5, 2 + i % 7, (i * 3 % 11) as i64))
        .collect();
    let points = sample_points(Gate::max_period(&gates));
    let mut best = 0;
    for t in &points {
        let mut on = 0;
        for g in &gates {
            on += g.calculate_value(*t);
        }
        assert_eq!(Gate::count_active(&gates, *t), on);
        if on > best {
            best = on;
        }
    }
    assert!(best > 0);
    assert_eq!(Gate::evaluate_max_on_range(&gates, &points), best);
}

#[test]
fn max_period_is_the_longest() {
    let gates = vec![gate(2, 8, 0), gate(3, 4, -1), gate(10, 10, 0), gate(6, 1, -4)];
    assert_eq!(Gate::max_period(&gates), 20 * TICKS_PER_SECOND);
    assert_eq!(Gate::max_period(&gates[..2]), 10 * TICKS_PER_SECOND);
    assert_eq!(Gate::max_period(&gates[1..2]), 7 * TICKS_PER_SECOND);
}

#[test]
fn sample_window_is_half_open() {
    let points = sample_points(SAMPLE_STEP);
    assert_eq!(points, vec![SAMPLE_STEP as i64]);
    let points = sample_points(SAMPLE_STEP + 1);
    assert_eq!(points, vec![SAMPLE_STEP as i64 + 1, 2 * SAMPLE_STEP as i64 + 1]);
    let points = sample_points(1);
    assert_eq!(points, vec![1]);
    let points = sample_points(3 * SAMPLE_STEP);
    assert_eq!(
        points,
        vec![3 * SAMPLE_STEP as i64, 4 * SAMPLE_STEP as i64, 5 * SAMPLE_STEP as i64]
    );
    let points = sample_points(20 * TICKS_PER_SECOND);
    assert_eq!(points.len(), 40);
    assert!(points.iter().all(|t| *t >= 20 * SECOND && *t < 40 * SECOND));
}
