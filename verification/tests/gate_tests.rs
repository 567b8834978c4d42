use gate_overlap::gate::{Gate, MAX_PERIOD, TICKS_PER_SECOND};

const SECOND: i64 = TICKS_PER_SECOND as i64;

fn gate(high_secs: u64, low_secs: u64, start_secs: i64) -> Gate {
    Gate::new(high_secs * TICKS_PER_SECOND, low_secs * TICKS_PER_SECOND, start_secs * SECOND)
        .unwrap()
}

#[test]
fn single_gate_scenario() {
    let g = gate(1, 9, 0);
    assert_eq!(g.calculate_value(SECOND / 2), 1);
    assert_eq!(g.calculate_value(5 * SECOND), 0);
    assert_eq!(g.calculate_value(10 * SECOND + SECOND / 2), 1);
}

#[test]
fn value_is_periodic() {
    let g = gate(3, 4, 2);
    let period = g.period() as i64;
    let mut t = -30 * SECOND;
    while t < 30 * SECOND {
        assert_eq!(g.calculate_value(t), g.calculate_value(t + period));
        assert_eq!(g.calculate_value(t), g.calculate_value(t - 5 * period));
        t += SECOND / 4 + 7;
    }
}

#[test]
fn value_follows_phase() {
    let g = gate(3, 4, 2);
    let period = g.period() as i64;
    let high = g.high_duration() as i64;
    for cycle in [-3i64, -1, 0, 1, 4] {
        let base = g.start_time() + cycle * period;
        assert_eq!(g.calculate_value(base), 1);
        assert_eq!(g.calculate_value(base + 1), 1);
        assert_eq!(g.calculate_value(base + high - 1), 1);
        assert_eq!(g.calculate_value(base + high), 0);
        assert_eq!(g.calculate_value(base + high + 1), 0);
        assert_eq!(g.calculate_value(base + period - 1), 0);
    }
}

#[test]
fn instants_before_start_wrap_into_the_cycle() {
    let g = gate(1, 9, 0);
    assert_eq!(g.calculate_value(-SECOND / 2), 0);
    assert_eq!(g.calculate_value(-9 * SECOND), 0);
    assert_eq!(g.calculate_value(-9 * SECOND - 1), 1);
    assert_eq!(g.calculate_value(-10 * SECOND), 1);
    assert_eq!(g.calculate_value(i64::MIN), g.calculate_value(i64::MIN + 10 * SECOND));
    assert_eq!(g.calculate_value(i64::MAX), g.calculate_value(i64::MAX - 10 * SECOND));
}

#[test]
fn period_is_sum_of_durations() {
    let g = gate(3, 4, 2);
    assert_eq!(g.period(), 7 * TICKS_PER_SECOND);
    assert_eq!(g.period(), g.high_duration() + g.low_duration());
    assert_eq!(g.high_duration(), 3 * TICKS_PER_SECOND);
    assert_eq!(g.low_duration(), 4 * TICKS_PER_SECOND);
    assert_eq!(g.start_time(), 2 * SECOND);
}

#[test]
fn gate_without_period_is_refused() {
    assert!(Gate::new(0, 0, 0).is_none());
    assert!(Gate::new(0, 0, 17).is_none());
}

#[test]
fn gate_with_too_long_period_is_refused() {
    assert!(Gate::new(MAX_PERIOD, 1, 0).is_none());
    assert!(Gate::new(u64::MAX, u64::MAX, 0).is_none());
    assert!(Gate::new(u64::MAX, 1, 0).is_none());
    assert!(Gate::new(MAX_PERIOD, 0, 0).is_some());
    assert!(Gate::new(1, MAX_PERIOD - 1, 0).is_some());
}

#[test]
fn always_on_and_always_off_gates() {
    let on = Gate::new(10, 0, 3).unwrap();
    let off = Gate::new(0, 10, 3).unwrap();
    for t in -25i64..25 {
        assert_eq!(on.calculate_value(t), 1);
        assert_eq!(off.calculate_value(t), 0);
    }
}

#[test]
fn with_start_time_keeps_durations() {
    let g = gate(3, 4, 2).with_start_time(-5);
    assert_eq!(g.high_duration(), 3 * TICKS_PER_SECOND);
    assert_eq!(g.low_duration(), 4 * TICKS_PER_SECOND);
    assert_eq!(g.start_time(), -5);
    assert_eq!(g.calculate_value(-5), 1);
    assert_eq!(g.calculate_value(-6), 0);
}
