use gate_overlap::ratio::Ratio;

#[test]
fn ratio_rejects_zero_denominator_and_more_than_one() {
    assert!(Ratio::new(0, 0).is_none());
    assert!(Ratio::new(1, 0).is_none());
    assert!(Ratio::new(3, 2).is_none());
    assert!(Ratio::new(0, 1).is_some());
    assert!(Ratio::new(1, 1).is_some());
    assert!(Ratio::new(u32::MAX, u32::MAX).is_some());
}

#[test]
fn ratio_parts() {
    let q = Ratio::new(3, 10).unwrap();
    assert_eq!(q.numerator(), 3);
    assert_eq!(q.denominator(), 10);
    let c = q.complement();
    assert_eq!(c.numerator(), 7);
    assert_eq!(c.denominator(), 10);
}

#[test]
fn ratio_rounds_down_and_up() {
    let half = Ratio::new(1, 2).unwrap();
    assert_eq!(half.floor_of(15), 7);
    assert_eq!(half.ceil_of(15), 8);
    assert_eq!(half.floor_of(16), 8);
    assert_eq!(half.ceil_of(16), 8);
    let tenth = Ratio::new(1, 10).unwrap();
    assert_eq!(tenth.floor_of(1000), 100);
    assert_eq!(tenth.floor_of(9), 0);
    assert_eq!(tenth.ceil_of(9), 1);
    assert_eq!(tenth.ceil_of(0), 0);
    let all = Ratio::new(1, 1).unwrap();
    assert_eq!(all.floor_of(u64::MAX), u64::MAX);
    assert_eq!(all.ceil_of(u64::MAX), u64::MAX);
    let none = Ratio::new(0, 7).unwrap();
    assert_eq!(none.floor_of(u64::MAX), 0);
    assert_eq!(none.ceil_of(u64::MAX), 0);
    let big = Ratio::new(u32::MAX - 1, u32::MAX).unwrap();
    assert_eq!(big.ceil_of(u64::MAX), u64::MAX - 4294967297);
    assert_eq!(big.ceil_of(u64::MAX - 1), u64::MAX - 4294967297);
    assert_eq!(big.floor_of(u64::MAX - 1), u64::MAX - 4294967298);
    assert_eq!(big.floor_of(u64::MAX), u64::MAX - 4294967297);
}
