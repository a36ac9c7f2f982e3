use kludgine::time::Duration;

#[test]
fn duration_conversions() {
    assert_eq!(Duration::from_millis(1500).as_nanos(), 1_500_000_000);
    assert_eq!(Duration::from_millis(1500).as_secs(), 1);
    assert_eq!(Duration::from_millis(1500).subsec_nanos(), 500_000_000);
    assert_eq!(Duration::new(2, 1_500_000_000).as_nanos(), 3_500_000_000);
    assert_eq!(Duration::from_nanos(7).add(Duration::from_nanos(5)).as_nanos(), 12);
}

#[test]
fn duration_checked_sub() {
    let five = Duration::from_nanos(5);
    let three = Duration::from_nanos(3);
    assert_eq!(five.checked_sub(three).unwrap().as_nanos(), 2);
    assert!(three.checked_sub(five).is_none());
    assert!(five.longer_than(&three));
    assert!(!three.longer_than(&three));
}
