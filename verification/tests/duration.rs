use singsing_rs::Duration;

const LONGEST: u128 = u64::MAX as u128 * 1_000_000_000 + 999_999_999;

#[test]
fn durations_count_nanoseconds() {
    assert_eq!(Duration::zero().as_nanos(), 0);
    assert_eq!(Duration::from_nanos(7).as_nanos(), 7);
    assert_eq!(Duration::from_millis(7).as_nanos(), 7_000_000);
    assert_eq!(Duration::from_secs(7).as_nanos(), 7_000_000_000);
    assert_eq!(Duration::from_mins(7).as_nanos(), 420_000_000_000);
    assert_eq!(Duration::from_mins(1), Duration::from_secs(60));
    let time = Duration::from_parts(7, 8).unwrap();
    assert_eq!(time.as_secs(), 7);
    assert_eq!(time.subsec_nanos(), 8);
    assert_eq!(time.as_nanos(), 7_000_000_008);
}

#[test]
fn durations_stop_at_the_longest() {
    let longest = Duration::from_parts(u64::MAX, 999_999_999).unwrap();
    assert_eq!(longest.as_nanos(), LONGEST);
    assert_eq!(Duration::from_parts(u64::MAX, 1_000_000_000), None);
    assert_eq!(longest.checked_add(Duration::zero()), Some(longest));
    assert_eq!(longest.checked_add(Duration::from_nanos(1)), None);
    assert_eq!(longest.checked_mul(1), Some(longest));
    assert_eq!(longest.checked_mul(2), None);
    assert_eq!(longest.checked_mul(u32::MAX), None);
}

#[test]
fn durations_compute_as_those_of_the_standard_library() {
    for (secs, nanos) in [(0, 0), (1, 999_999_999), (7, 3), (u64::MAX, 999_999_999), (1 << 40, 5)] {
        let ours = Duration::from_parts(secs, nanos).unwrap();
        let theirs = std::time::Duration::new(secs, nanos);
        for count in [0, 1, 2, 3, 7, 1000, u32::MAX] {
            let product = ours.checked_mul(count).map(|time| time.as_nanos());
            assert_eq!(product, theirs.checked_mul(count).map(|time| time.as_nanos()));
            let quotient = ours.checked_div(count).map(|time| time.as_nanos());
            assert_eq!(quotient, theirs.checked_div(count).map(|time| time.as_nanos()));
        }
    }
}

#[test]
fn durations_subtract_down_to_zero() {
    let two = Duration::from_secs(2);
    let three = Duration::from_secs(3);
    assert_eq!(three.checked_sub(two), Some(Duration::from_secs(1)));
    assert_eq!(three.checked_sub(three), Some(Duration::zero()));
    assert_eq!(two.checked_sub(three), None);
}
