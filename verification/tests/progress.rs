use chrono::TimeZone;
use singsing_rs::progress::{
    advance_progress_deadline, eta_delay, eta_time, format_progress, next_progress_deadline,
};
use singsing_rs::{Duration, ScanProgress};

#[test]
fn estimates_scan_progress() {
    let progress = ScanProgress::new(25, 100, Duration::from_secs(60));

    assert_eq!(progress.percent(), 25);
    assert_eq!(progress.estimated_remaining(), Some(Duration::from_secs(180)));
}

#[test]
fn handles_scan_progress_boundaries() {
    let no_probes = ScanProgress::new(0, 0, Duration::from_secs(60));
    let not_started = ScanProgress::new(0, 100, Duration::from_secs(60));
    let complete = ScanProgress::new(100, 100, Duration::from_secs(60));
    let over_complete = ScanProgress::new(101, 100, Duration::from_secs(60));

    assert_eq!(no_probes.percent(), 0);
    assert_eq!(no_probes.estimated_remaining(), None);
    assert_eq!(not_started.percent(), 0);
    assert_eq!(not_started.estimated_remaining(), None);
    assert_eq!(complete.percent(), 100);
    assert_eq!(complete.estimated_remaining(), Some(Duration::zero()));
    assert_eq!(over_complete.estimated_remaining(), Some(Duration::zero()));
}

#[test]
fn progress_schedule_uses_increasing_intervals() {
    assert_eq!(next_progress_deadline(Duration::from_mins(9)), Duration::from_mins(10));
    assert_eq!(next_progress_deadline(Duration::from_mins(10)), Duration::from_mins(20));
    assert_eq!(next_progress_deadline(Duration::from_mins(50)), Duration::from_mins(60));
    assert_eq!(next_progress_deadline(Duration::from_mins(60)), Duration::from_mins(90));
}

#[test]
fn progress_schedule_skips_missed_deadlines() {
    assert_eq!(
        advance_progress_deadline(Duration::from_mins(1), Duration::from_mins(35)),
        Duration::from_mins(40)
    );
}

#[test]
fn formats_progress_with_fixed_time() {
    let now = chrono::Utc.with_ymd_and_hms(2026, 1, 1, 12, 0, 0).single().unwrap();
    let progress = ScanProgress::new(25, 100, Duration::from_secs(60));
    let not_started = ScanProgress::new(0, 100, Duration::from_secs(60));
    let format = |progress: ScanProgress| {
        let eta = eta_time(progress, now.timestamp(), now.timestamp_subsec_nanos())
            .and_then(|(secs, nanos)| now.timezone().timestamp_opt(secs, nanos).single())
            .map(|eta| eta.format("%a %Y-%m-%d %H:%M:%S %Z").to_string());
        format_progress(progress, eta.as_deref())
    };

    assert_eq!(format(progress), "[stats] 25% done | ETA Thu 2026-01-01 12:03:00 UTC");
    assert_eq!(format(not_started), "[stats] 0% done | ETA unknown");
}

#[test]
fn the_schedule_has_no_other_times() {
    let mut deadline = Duration::from_mins(1);
    let mut minutes = Vec::new();
    for _ in 0..20 {
        minutes.push(deadline.as_secs() / 60);
        deadline = advance_progress_deadline(deadline, deadline);
    }
    assert_eq!(
        minutes,
        [1, 2, 3, 4, 5, 6, 7, 8, 9, 10, 20, 30, 40, 50, 60, 90, 120, 150, 180, 210]
    );
    let early = advance_progress_deadline(Duration::from_mins(5), Duration::from_mins(3));
    assert_eq!(early, Duration::from_mins(5));
    let late = advance_progress_deadline(Duration::from_mins(1), Duration::from_mins(119));
    assert_eq!(late, Duration::from_mins(120));
}

#[test]
fn percentages_are_rounded_down_and_saturate() {
    let percent = |sent, total| ScanProgress::new(sent, total, Duration::zero()).percent();
    assert_eq!(percent(1, 3), 33);
    assert_eq!(percent(2, 3), 66);
    assert_eq!(percent(99, 100), 99);
    assert_eq!(percent(16_777_213, 16_777_214), 99);
    assert_eq!(percent(101, 100), 101);
    assert_eq!(percent(usize::MAX, 2), usize::MAX / 2);
    assert_eq!(percent(usize::MAX, usize::MAX), 1);
}

#[test]
fn estimates_only_what_fits() {
    let remaining =
        |sent, total, time| ScanProgress::new(sent, total, time).estimated_remaining();
    let second = Duration::from_secs(1);
    assert_eq!(remaining(3, 10, second), Some(Duration::from_nanos(2_333_333_333)));
    assert_eq!(remaining(u32::MAX as usize, u32::MAX as usize, second), Some(Duration::zero()));
    assert_eq!(remaining(u32::MAX as usize + 1, usize::MAX, second), None);
    assert_eq!(remaining(1, u32::MAX as usize + 2, second), None);
    assert_eq!(
        remaining(1, u32::MAX as usize + 1, second),
        Some(Duration::from_secs(u64::from(u32::MAX)))
    );
    assert_eq!(remaining(1, 3, Duration::from_secs(u64::MAX)), None);
}

#[test]
fn delays_of_the_calendar_are_limited() {
    let longest = Duration::from_parts(9_223_372_036_854_775, 807_000_000).unwrap();
    let longer = Duration::from_parts(9_223_372_036_854_775, 807_000_001).unwrap();
    assert_eq!(
        eta_delay(ScanProgress::new(1, 2, longest)),
        Some((9_223_372_036_854_775, 807_000_000))
    );
    assert_eq!(eta_delay(ScanProgress::new(1, 2, longer)), None);
    assert_eq!(
        eta_delay(ScanProgress::new(4, 7, Duration::from_secs(10))),
        Some((7, 500_000_000))
    );
    assert_eq!(eta_delay(ScanProgress::new(0, 7, Duration::from_secs(10))), None);
}

#[test]
fn a_report_without_a_known_end_says_so() {
    let progress = ScanProgress::new(3, 4, Duration::from_secs(1));
    assert_eq!(format_progress(progress, None), "[stats] 75% done | ETA unknown");
    assert_eq!(format_progress(progress, Some("soon")), "[stats] 75% done | ETA soon");
}

#[test]
fn the_end_of_sending_stays_in_the_calendar() {
    let progress = |secs| ScanProgress::new(1, 2, Duration::from_secs(secs));
    assert_eq!(eta_time(progress(10), 100, 999_999_999), Some((110, 999_999_999)));
    let halves = ScanProgress::new(1, 2, Duration::from_parts(10, 500_000_000).unwrap());
    assert_eq!(eta_time(halves, -100, 600_000_000), Some((-89, 100_000_000)));
    let first = -8_334_601_228_800;
    let last = 8_210_266_876_799;
    assert_eq!(eta_time(progress(1), first, 0), Some((first + 1, 0)));
    assert_eq!(eta_time(progress(1), first - 1, 0), None);
    assert_eq!(eta_time(progress(1), last - 1, 999_999_999), Some((last, 999_999_999)));
    assert_eq!(eta_time(progress(1), last, 0), None);
    assert_eq!(eta_time(progress(0), last, 0), Some((last, 0)));
    assert_eq!(eta_time(progress(0), last + 1, 0), None);
    assert_eq!(eta_time(progress(9_223_372_036_854_775), first, 0), None);
    assert_eq!(eta_time(progress((last - first) as u64), first, 0), Some((last, 0)));
    assert_eq!(eta_time(progress(1), i64::MAX, 0), None);
    assert_eq!(eta_time(progress(9_223_372_036_854_776), 0, 0), None);
    let not_started = ScanProgress::new(0, 2, Duration::from_secs(1));
    assert_eq!(eta_time(not_started, 0, 0), None);
}

#[test]
fn leap_seconds_are_left_behind() {
    let after = |secs, nanos, now, now_nanos| {
        let delay = Duration::from_parts(secs, nanos).unwrap();
        eta_time(ScanProgress::new(1, 2, delay), now, now_nanos)
    };
    assert_eq!(after(0, 0, 59, 1_300_000_000), Some((59, 1_300_000_000)));
    assert_eq!(after(0, 500_000_000, 59, 1_300_000_000), Some((59, 1_800_000_000)));
    assert_eq!(after(0, 699_999_999, 59, 1_300_000_000), Some((59, 1_999_999_999)));
    assert_eq!(after(0, 700_000_000, 59, 1_300_000_000), Some((60, 0)));
    assert_eq!(after(0, 800_000_000, 59, 1_300_000_000), Some((60, 100_000_000)));
    assert_eq!(after(1, 0, 59, 1_300_000_000), Some((60, 300_000_000)));
    assert_eq!(after(10, 0, 59, 1_300_000_000), Some((69, 300_000_000)));
    assert_eq!(after(1, 0, -1, 1_000_000_000), Some((0, 0)));
    assert_eq!(after(0, 0, 59, 1_999_999_999), Some((59, 1_999_999_999)));
    assert_eq!(after(0, 0, 59, 2_000_000_000), None);
    assert_eq!(after(0, 0, 58, 1_000_000_000), None);
    let last = 8_210_266_876_799;
    assert_eq!(after(0, 5, last, 1_000_000_000), Some((last, 1_000_000_005)));
    assert_eq!(after(1, 0, last, 1_000_000_000), None);
}
