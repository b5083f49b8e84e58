use ai_pool::clock::{millis_of, since_epoch, unix_time, Clock, Duration, Instant};
use ai_pool::quota::now_ms;

#[test]
fn clocks_run_forward_from_their_origin() {
    let clock = Clock::new();
    let copy = clock;
    let first = clock.now();
    let mut later = copy.now();
    for _ in 0..1_000_000 {
        if later.nanos > first.nanos {
            break;
        }
        later = copy.now();
    }
    assert!(later.nanos > first.nanos);
    // An hour before the origin can be written down.
    assert!(first.checked_sub(Duration::from_secs(3_600)).is_some());
}

#[test]
fn unix_time_is_in_this_era() {
    let secs = unix_time().as_millis() / 1_000;
    assert!(secs > 1_577_836_800, "after 2020: {secs}");
    assert!(secs < 7_258_118_400, "before 2200: {secs}");
    let ms = Clock::new().moment().unix_ms();
    assert!((now_ms() - ms).abs() < 60_000);
}

#[test]
fn spans_add_up_and_hold_at_the_end() {
    let second = Duration::from_secs(1);
    assert_eq!(second.plus(Duration::from_millis(500)).as_millis(), 1_500);
    assert_eq!(second.times(3).as_millis(), 3_000);
    let most = Duration { nanos: u128::MAX };
    assert_eq!(most.plus(second), most);
    assert_eq!(most.times(2), most);
    assert_eq!(most.times(0).nanos, 0);
    assert_eq!(millis_of(most), i64::MAX);
    assert_eq!(millis_of(Duration { nanos: 1_999_999 }), 1);
}

#[test]
fn instants_measure_spans() {
    let start = Instant { nanos: 1_000 };
    let end = start.plus(Duration::from_millis(2));
    assert_eq!(end.saturating_duration_since(start).as_millis(), 2);
    assert_eq!(start.saturating_duration_since(end).nanos, 0);
    assert_eq!(end.checked_sub(Duration::from_millis(2)), Some(start));
    assert_eq!(start.checked_sub(Duration::from_secs(1)), None);
}

#[test]
fn a_clock_set_before_the_epoch_shows_the_epoch() {
    assert_eq!(since_epoch(None).nanos, 0);
    assert_eq!(since_epoch(Some(0)).nanos, 0);
    assert_eq!(since_epoch(Some(1_500_000_000)).as_millis(), 1_500);
}
