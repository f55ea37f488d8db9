use firehose::meter::{Report, ThroughputMeter};

#[test]
fn meter_reports_only_at_the_threshold() {
    let mut m = ThroughputMeter::new(10, 1000);
    for i in 0..10u64 {
        assert_eq!(m.tick(i, 1000 + i as i64), None);
    }
    let r = m.tick(10, 1005).unwrap();
    assert_eq!(r, Report { events: 10, total_secs: 5, since_last_secs: 5, rate: 2 });
    assert_eq!(m.next_report_at, 20);
    assert_eq!(m.last_report_secs, 1005);
    assert_eq!(m.tick(11, 1006), None);
    let r = m.tick(20, 1009).unwrap();
    assert_eq!(r, Report { events: 20, total_secs: 9, since_last_secs: 4, rate: 2 });
}

#[test]
fn sub_second_interval_counts_as_one_second() {
    let mut m = ThroughputMeter::new(10000, 50);
    let r = m.tick(10000, 50).unwrap();
    assert_eq!(r.since_last_secs, 0);
    assert_eq!(r.rate, 10000);
}

#[test]
fn clock_going_back_gives_distance() {
    let mut m = ThroughputMeter::new(3, 100);
    let r = m.tick(3, 97).unwrap();
    assert_eq!(r.total_secs, 3);
    assert_eq!(r.rate, 1);
}

#[test]
fn extreme_times_do_not_overflow() {
    let mut m = ThroughputMeter::new(1, i64::MIN);
    let r = m.tick(1, i64::MAX).unwrap();
    assert_eq!(r.total_secs, u64::MAX);
    assert_eq!(r.rate, 0);
}
