use firehose::clock::{date_from_parts, date_of_timestamp};
use firehose::naming::CalendarDate;

fn ymd(d: CalendarDate) -> (u32, u32, u32) {
    (d.year, d.month, d.day)
}

#[test]
fn epoch_is_first_of_january_1970() {
    assert_eq!(ymd(date_of_timestamp(0).unwrap()), (1970, 1, 1));
}

#[test]
fn timestamps_map_to_utc_dates() {
    assert_eq!(ymd(date_of_timestamp(1431648000).unwrap()), (2015, 5, 15));
    assert_eq!(ymd(date_of_timestamp(1431647999).unwrap()), (2015, 5, 14));
    assert_eq!(ymd(date_of_timestamp(-1).unwrap()), (1969, 12, 31));
    assert_eq!(ymd(date_of_timestamp(951782400).unwrap()), (2000, 2, 29));
}

#[test]
fn unrepresentable_instants_have_no_date() {
    assert!(date_of_timestamp(i64::MAX).is_none());
    assert!(date_of_timestamp(i64::MIN).is_none());
    // 10000-01-01T00:00:00Z is representable by chrono but cannot name a file.
    assert!(date_of_timestamp(253402300800).is_none());
    assert_eq!(ymd(date_of_timestamp(253402300799).unwrap()), (9999, 12, 31));
}

#[test]
fn parts_out_of_range_are_refused() {
    assert!(date_from_parts(None).is_none());
    assert!(date_from_parts(Some((-1, 1, 1))).is_none());
    assert!(date_from_parts(Some((10000, 1, 1))).is_none());
    assert!(date_from_parts(Some((2020, 13, 1))).is_none());
    assert!(date_from_parts(Some((2020, 1, 0))).is_none());
    assert_eq!(ymd(date_from_parts(Some((2020, 7, 4))).unwrap()), (2020, 7, 4));
    assert_eq!(ymd(date_from_parts(Some((0, 1, 31))).unwrap()), (0, 1, 31));
}
