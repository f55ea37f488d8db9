use firehose::naming::{candidate_name, format_date, CalendarDate};

fn date(y: u32, m: u32, d: u32) -> CalendarDate {
    CalendarDate::new(y, m, d).unwrap()
}

#[test]
fn date_is_written_with_padded_fields() {
    assert_eq!(format_date(date(2024, 3, 5)), "2024-03-05");
    assert_eq!(format_date(date(987, 12, 31)), "0987-12-31");
    assert_eq!(format_date(date(0, 1, 1)), "0000-01-01");
    assert_eq!(format_date(date(9999, 10, 10)), "9999-10-10");
}

#[test]
fn out_of_range_date_parts_are_refused() {
    assert!(CalendarDate::new(10000, 1, 1).is_none());
    assert!(CalendarDate::new(2024, 0, 1).is_none());
    assert!(CalendarDate::new(2024, 13, 1).is_none());
    assert!(CalendarDate::new(2024, 1, 0).is_none());
    assert!(CalendarDate::new(2024, 1, 32).is_none());
    let d = CalendarDate::new(2024, 2, 29).unwrap();
    assert_eq!((d.year, d.month, d.day), (2024, 2, 29));
}

#[test]
fn first_candidate_is_the_bare_dated_name() {
    assert_eq!(candidate_name("/tmp/x", date(2024, 3, 5), 0), "/tmp/x.2024-03-05");
}

#[test]
fn later_candidates_carry_a_decimal_suffix() {
    let d = date(2021, 11, 9);
    assert_eq!(candidate_name("/data/mqtt/firehose", d, 1), "/data/mqtt/firehose.2021-11-09.1");
    assert_eq!(candidate_name("p", d, 10), "p.2021-11-09.10");
    assert_eq!(candidate_name("p", d, 999), "p.2021-11-09.999");
    assert_eq!(candidate_name("", d, 4294967295), ".2021-11-09.4294967295");
}
