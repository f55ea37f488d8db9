use vstd::prelude::*;
use chrono::Datelike;
use crate::naming::CalendarDate;

verus! {

/// The UTC calendar date (year, month, day) of the instant `secs` seconds
/// after the Unix epoch, as chrono computes it; `None` where chrono cannot
/// represent that instant.
pub uninterp spec fn utc_date_of(secs: i64) -> Option<(i32, u32, u32)>;

/// Relies on chrono's `DateTime::<Utc>::from_timestamp` (a function of `secs`
/// alone, `None` when out of range) and on `Datelike::month` / `Datelike::day`
/// of the `NaiveDate` it gives, documented to lie in 1..=12 and 1..=31.
#[verifier::external_body]
fn utc_date_parts(secs: i64) -> (r: Option<(i32, u32, u32)>)
    ensures
        r == utc_date_of(secs),
        r matches Some((_, m, d)) ==> 1 <= m <= 12 && 1 <= d <= 31,
{
    match chrono::DateTime::from_timestamp(secs, 0) {
        Some(t) => {
            let d = t.date_naive();
            Some((d.year(), d.month(), d.day()))
        },
        None => None,
    }
}

/// The partition key for calendar parts: `None` unless the year lies in
/// 0..=9999, the month in 1..=12 and the day in 1..=31.
pub open spec fn date_from_parts_spec(parts: Option<(i32, u32, u32)>) -> Option<CalendarDate> {
    match parts {
        Some((y, m, d)) => if 0 <= y <= 9999 && 1 <= m <= 12 && 1 <= d <= 31 {
            Some(CalendarDate { year: y as u32, month: m, day: d })
        } else {
            None
        },
        None => None,
    }
}

/// Turns calendar parts into a partition key, refusing parts out of range.
pub fn date_from_parts(parts: Option<(i32, u32, u32)>) -> (r: Option<CalendarDate>)
    ensures
        r == date_from_parts_spec(parts),
        r matches Some(d) ==> d.wf(),
{
    match parts {
        Some((y, m, d)) => if 0 <= y && y <= 9999 {
            CalendarDate::new(y as u32, m, d)
        } else {
            None
        },
        None => None,
    }
}

/// The UTC date of the instant `secs` seconds after the Unix epoch, when a
/// file name can carry it (years 0 to 9999).
pub fn date_of_timestamp(secs: i64) -> (r: Option<CalendarDate>)
    ensures
        r == date_from_parts_spec(utc_date_of(secs)),
        r matches Some(d) ==> d.wf(),
{
    date_from_parts(utc_date_parts(secs))
}

} // verus!
