use vstd::prelude::*;
use vstd::string::StringExecFns;

verus! {

/// A UTC calendar date, the partition key of an output file.
#[derive(Clone, Copy, Debug, PartialEq, Eq, Structural)]
pub struct CalendarDate {
    pub year: u32,
    pub month: u32,
    pub day: u32,
}

impl CalendarDate {
    /// Years are written with four digits, so they stay below ten thousand.
    pub open spec fn wf(self) -> bool {
        &&& self.year <= 9999
        &&& 1 <= self.month <= 12
        &&& 1 <= self.day <= 31
    }

    /// Builds a date from its parts; `None` when a part is out of range.
    pub fn new(year: u32, month: u32, day: u32) -> (r: Option<CalendarDate>)
        ensures
            r.is_some() <==> (year <= 9999 && 1 <= month <= 12 && 1 <= day <= 31),
            r matches Some(d) ==> d.wf() && d.year == year && d.month == month && d.day == day,
    {
        if year <= 9999 && 1 <= month && month <= 12 && 1 <= day && day <= 31 {
            Some(CalendarDate { year, month, day })
        } else {
            None
        }
    }
}

/// The character of a decimal digit.
pub open spec fn digit_char(d: nat) -> char {
    if d == 0 { '0' }
    else if d == 1 { '1' }
    else if d == 2 { '2' }
    else if d == 3 { '3' }
    else if d == 4 { '4' }
    else if d == 5 { '5' }
    else if d == 6 { '6' }
    else if d == 7 { '7' }
    else if d == 8 { '8' }
    else { '9' }
}

/// The shortest decimal notation of `n`.
pub open spec fn decimal(n: nat) -> Seq<char>
    decreases n,
{
    if n < 10 {
        seq![digit_char(n)]
    } else {
        decimal(n / 10).push(digit_char(n % 10))
    }
}

/// `n` written with exactly two digits (`n < 100`).
pub open spec fn two_digits(n: nat) -> Seq<char> {
    seq![digit_char(n / 10), digit_char(n % 10)]
}

/// `n` written with exactly four digits (`n < 10000`).
pub open spec fn four_digits(n: nat) -> Seq<char> {
    seq![digit_char(n / 1000), digit_char((n / 100) % 10), digit_char((n / 10) % 10), digit_char(n % 10)]
}

/// The date as `YYYY-MM-DD`.
pub open spec fn date_text(d: CalendarDate) -> Seq<char> {
    four_digits(d.year as nat) + seq!['-'] + two_digits(d.month as nat) + seq!['-'] + two_digits(
        d.day as nat,
    )
}

/// The name of an output file: `<prefix>.<YYYY-MM-DD>` for the first attempt of a
/// day, `<prefix>.<YYYY-MM-DD>.<n>` for attempt `n > 0`.
pub open spec fn target_name(prefix: Seq<char>, d: CalendarDate, n: nat) -> Seq<char> {
    let base = prefix + seq!['.'] + date_text(d);
    if n == 0 {
        base
    } else {
        base + seq!['.'] + decimal(n)
    }
}

fn digit_str(d: u32) -> (r: &'static str)
    requires
        d < 10,
    ensures
        r@ == seq![digit_char(d as nat)],
{
    proof {
        reveal_strlit("0");
        reveal_strlit("1");
        reveal_strlit("2");
        reveal_strlit("3");
        reveal_strlit("4");
        reveal_strlit("5");
        reveal_strlit("6");
        reveal_strlit("7");
        reveal_strlit("8");
        reveal_strlit("9");
    }
    if d == 0 { "0" }
    else if d == 1 { "1" }
    else if d == 2 { "2" }
    else if d == 3 { "3" }
    else if d == 4 { "4" }
    else if d == 5 { "5" }
    else if d == 6 { "6" }
    else if d == 7 { "7" }
    else if d == 8 { "8" }
    else { "9" }
}

/// Appends the shortest decimal notation of `n`.
fn push_decimal(s: &mut String, n: u32)
    ensures
        final(s)@ == old(s)@ + decimal(n as nat),
    decreases n,
{
    if n < 10 {
        s.append(digit_str(n));
    } else {
        push_decimal(s, n / 10);
        s.append(digit_str(n % 10));
        proof {
            assert(decimal(n as nat) == decimal((n / 10) as nat).push(digit_char((n % 10) as nat)));
        }
    }
}

/// The date as `YYYY-MM-DD`.
pub fn format_date(d: CalendarDate) -> (r: String)
    requires
        d.wf(),
    ensures
        r@ == date_text(d),
{
    let mut s = String::new();
    s.append(digit_str(d.year / 1000));
    s.append(digit_str((d.year / 100) % 10));
    s.append(digit_str((d.year / 10) % 10));
    s.append(digit_str(d.year % 10));
    proof { reveal_strlit("-"); }
    s.append("-");
    s.append(digit_str(d.month / 10));
    s.append(digit_str(d.month % 10));
    s.append("-");
    s.append(digit_str(d.day / 10));
    s.append(digit_str(d.day % 10));
    assert(s@ =~= date_text(d));
    s
}

/// The name of attempt `n` at creating the output file of date `d`.
pub fn candidate_name(prefix: &str, d: CalendarDate, n: u32) -> (r: String)
    requires
        d.wf(),
    ensures
        r@ == target_name(prefix@, d, n as nat),
{
    let mut s = prefix.to_owned();
    proof { reveal_strlit("."); }
    s.append(".");
    let date = format_date(d);
    s.append(date.as_str());
    if n > 0 {
        s.append(".");
        push_decimal(&mut s, n);
    }
    assert(s@ =~= target_name(prefix@, d, n as nat));
    s
}

} // verus!
