use firehose::naming::{candidate_name, CalendarDate};
use firehose::rotator::{next_attempt, OpenOutcome, ProbeStep, MAX_ATTEMPTS};
use std::collections::HashSet;

fn probe(existing: &HashSet<String>, prefix: &str, d: CalendarDate, bound: u32) -> Option<String> {
    let mut i: u32 = 0;
    loop {
        let name = candidate_name(prefix, d, i);
        let outcome = if existing.contains(&name) {
            OpenOutcome::AlreadyExists
        } else {
            OpenOutcome::Created
        };
        match next_attempt(bound, i, outcome) {
            ProbeStep::Use(n) => {
                assert_eq!(n, i);
                return Some(name);
            }
            ProbeStep::Retry(n) => i = n,
            ProbeStep::Exhausted | ProbeStep::Fatal => return None,
        }
    }
}

#[test]
fn step_decisions() {
    assert_eq!(next_attempt(1000, 0, OpenOutcome::Created), ProbeStep::Use(0));
    assert_eq!(next_attempt(1000, 7, OpenOutcome::Created), ProbeStep::Use(7));
    assert_eq!(next_attempt(1000, 0, OpenOutcome::AlreadyExists), ProbeStep::Retry(1));
    assert_eq!(next_attempt(1000, 998, OpenOutcome::AlreadyExists), ProbeStep::Retry(999));
    assert_eq!(next_attempt(1000, 999, OpenOutcome::AlreadyExists), ProbeStep::Exhausted);
    assert_eq!(next_attempt(1000, 3, OpenOutcome::Failed), ProbeStep::Fatal);
    assert_eq!(MAX_ATTEMPTS, 1000);
}

#[test]
fn strict_create_takes_next_free_suffix() {
    let d = CalendarDate::new(2024, 3, 5).unwrap();
    let mut existing = HashSet::new();
    assert_eq!(probe(&existing, "/tmp/x", d, MAX_ATTEMPTS).unwrap(), "/tmp/x.2024-03-05");
    for n in 0..3u32 {
        existing.insert(candidate_name("/tmp/x", d, n));
    }
    assert_eq!(probe(&existing, "/tmp/x", d, MAX_ATTEMPTS).unwrap(), "/tmp/x.2024-03-05.3");
}

#[test]
fn strict_create_ignores_other_dates() {
    let d = CalendarDate::new(2024, 3, 5).unwrap();
    let other = CalendarDate::new(2024, 3, 4).unwrap();
    let mut existing = HashSet::new();
    existing.insert(candidate_name("/tmp/x", other, 0));
    assert_eq!(probe(&existing, "/tmp/x", d, MAX_ATTEMPTS).unwrap(), "/tmp/x.2024-03-05");
}

#[test]
fn strict_create_gives_up_at_the_bound() {
    let d = CalendarDate::new(2024, 3, 5).unwrap();
    let mut existing = HashSet::new();
    for n in 0..MAX_ATTEMPTS {
        existing.insert(candidate_name("/tmp/x", d, n));
    }
    assert_eq!(probe(&existing, "/tmp/x", d, MAX_ATTEMPTS), None);
    existing.remove(&candidate_name("/tmp/x", d, MAX_ATTEMPTS - 1));
    assert_eq!(probe(&existing, "/tmp/x", d, MAX_ATTEMPTS).unwrap(), "/tmp/x.2024-03-05.999");
}
