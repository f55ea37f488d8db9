use vstd::prelude::*;

verus! {

/// The distance between two instants given in whole seconds.
pub open spec fn seconds_between(a: i64, b: i64) -> nat {
    if a >= b {
        (a - b) as nat
    } else {
        (b - a) as nat
    }
}

/// Events per second over `elapsed` seconds, counting a sub-second span as one second.
pub open spec fn rate_of(interval: u64, elapsed: nat) -> nat {
    if elapsed == 0 {
        interval as nat
    } else {
        interval as nat / elapsed
    }
}

/// A progress report, emitted every `interval` events.
#[derive(Clone, Copy, Debug, PartialEq, Eq, Structural)]
pub struct Report {
    /// The index of the event at which the report was made.
    pub events: u64,
    /// Seconds since the meter started.
    pub total_secs: u64,
    /// Seconds since the previous report (or the start).
    pub since_last_secs: u64,
    /// Events per second since the previous report.
    pub rate: u64,
}

/// Counts processed events and reports elapsed time and rate every `interval`
/// events. Purely observational.
#[derive(Clone, Copy, Debug, PartialEq, Eq, Structural)]
pub struct ThroughputMeter {
    pub interval: u64,
    /// The event index at which the next report is due: always a positive
    /// multiple of `interval`.
    pub next_report_at: u128,
    pub start_secs: i64,
    pub last_report_secs: i64,
}

impl ThroughputMeter {
    pub open spec fn wf(self) -> bool {
        &&& self.interval >= 1
        &&& (self.next_report_at as int) % (self.interval as int) == 0
        &&& self.interval <= self.next_report_at <= u64::MAX as int + self.interval
    }

    /// What `tick` does: report when `index` reaches the threshold, then move
    /// the threshold on by one interval.
    pub open spec fn tick_spec(self, index: u64, now: i64) -> (ThroughputMeter, Option<Report>) {
        if index as int == self.next_report_at {
            let since = seconds_between(now, self.last_report_secs);
            (
                ThroughputMeter {
                    next_report_at: (self.next_report_at + self.interval) as u128,
                    last_report_secs: now,
                    ..self
                },
                Some(
                    Report {
                        events: index,
                        total_secs: seconds_between(now, self.start_secs) as u64,
                        since_last_secs: since as u64,
                        rate: rate_of(self.interval, since) as u64,
                    },
                ),
            )
        } else {
            (self, None)
        }
    }

    pub open spec fn new_spec(interval: u64, now: i64) -> ThroughputMeter {
        ThroughputMeter {
            interval,
            next_report_at: interval as u128,
            start_secs: now,
            last_report_secs: now,
        }
    }

    /// A meter started at `now` that reports every `interval` events.
    pub fn new(interval: u64, now: i64) -> (r: ThroughputMeter)
        requires
            interval >= 1,
        ensures
            r.wf(),
            r == ThroughputMeter::new_spec(interval, now),
    {
        proof {
            vstd::arithmetic::div_mod::lemma_mod_self_0(interval as int);
        }
        ThroughputMeter {
            interval,
            next_report_at: interval as u128,
            start_secs: now,
            last_report_secs: now,
        }
    }

    /// Observes the event with the given index at time `now`.
    pub fn tick(&mut self, index: u64, now: i64) -> (r: Option<Report>)
        requires
            old(self).wf(),
        ensures
            final(self).wf(),
            (*final(self), r) == old(self).tick_spec(index, now),
    {
        if index as u128 == self.next_report_at {
            let total = seconds_apart(now, self.start_secs);
            let since = seconds_apart(now, self.last_report_secs);
            let rate = if since == 0 {
                self.interval
            } else {
                self.interval / since
            };
            proof {
                let iv = self.interval as int;
                let n = self.next_report_at as int;
                vstd::arithmetic::div_mod::lemma_mod_add_multiples_vanish(n, iv);
            }
            self.next_report_at = self.next_report_at + self.interval as u128;
            self.last_report_secs = now;
            Some(Report { events: index, total_secs: total, since_last_secs: since, rate })
        } else {
            None
        }
    }
}

fn seconds_apart(a: i64, b: i64) -> (r: u64)
    ensures
        r == seconds_between(a, b),
{
    if a >= b {
        ((a as i128) - (b as i128)) as u64
    } else {
        ((b as i128) - (a as i128)) as u64
    }
}

/// Two multiples of `iv` that lie within one interval of each other are equal.
pub(crate) proof fn lemma_multiples_close(a: int, b: int, iv: int)
    requires
        iv >= 1,
        a % iv == 0,
        b % iv == 0,
        b - iv < a <= b,
    ensures
        a == b,
{
    vstd::arithmetic::div_mod::lemma_fundamental_div_mod(a, iv);
    vstd::arithmetic::div_mod::lemma_fundamental_div_mod(b, iv);
    let p = a / iv;
    let q = b / iv;
    assert(a == iv * p);
    assert(b == iv * q);
    assert(p == q) by (nonlinear_arith)
        requires
            iv >= 1,
            a == iv * p,
            b == iv * q,
            b - iv < a <= b,
    ;
}

} // verus!
