use vstd::prelude::*;
use crate::engine::{ActionView, Engine, EventView, PlanView, RotationCause, record_of};
use crate::meter::lemma_multiples_close;
use crate::naming::CalendarDate;

verus! {

/// One event as the loop receives it, with the UTC date and the time (in
/// seconds) at which it is processed.
pub struct Tick {
    pub event: EventView,
    pub today: CalendarDate,
    pub now: i64,
}

/// The output targets in the order they were opened: each one's date and contents.
pub type Targets = Seq<(CalendarDate, Seq<u8>)>;

/// The targets after a plan has been carried out: a rotation opens an empty
/// target for `day`, then an append extends the current (last) target.
pub open spec fn apply_plan(files: Targets, day: CalendarDate, plan: PlanView) -> Targets {
    let opened = if plan.rotate.is_some() {
        files.push((day, Seq::<u8>::empty()))
    } else {
        files
    };
    match plan.action {
        ActionView::Append(rec) => opened.update(
            opened.len() - 1,
            (opened.last().0, opened.last().1 + rec),
        ),
        _ => opened,
    }
}

/// The engine state, the plans, and the targets after the loop has processed
/// `ticks` from state `s` with targets `files`.
pub open spec fn run(s: Engine, files: Targets, ticks: Seq<Tick>) -> (Engine, Seq<PlanView>, Targets)
    decreases ticks.len(),
{
    if ticks.len() == 0 {
        (s, Seq::empty(), files)
    } else {
        let (mid, plans, mid_files) = run(s, files, ticks.drop_last());
        let t = ticks.last();
        let (next, plan) = mid.step_spec(t.event, t.today, t.now);
        (next, plans.push(plan), apply_plan(mid_files, next.day, plan))
    }
}

/// All bytes of the targets, in order.
pub open spec fn concat(files: Targets) -> Seq<u8>
    decreases files.len(),
{
    if files.len() == 0 {
        Seq::empty()
    } else {
        concat(files.drop_last()) + files.last().1
    }
}

/// The records of the messages among `ticks`, in arrival order.
pub open spec fn records(ticks: Seq<Tick>) -> Seq<u8>
    decreases ticks.len(),
{
    if ticks.len() == 0 {
        Seq::empty()
    } else {
        let more = match ticks.last().event {
            EventView::MessageReceived(p) => record_of(p),
            _ => Seq::empty(),
        };
        records(ticks.drop_last()) + more
    }
}

/// The payloads of the messages among `ticks`, in arrival order.
pub open spec fn payloads(ticks: Seq<Tick>) -> Seq<Seq<u8>>
    decreases ticks.len(),
{
    if ticks.len() == 0 {
        Seq::empty()
    } else {
        let before = payloads(ticks.drop_last());
        match ticks.last().event {
            EventView::MessageReceived(p) => before.push(p),
            _ => before,
        }
    }
}

/// The records of `ps`, one after another.
pub open spec fn frame(ps: Seq<Seq<u8>>) -> Seq<u8>
    decreases ps.len(),
{
    if ps.len() == 0 {
        Seq::empty()
    } else {
        record_of(ps[0]) + frame(ps.drop_first())
    }
}

/// `b` cut into the pieces that newlines end; each piece drops its newline,
/// and bytes after the last newline form a last piece.
pub open spec fn lines(b: Seq<u8>) -> Seq<Seq<u8>>
    decreases b.len(),
{
    if b.len() == 0 {
        Seq::empty()
    } else {
        let rest = lines(b.drop_first());
        if b[0] == 10u8 {
            seq![Seq::<u8>::empty()] + rest
        } else if rest.len() == 0 {
            seq![seq![b[0]]]
        } else {
            rest.update(0, seq![b[0]] + rest[0])
        }
    }
}

pub open spec fn newline_free(p: Seq<u8>) -> bool {
    forall|i: int| 0 <= i < p.len() ==> p[i] != 10u8
}

proof fn lemma_lines_record(p: Seq<u8>, rest: Seq<u8>)
    requires
        newline_free(p),
    ensures
        lines(record_of(p) + rest) == seq![p] + lines(rest),
    decreases p.len(),
{
    let b = record_of(p) + rest;
    if p.len() == 0 {
        assert(b.drop_first() =~= rest);
        assert(p =~= Seq::<u8>::empty());
        assert(b[0] == 10u8);
    } else {
        let q = p.drop_first();
        assert(b.drop_first() =~= record_of(q) + rest);
        lemma_lines_record(q, rest);
        assert(b[0] == p[0]);
        assert(seq![b[0]] + q =~= p);
        assert(lines(b) =~= seq![p] + lines(rest));
    }
}

proof fn lemma_lines_frame(ps: Seq<Seq<u8>>)
    requires
        forall|i: int| 0 <= i < ps.len() ==> newline_free(#[trigger] ps[i]),
    ensures
        lines(frame(ps)) == ps,
    decreases ps.len(),
{
    if ps.len() > 0 {
        let p = ps[0];
        let rest = ps.drop_first();
        assert(forall|i: int| 0 <= i < rest.len() ==> rest[i] == ps[i + 1]);
        lemma_lines_frame(rest);
        lemma_lines_record(p, frame(rest));
        assert(ps =~= seq![p] + rest);
    }
}

proof fn lemma_frame_push(ps: Seq<Seq<u8>>, p: Seq<u8>)
    ensures
        frame(ps.push(p)) == frame(ps) + record_of(p),
    decreases ps.len(),
{
    if ps.len() == 0 {
        assert(ps.push(p).drop_first() =~= ps);
        assert(frame(ps.push(p)) =~= frame(ps) + record_of(p));
    } else {
        assert(ps.push(p).drop_first() =~= ps.drop_first().push(p));
        lemma_frame_push(ps.drop_first(), p);
        assert(frame(ps.push(p)) =~= frame(ps) + record_of(p));
    }
}

proof fn lemma_records_frame(ticks: Seq<Tick>)
    ensures
        records(ticks) == frame(payloads(ticks)),
    decreases ticks.len(),
{
    if ticks.len() == 0 {
        assert(records(ticks) =~= frame(payloads(ticks)));
    } else {
        lemma_records_frame(ticks.drop_last());
        match ticks.last().event {
            EventView::MessageReceived(p) => {
                lemma_frame_push(payloads(ticks.drop_last()), p);
            },
            _ => {
                assert(records(ticks) =~= records(ticks.drop_last()));
            },
        }
    }
}

/// When no payload holds a newline byte, the records written over a run cut at
/// their newlines give back exactly the payloads, in arrival order: each
/// payload is followed by exactly one newline.
pub proof fn lemma_records_decode(ticks: Seq<Tick>)
    requires
        forall|i: int| 0 <= i < payloads(ticks).len() ==> newline_free(#[trigger] payloads(ticks)[i]),
    ensures
        records(ticks) == frame(payloads(ticks)),
        lines(records(ticks)) == payloads(ticks),
{
    lemma_records_frame(ticks);
    lemma_lines_frame(payloads(ticks));
}

proof fn lemma_concat_apply(files: Targets, day: CalendarDate, plan: PlanView)
    requires
        files.len() >= 1,
    ensures
        apply_plan(files, day, plan).len() >= 1,
        concat(apply_plan(files, day, plan)) == concat(files) + match plan.action {
            ActionView::Append(rec) => rec,
            _ => Seq::empty(),
        },
{
    let opened = if plan.rotate.is_some() {
        files.push((day, Seq::<u8>::empty()))
    } else {
        files
    };
    if plan.rotate.is_some() {
        assert(opened.drop_last() =~= files);
        assert(concat(opened) =~= concat(files));
    }
    match plan.action {
        ActionView::Append(rec) => {
            let after = apply_plan(files, day, plan);
            assert(after.drop_last() =~= opened.drop_last());
            assert(concat(after) =~= concat(opened) + rec);
        },
        _ => {
            assert(concat(opened) =~= concat(files) + Seq::<u8>::empty());
        },
    }
}

/// Whatever the events, dates and times, the bytes of all targets, read in the
/// order the targets were opened, are the bytes already there followed by each
/// received payload with one newline, in arrival order.
pub proof fn lemma_payloads_in_order(s: Engine, files: Targets, ticks: Seq<Tick>)
    requires
        files.len() >= 1,
    ensures
        run(s, files, ticks).2.len() >= 1,
        concat(run(s, files, ticks).2) == concat(files) + records(ticks),
    decreases ticks.len(),
{
    if ticks.len() == 0 {
        assert(concat(files) + records(ticks) =~= concat(files));
    } else {
        let (mid, plans, mid_files) = run(s, files, ticks.drop_last());
        lemma_payloads_in_order(s, files, ticks.drop_last());
        let t = ticks.last();
        let (next, plan) = mid.step_spec(t.event, t.today, t.now);
        lemma_concat_apply(mid_files, next.day, plan);
        assert(concat(files) + records(ticks) =~= concat(files) + records(ticks.drop_last())
            + match t.event {
            EventView::MessageReceived(p) => record_of(p),
            _ => Seq::empty(),
        });
    }
}

/// Starting from one empty target, and whatever the events, dates and times,
/// the bytes of all targets in the order they were opened, cut at their
/// newlines, are the received payloads in arrival order, provided no payload
/// holds a newline byte.
pub proof fn lemma_targets_give_back_payloads(s: Engine, ticks: Seq<Tick>)
    requires
        forall|i: int| 0 <= i < payloads(ticks).len() ==> newline_free(#[trigger] payloads(ticks)[i]),
    ensures
        concat(run(s, seq![(s.day, Seq::<u8>::empty())], ticks).2) == frame(payloads(ticks)),
        lines(concat(run(s, seq![(s.day, Seq::<u8>::empty())], ticks).2)) == payloads(ticks),
{
    let files = seq![(s.day, Seq::<u8>::empty())];
    assert(files.drop_last() =~= Seq::<(CalendarDate, Seq<u8>)>::empty());
    assert(concat(files.drop_last()) == Seq::<u8>::empty());
    assert(concat(files) =~= Seq::<u8>::empty() + Seq::<u8>::empty());
    lemma_payloads_in_order(s, files, ticks);
    assert(concat(files) + records(ticks) =~= records(ticks));
    lemma_records_decode(ticks);
}

/// When the date changes between two consecutive events, the first event's
/// record goes to the target that is current after it, which bears the first
/// event's date; the second event opens one new target for the new date, and
/// its record (if any) goes there alone: the targets opened before are left as
/// they were.
pub proof fn lemma_daily_boundary(
    s: Engine,
    files: Targets,
    first: Tick,
    second: Tick,
)
    requires
        files.len() >= 1,
        files.last().0 == s.day,
        second.today != first.today,
    ensures
        ({
            let (s1, p1) = s.step_spec(first.event, first.today, first.now);
            let f1 = apply_plan(files, s1.day, p1);
            let (s2, p2) = s1.step_spec(second.event, second.today, second.now);
            let f2 = apply_plan(f1, s2.day, p2);
            &&& f1.len() >= 1
            &&& f1.last().0 == first.today
            &&& (p1.action matches ActionView::Append(rec) ==> f1.last().1 == (if p1.rotate.is_some() {
                Seq::<u8>::empty()
            } else {
                files.last().1
            }) + rec)
            &&& p2.rotate == Some(RotationCause::NewDay)
            &&& f2.len() == f1.len() + 1
            &&& f2.subrange(0, f1.len() as int) == f1
            &&& f2.last().0 == second.today
            &&& f2.last().1 == match p2.action {
                ActionView::Append(rec) => rec,
                _ => Seq::<u8>::empty(),
            }
        }),
{
    let (s1, p1) = s.step_spec(first.event, first.today, first.now);
    let f1 = apply_plan(files, s1.day, p1);
    let (s2, p2) = s1.step_spec(second.event, second.today, second.now);
    let f2 = apply_plan(f1, s2.day, p2);
    assert(f2.subrange(0, f1.len() as int) =~= f1);
    if p1.rotate.is_some() {
        match p1.action {
            ActionView::Append(rec) => {
                assert(f1.last().1 =~= Seq::<u8>::empty() + rec);
            },
            _ => {},
        }
    }
    match p2.action {
        ActionView::Append(rec) => {
            assert(f2.last().1 =~= Seq::<u8>::empty() + rec);
        },
        _ => {},
    }
}

/// Over any run, the current target (the last one opened) bears the engine's
/// partition key, so every record lands in a target dated with the day on
/// which its event was processed.
pub proof fn lemma_partition_key_kept(s: Engine, files: Targets, ticks: Seq<Tick>)
    requires
        files.len() >= 1,
        files.last().0 == s.day,
    ensures
        run(s, files, ticks).2.len() >= 1,
        run(s, files, ticks).2.last().0 == run(s, files, ticks).0.day,
        ticks.len() > 0 ==> run(s, files, ticks).0.day == ticks.last().today,
    decreases ticks.len(),
{
    if ticks.len() > 0 {
        lemma_partition_key_kept(s, files, ticks.drop_last());
    }
}

/// A confirmed subscription on the current target's date opens no target when
/// nothing was written to the current one, and exactly one new target, with the
/// write counter back at zero, when something was.
pub proof fn lemma_resubscribe_rotation(s: Engine, files: Targets, today: CalendarDate, now: i64)
    requires
        files.len() >= 1,
        today == s.day,
    ensures
        ({
            let (s2, p) = s.step_spec(EventView::SubscriptionConfirmed, today, now);
            let f2 = apply_plan(files, s2.day, p);
            &&& s2.written == 0
            &&& (s.written == 0 ==> p.rotate.is_none() && f2 == files)
            &&& (s.written > 0 ==> p.rotate == Some(RotationCause::Resubscribed) && f2.len()
                == files.len() + 1 && f2.subrange(0, files.len() as int) == files)
        }),
{
    let (s2, p) = s.step_spec(EventView::SubscriptionConfirmed, today, now);
    let f2 = apply_plan(files, s2.day, p);
    if s.written > 0 {
        assert(f2.subrange(0, files.len() as int) =~= files);
    }
}

proof fn lemma_meter_run(today: CalendarDate, now: i64, interval: u64, files: Targets, ticks: Seq<Tick>)
    requires
        interval >= 1,
        ticks.len() < u64::MAX,
    ensures
        ({
            let (s, plans, _) = run(Engine::new_spec(today, now, interval), files, ticks);
            let next = s.meter.next_report_at as int;
            let iv = interval as int;
            let n = ticks.len() as int;
            &&& s.processed == n
            &&& s.meter.interval == interval
            &&& next % iv == 0
            &&& next - iv <= n <= next
            &&& (n == 0 || next - iv < n)
            &&& plans.len() == n
            &&& forall|k: int|
                0 <= k < n ==> (#[trigger] plans[k].report.is_some() <==> (k > 0 && k % iv == 0))
        }),
    decreases ticks.len(),
{
    let s0 = Engine::new_spec(today, now, interval);
    let iv = interval as int;
    if ticks.len() == 0 {
        vstd::arithmetic::div_mod::lemma_mod_self_0(iv);
    } else {
        lemma_meter_run(today, now, interval, files, ticks.drop_last());
        let (mid, plans, mid_files) = run(s0, files, ticks.drop_last());
        let t = ticks.last();
        let (s, plan) = mid.step_spec(t.event, t.today, t.now);
        let m = mid.processed as int;
        let next = mid.meter.next_report_at as int;
        if m == next {
            vstd::arithmetic::div_mod::lemma_mod_add_multiples_vanish(next, iv);
        }
        assert(plan.report.is_some() <==> (m > 0 && m % iv == 0)) by {
            if m > 0 && m % iv == 0 {
                lemma_multiples_close(m, next, iv);
            }
        }
        let all = plans.push(plan);
        assert forall|k: int| 0 <= k < m + 1 implies (#[trigger] all[k].report.is_some() <==> (k
            > 0 && k % iv == 0)) by {
            if k < m {
                assert(all[k] == plans[k]);
            }
        }
    }
}

/// From process start, the meter reports at event index `k` exactly when `k` is
/// a positive multiple of the interval, whatever the kinds of the events: once
/// per interval of processed events.
pub proof fn lemma_meter_fires_once_per_interval(
    today: CalendarDate,
    now: i64,
    interval: u64,
    files: Targets,
    ticks: Seq<Tick>,
)
    requires
        interval >= 1,
        ticks.len() < u64::MAX,
    ensures
        run(Engine::new_spec(today, now, interval), files, ticks).1.len() == ticks.len(),
        forall|k: int|
            0 <= k < ticks.len() ==> (#[trigger] run(
                Engine::new_spec(today, now, interval),
                files,
                ticks,
            ).1[k].report.is_some() <==> (k > 0 && k % (interval as int) == 0)),
{
    lemma_meter_run(today, now, interval, files, ticks);
}

} // verus!
