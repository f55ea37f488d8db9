use vstd::prelude::*;
use crate::meter::{Report, ThroughputMeter};
use crate::naming::CalendarDate;

verus! {

/// How many events pass between two progress reports.
pub const REPORT_INTERVAL: u64 = 10000;

/// One unit of broker activity, as the ingestion loop sees it.
#[derive(Debug)]
pub enum IngestEvent {
    /// A fresh or re-established session.
    ConnectionEstablished,
    /// The broker acknowledged the subscription.
    SubscriptionConfirmed,
    /// A published message with its payload.
    MessageReceived(Vec<u8>),
    /// Keep-alive traffic in either direction.
    Heartbeat,
    /// Anything else.
    Other,
}

pub enum EventView {
    ConnectionEstablished,
    SubscriptionConfirmed,
    MessageReceived(Seq<u8>),
    Heartbeat,
    Other,
}

impl View for IngestEvent {
    type V = EventView;

    open spec fn view(&self) -> EventView {
        match self {
            IngestEvent::ConnectionEstablished => EventView::ConnectionEstablished,
            IngestEvent::SubscriptionConfirmed => EventView::SubscriptionConfirmed,
            IngestEvent::MessageReceived(p) => EventView::MessageReceived(p@),
            IngestEvent::Heartbeat => EventView::Heartbeat,
            IngestEvent::Other => EventView::Other,
        }
    }
}

/// Why a new output target has to be opened before the event's action.
#[derive(Clone, Copy, Debug, PartialEq, Eq, Structural)]
pub enum RotationCause {
    /// The UTC date differs from the current target's date.
    NewDay,
    /// The subscription was confirmed while the current target already holds records.
    Resubscribed,
}

/// What the event itself asks for, after any rotation.
#[derive(Debug)]
pub enum Action {
    /// Issue the subscribe request to the broker client.
    Subscribe,
    /// Append these bytes (the payload and one newline) to the current target.
    Append(Vec<u8>),
    /// Nothing to do.
    Ignore,
    /// Nothing to do but note the event for diagnostics.
    Note,
}

pub enum ActionView {
    Subscribe,
    Append(Seq<u8>),
    Ignore,
    Note,
}

impl View for Action {
    type V = ActionView;

    open spec fn view(&self) -> ActionView {
        match self {
            Action::Subscribe => ActionView::Subscribe,
            Action::Append(b) => ActionView::Append(b@),
            Action::Ignore => ActionView::Ignore,
            Action::Note => ActionView::Note,
        }
    }
}

/// The work one event calls for, in order: report progress, open a new target,
/// then perform the action.
#[derive(Debug)]
pub struct Plan {
    pub report: Option<Report>,
    pub rotate: Option<RotationCause>,
    pub action: Action,
}

pub struct PlanView {
    pub report: Option<Report>,
    pub rotate: Option<RotationCause>,
    pub action: ActionView,
}

impl View for Plan {
    type V = PlanView;

    open spec fn view(&self) -> PlanView {
        PlanView { report: self.report, rotate: self.rotate, action: self.action@ }
    }
}

/// The record stored for a payload: the payload bytes followed by one newline.
pub open spec fn record_of(payload: Seq<u8>) -> Seq<u8> {
    payload.push(10u8)
}

/// The action an event asks for.
pub open spec fn action_spec(ev: EventView) -> ActionView {
    match ev {
        EventView::ConnectionEstablished => ActionView::Subscribe,
        EventView::MessageReceived(p) => ActionView::Append(record_of(p)),
        EventView::Other => ActionView::Note,
        _ => ActionView::Ignore,
    }
}

pub open spec fn is_message(ev: EventView) -> bool {
    match ev {
        EventView::MessageReceived(_) => true,
        _ => false,
    }
}

pub open spec fn is_subscription_confirmed(ev: EventView) -> bool {
    match ev {
        EventView::SubscriptionConfirmed => true,
        _ => false,
    }
}

/// The state of the ingestion loop: the current target's date (the partition
/// key), the records written to it, the events processed so far, and the meter.
#[derive(Clone, Copy, Debug, PartialEq, Eq, Structural)]
pub struct Engine {
    pub day: CalendarDate,
    pub written: u64,
    pub processed: u64,
    pub meter: ThroughputMeter,
}

impl Engine {
    pub open spec fn wf(self) -> bool {
        &&& self.day.wf()
        &&& self.meter.wf()
        &&& self.written <= self.processed
    }

    /// Whether an event on `today` must first open a new target, and why.
    pub open spec fn rotation_spec(self, ev: EventView, today: CalendarDate) -> Option<
        RotationCause,
    > {
        if today != self.day {
            Some(RotationCause::NewDay)
        } else if is_subscription_confirmed(ev) && self.written > 0 {
            Some(RotationCause::Resubscribed)
        } else {
            None
        }
    }

    /// The next state and the plan for event `ev`, seen on date `today` at time `now`.
    pub open spec fn step_spec(self, ev: EventView, today: CalendarDate, now: i64) -> (
        Engine,
        PlanView,
    ) {
        let (meter, report) = self.meter.tick_spec(self.processed, now);
        let rotate = self.rotation_spec(ev, today);
        let kept = if rotate.is_some() {
            0
        } else {
            self.written as int
        };
        let written = if is_message(ev) {
            kept + 1
        } else {
            kept
        };
        (
            Engine {
                day: today,
                written: written as u64,
                processed: (self.processed + 1) as u64,
                meter,
            },
            PlanView { report, rotate, action: action_spec(ev) },
        )
    }

    pub open spec fn new_spec(today: CalendarDate, now: i64, interval: u64) -> Engine {
        Engine {
            day: today,
            written: 0,
            processed: 0,
            meter: ThroughputMeter::new_spec(interval, now),
        }
    }

    /// The state at process start, right after the first target for `today`
    /// was opened at time `now`.
    pub fn new(today: CalendarDate, now: i64, interval: u64) -> (r: Engine)
        requires
            today.wf(),
            interval >= 1,
        ensures
            r.wf(),
            r == Engine::new_spec(today, now, interval),
    {
        Engine { day: today, written: 0, processed: 0, meter: ThroughputMeter::new(interval, now) }
    }

    /// Processes one event: meter tick, daily-boundary check, then dispatch.
    /// The caller carries out the returned plan in order.
    pub fn on_event(&mut self, ev: IngestEvent, today: CalendarDate, now: i64) -> (r: Plan)
        requires
            old(self).wf(),
            today.wf(),
            old(self).processed < u64::MAX,
        ensures
            final(self).wf(),
            (*final(self), r@) == old(self).step_spec(ev@, today, now),
    {
        let report = self.meter.tick(self.processed, now);
        let mut rotate: Option<RotationCause> = None;
        if today != self.day {
            self.day = today;
            self.written = 0;
            rotate = Some(RotationCause::NewDay);
        }
        let action = match ev {
            IngestEvent::ConnectionEstablished => Action::Subscribe,
            IngestEvent::SubscriptionConfirmed => {
                if self.written > 0 {
                    self.written = 0;
                    rotate = Some(RotationCause::Resubscribed);
                }
                Action::Ignore
            },
            IngestEvent::MessageReceived(payload) => {
                let mut rec = payload;
                rec.push(10u8);
                self.written = self.written + 1;
                Action::Append(rec)
            },
            IngestEvent::Heartbeat => Action::Ignore,
            IngestEvent::Other => Action::Note,
        };
        self.processed = self.processed + 1;
        Plan { report, rotate, action }
    }
}

} // verus!
