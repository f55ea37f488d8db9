use vstd::prelude::*;
use crate::naming::{CalendarDate, target_name};

verus! {

/// How many names the strict-create policy tries for one date before it gives up.
pub const MAX_ATTEMPTS: u32 = 1000;

/// What an exclusive-create attempt on a candidate name came to.
#[derive(Clone, Copy, Debug, PartialEq, Eq, Structural)]
pub enum OpenOutcome {
    /// The file did not exist and is now created and open.
    Created,
    /// A file of that name already exists; it was left untouched.
    AlreadyExists,
    /// Any other I/O failure.
    Failed,
}

/// What to do after an attempt.
#[derive(Clone, Copy, Debug, PartialEq, Eq, Structural)]
pub enum ProbeStep {
    /// The attempt with this number created the new output target.
    Use(u32),
    /// Try the candidate with this number next.
    Retry(u32),
    /// Every allowed name exists already: rotation fails.
    Exhausted,
    /// Opening failed for another reason: rotation fails.
    Fatal,
}

/// The decision after attempt `attempt` gave `outcome`, when `bound` attempts are allowed.
pub open spec fn probe_step_spec(bound: nat, attempt: nat, outcome: OpenOutcome) -> ProbeStep {
    match outcome {
        OpenOutcome::Created => ProbeStep::Use(attempt as u32),
        OpenOutcome::Failed => ProbeStep::Fatal,
        OpenOutcome::AlreadyExists => if attempt + 1 < bound {
            ProbeStep::Retry((attempt + 1) as u32)
        } else {
            ProbeStep::Exhausted
        },
    }
}

/// Decides the next step of the strict-create search after attempt `attempt`
/// (counted from 0; attempt 0 is the bare dated name).
pub fn next_attempt(bound: u32, attempt: u32, outcome: OpenOutcome) -> (r: ProbeStep)
    requires
        attempt < bound,
    ensures
        r == probe_step_spec(bound as nat, attempt as nat, outcome),
{
    match outcome {
        OpenOutcome::Created => ProbeStep::Use(attempt),
        OpenOutcome::Failed => ProbeStep::Fatal,
        OpenOutcome::AlreadyExists => if attempt + 1 < bound {
            ProbeStep::Retry(attempt + 1)
        } else {
            ProbeStep::Exhausted
        },
    }
}

/// The outcome that exclusive creation of `name` has on a store holding the
/// files `store` (name to contents), when no I/O fault happens.
pub open spec fn create_outcome(store: Map<Seq<char>, Seq<u8>>, name: Seq<char>) -> OpenOutcome {
    if store.dom().contains(name) {
        OpenOutcome::AlreadyExists
    } else {
        OpenOutcome::Created
    }
}

/// The strict-create search on `store` from attempt `attempt` on, driven by
/// `probe_step_spec`: the number of the name it creates, or `None`.
pub open spec fn probe_from(
    store: Map<Seq<char>, Seq<u8>>,
    prefix: Seq<char>,
    d: CalendarDate,
    bound: nat,
    attempt: nat,
) -> Option<nat>
    decreases bound - attempt,
{
    if attempt >= bound || bound > u32::MAX {
        None
    } else {
        match probe_step_spec(
            bound,
            attempt,
            create_outcome(store, target_name(prefix, d, attempt)),
        ) {
            ProbeStep::Use(n) => Some(n as nat),
            ProbeStep::Retry(n) => probe_from(store, prefix, d, bound, n as nat),
            _ => None,
        }
    }
}

/// The store after the strict-create search of `d` has run on it.
pub open spec fn store_after_create(
    store: Map<Seq<char>, Seq<u8>>,
    prefix: Seq<char>,
    d: CalendarDate,
    bound: nat,
) -> Map<Seq<char>, Seq<u8>> {
    match probe_from(store, prefix, d, bound, 0) {
        Some(n) => store.insert(target_name(prefix, d, n), Seq::empty()),
        None => store,
    }
}

/// With the files `prefix.DATE`, `prefix.DATE.1`, ..., `prefix.DATE.(n-1)`
/// present and `prefix.DATE.n` absent, strict creation picks `prefix.DATE.n`
/// (as long as `n` is within the bound), and every file that existed before
/// keeps its contents.
pub proof fn lemma_strict_create_picks_next_free(
    store: Map<Seq<char>, Seq<u8>>,
    prefix: Seq<char>,
    d: CalendarDate,
    bound: nat,
    n: nat,
)
    requires
        n < bound <= u32::MAX,
        forall|i: nat| i < n ==> store.dom().contains(#[trigger] target_name(prefix, d, i)),
        !store.dom().contains(target_name(prefix, d, n)),
    ensures
        probe_from(store, prefix, d, bound, 0) == Some(n),
        store_after_create(store, prefix, d, bound) == store.insert(
            target_name(prefix, d, n),
            Seq::empty(),
        ),
        forall|name: Seq<char>| #[trigger]
            store.dom().contains(name) ==> store_after_create(store, prefix, d, bound)[name]
                == store[name],
{
    lemma_probe_from_rest(store, prefix, d, bound, n, 0);
}

proof fn lemma_probe_from_rest(
    store: Map<Seq<char>, Seq<u8>>,
    prefix: Seq<char>,
    d: CalendarDate,
    bound: nat,
    n: nat,
    k: nat,
)
    requires
        k <= n < bound <= u32::MAX,
        forall|i: nat| i < n ==> store.dom().contains(#[trigger] target_name(prefix, d, i)),
        !store.dom().contains(target_name(prefix, d, n)),
    ensures
        probe_from(store, prefix, d, bound, k) == Some(n),
    decreases n - k,
{
    if k < n {
        assert(store.dom().contains(target_name(prefix, d, k)));
        lemma_probe_from_rest(store, prefix, d, bound, n, k + 1);
    }
}

} // verus!
