//! The watchdog of a connection attempt: it fires where the attempt takes too long.
use vstd::prelude::*;

verus! {

/// How long the watchdog waits for a message at a time, in milliseconds.
pub const TICK_MS: u32 = 200;

/// A message to the watchdog.
#[derive(Debug, Clone, Copy, PartialEq, Eq, Structural)]
pub enum WatchdogMsg {
    /// An attempt starts.
    Arm,
    /// The attempt is over.
    Done,
    /// The watchdog is no longer needed.
    Quit,
}

/// What the watchdog does.
#[derive(Debug, Clone, Copy, PartialEq, Eq, Structural)]
pub enum WatchdogState {
    /// It waits for an attempt.
    Waiting,
    /// It counts: so many milliseconds have passed.
    Counting(u32),
    /// It is gone.
    Gone,
}

/// What comes to the watchdog: a message, or one tick without a message. A tick comes only while
/// it counts.
#[derive(Debug, Clone, Copy, PartialEq, Eq, Structural)]
pub enum WatchdogEvent {
    Message(WatchdogMsg),
    Tick,
    /// Nobody is left who could send a message.
    Closed,
}

/// A count that starts. It is over at once where no time is allowed.
pub open spec fn started(timeout_ms: u32) -> (WatchdogState, bool) {
    if timeout_ms == 0 {
        (WatchdogState::Waiting, true)
    } else {
        (WatchdogState::Counting(0), false)
    }
}

/// What the watchdog does next, and whether it fires.
pub open spec fn next(state: WatchdogState, event: WatchdogEvent, timeout_ms: u32) -> (
    WatchdogState,
    bool,
) {
    match (state, event) {
        (WatchdogState::Gone, _) => (WatchdogState::Gone, false),
        (_, WatchdogEvent::Closed) => (WatchdogState::Gone, false),
        (_, WatchdogEvent::Message(WatchdogMsg::Quit)) => (WatchdogState::Gone, false),
        (_, WatchdogEvent::Message(WatchdogMsg::Done)) => (WatchdogState::Waiting, false),
        (_, WatchdogEvent::Message(WatchdogMsg::Arm)) => started(timeout_ms),
        (WatchdogState::Waiting, WatchdogEvent::Tick) => (WatchdogState::Waiting, false),
        (WatchdogState::Counting(elapsed), WatchdogEvent::Tick) => if elapsed + TICK_MS
            >= timeout_ms {
            (WatchdogState::Waiting, true)
        } else {
            (WatchdogState::Counting((elapsed + TICK_MS) as u32), false)
        },
    }
}

/// What the watchdog does next, and whether it fires.
pub fn watchdog_step(state: WatchdogState, event: WatchdogEvent, timeout_ms: u32) -> (r: (
    WatchdogState,
    bool,
))
    ensures
        r == next(state, event, timeout_ms),
{
    match (state, event) {
        (WatchdogState::Gone, _) => (WatchdogState::Gone, false),
        (_, WatchdogEvent::Closed) => (WatchdogState::Gone, false),
        (_, WatchdogEvent::Message(WatchdogMsg::Quit)) => (WatchdogState::Gone, false),
        (_, WatchdogEvent::Message(WatchdogMsg::Done)) => (WatchdogState::Waiting, false),
        (_, WatchdogEvent::Message(WatchdogMsg::Arm)) => if timeout_ms == 0 {
            (WatchdogState::Waiting, true)
        } else {
            (WatchdogState::Counting(0), false)
        },
        (WatchdogState::Waiting, WatchdogEvent::Tick) => (WatchdogState::Waiting, false),
        (WatchdogState::Counting(elapsed), WatchdogEvent::Tick) => if timeout_ms <= TICK_MS
            || elapsed >= timeout_ms - TICK_MS {
            (WatchdogState::Waiting, true)
        } else {
            (WatchdogState::Counting(elapsed + TICK_MS), false)
        },
    }
}

/// The watchdog after some ticks, and whether it has fired.
pub open spec fn after_ticks(state: WatchdogState, n: nat, timeout_ms: u32) -> (
    WatchdogState,
    bool,
)
    decreases n,
{
    if n == 0 {
        (state, false)
    } else {
        let before = after_ticks(state, (n - 1) as nat, timeout_ms);
        let step = next(before.0, WatchdogEvent::Tick, timeout_ms);
        (step.0, before.1 || step.1)
    }
}

/// How many ticks a time takes.
pub open spec fn ticks(timeout_ms: u32) -> nat {
    ((timeout_ms + TICK_MS - 1) / TICK_MS as int) as nat
}

/// An attempt that gets no answer is broken off when its time is over, and not before: after as
/// many ticks as the time takes.
pub proof fn lemma_watchdog_fires_in_time(timeout_ms: u32, n: nat)
    requires
        timeout_ms > 0,
    ensures
        started(timeout_ms) == (WatchdogState::Counting(0), false),
        after_ticks(WatchdogState::Counting(0), n, timeout_ms).1 <==> n >= ticks(timeout_ms),
{
    lemma_counts(timeout_ms, n);
}

proof fn lemma_counts(timeout_ms: u32, n: nat)
    requires
        timeout_ms > 0,
    ensures
        n < ticks(timeout_ms) ==> n * 200 < timeout_ms && after_ticks(
            WatchdogState::Counting(0),
            n,
            timeout_ms,
        ) == (WatchdogState::Counting((n * 200) as u32), false),
        n >= ticks(timeout_ms) ==> after_ticks(WatchdogState::Counting(0), n, timeout_ms) == (
            WatchdogState::Waiting,
            true,
        ),
    decreases n,
{
    if n > 0 {
        lemma_counts(timeout_ms, (n - 1) as nat);
    }
}

/// An attempt that is over in time is not broken off, and the watchdog is ready for the next.
pub proof fn lemma_finished_attempt_is_left_alone(timeout_ms: u32, n: nat)
    requires
        n < ticks(timeout_ms),
    ensures
        !after_ticks(WatchdogState::Counting(0), n, timeout_ms).1,
        next(
            after_ticks(WatchdogState::Counting(0), n, timeout_ms).0,
            WatchdogEvent::Message(WatchdogMsg::Done),
            timeout_ms,
        ) == (WatchdogState::Waiting, false),
{
    lemma_counts(timeout_ms, n);
}

} // verus!
