//! Health checks: a hung main loop restarts the device, and new firmware is confirmed once it
//! has proven itself.
//!
//! The main loop feeds a heartbeat. A monitor restarts the device when the heartbeat has been
//! silent for too long, unless hang detection is paused while firmware is being flashed. Firmware
//! that has been running with a live heartbeat for long enough is marked valid; otherwise the
//! bootloader goes back to the previous image.
use crate::text;
use vstd::prelude::*;
use vstd::string::*;

verus! {

/// How long the heartbeat may be silent, in seconds.
pub const HANG_TIMEOUT: u32 = 60;

/// How often the monitor looks, in seconds.
pub const MONITOR_INTERVAL: u32 = 5;

/// The uptime after which new firmware is marked valid, in seconds.
pub const CONFIRM_AFTER: u32 = 30;

/// What the health checks know.
#[derive(Debug, Clone, Copy, PartialEq, Eq, Structural)]
pub struct HealthState {
    /// The uptime at the last heartbeat, in seconds.
    pub last_feed_secs: u32,
    /// Whether hang detection is paused.
    pub paused: bool,
    /// Whether the running firmware was marked valid.
    pub confirmed: bool,
}

/// The time from one uptime to another, 0 where that is negative.
pub open spec fn silence(last: u32, now: u32) -> u32 {
    if now >= last {
        (now - last) as u32
    } else {
        0
    }
}

impl HealthState {
    /// How long the heartbeat has been silent.
    pub open spec fn silent_for(self, now: u32) -> u32 {
        silence(self.last_feed_secs, now)
    }

    /// Whether the main loop has hung.
    pub open spec fn hung(self, now: u32) -> bool {
        !self.paused && self.silent_for(now) > HANG_TIMEOUT
    }

    /// Whether the running firmware has just proven itself.
    pub open spec fn proven(self, uptime: u32) -> bool {
        !self.confirmed && uptime >= CONFIRM_AFTER && self.silent_for(uptime) <= HANG_TIMEOUT
    }

    /// The state at boot.
    pub fn new() -> (r: Self)
        ensures
            r == (HealthState { last_feed_secs: 0, paused: false, confirmed: false }),
    {
        HealthState { last_feed_secs: 0, paused: false, confirmed: false }
    }
}

/// Takes a heartbeat at the uptime `now`.
pub fn feed(state: &mut HealthState, now: u32)
    ensures
        *final(state) == (HealthState { last_feed_secs: now, ..*old(state) }),
{
    state.last_feed_secs = now;
}

/// How long the heartbeat has been silent, in seconds.
pub fn stale_for(state: &HealthState, now: u32) -> (r: u32)
    ensures
        r == state.silent_for(now),
{
    if now >= state.last_feed_secs {
        now - state.last_feed_secs
    } else {
        0
    }
}

/// Pauses hang detection. Flashing stalls the main loop for good reason.
pub fn pause_hang_monitor(state: &mut HealthState)
    ensures
        *final(state) == (HealthState { paused: true, ..*old(state) }),
{
    state.paused = true;
}

/// Resumes hang detection.
pub fn resume_hang_monitor(state: &mut HealthState)
    ensures
        *final(state) == (HealthState { paused: false, ..*old(state) }),
{
    state.paused = false;
}

/// Whether hang detection is paused.
pub fn hang_monitor_paused(state: &HealthState) -> (r: bool)
    ensures
        r == state.paused,
{
    state.paused
}

/// The log entry of a hang.
pub open spec fn hang_line(seconds: u32) -> Seq<char> {
    "health: main loop stalled for "@ + text::decimal(seconds as nat) + "s, restarting"@
}

/// What the monitor does when it looks: where the main loop has hung it restarts the device,
/// logging this entry first.
pub fn check_for_hang(state: &HealthState, now: u32) -> (r: Option<String>)
    ensures
        r is Some <==> state.hung(now),
        r matches Some(line) ==> line@ == hang_line(state.silent_for(now)),
{
    let silent: u32 = stale_for(state, now);
    if state.paused || silent <= HANG_TIMEOUT {
        return None;
    }
    let mut line = String::new();
    line.append("health: main loop stalled for ");
    text::push_decimal(&mut line, silent as u128);
    line.append("s, restarting");
    assert(line@ =~= hang_line(silent));
    Some(line)
}

/// Whether the running firmware is to be marked valid now. It says so once.
pub fn confirm_running_slot_valid(state: &mut HealthState, uptime: u32) -> (r: bool)
    ensures
        r == old(state).proven(uptime),
        *final(state) == (HealthState {
            confirmed: old(state).confirmed || old(state).proven(uptime),
            ..*old(state)
        }),
{
    if state.confirmed {
        return false;
    }
    if uptime < CONFIRM_AFTER {
        return false;
    }
    if stale_for(state, uptime) > HANG_TIMEOUT {
        return false;
    }
    state.confirmed = true;
    true
}

/// A main loop that feeds the heartbeat at least once a minute is never restarted.
pub proof fn lemma_live_loop_is_left_alone(state: HealthState, fed: u32, now: u32)
    requires
        state.last_feed_secs == fed,
        now <= fed + HANG_TIMEOUT,
    ensures
        !state.hung(now),
{
}

/// Firmware is marked valid at most once, and never in its first 30 seconds.
pub proof fn lemma_confirmed_once(state: HealthState, uptime: u32, later: u32)
    requires
        state.proven(uptime),
    ensures
        uptime >= CONFIRM_AFTER,
        !(HealthState { confirmed: true, ..state }).proven(later),
{
}

/// The device is restarted exactly where the last heartbeat is more than 60 seconds ago and
/// nothing has paused the monitor.
pub proof fn lemma_silence_is_a_hang(state: HealthState, now: u32)
    ensures
        state.hung(now) <==> !state.paused && now > state.last_feed_secs + 60,
        now >= state.last_feed_secs ==> state.silent_for(now) == now - state.last_feed_secs,
        now < state.last_feed_secs ==> state.silent_for(now) == 0,
{
}

/// Firmware that was not marked valid yet is so from 30 seconds on, where the last heartbeat is
/// not more than 60 seconds ago.
pub proof fn lemma_when_firmware_is_proven(state: HealthState, uptime: u32)
    ensures
        state.proven(uptime) <==> !state.confirmed && uptime >= 30 && uptime
            <= state.last_feed_secs + 60,
{
}

} // verus!
