//! Whether the peer is still there.

use vstd::prelude::*;

use crate::time::{Duration, Instant};

verus! {

/// Tracks whether the peer is still there.
///
/// Deliberately separates "when did we last hear from them" from "when did
/// we last speak", so our own outbound heartbeats can never make a silent
/// peer look alive. That distinction is what detects a half-open socket.
#[derive(Debug)]
pub struct Liveness {
    interval: Duration,
    timeout: Duration,
    last_inbound: Instant,
    last_outbound: Instant,
}

/// What a [`Liveness`] goes by, in nanoseconds.
#[verifier::ext_equal]
pub struct LivenessState {
    pub interval: nat,
    pub timeout: nat,
    pub last_inbound: nat,
    pub last_outbound: nat,
}

impl LivenessState {
    /// How long after `then` it is at `now`.
    pub open spec fn elapsed(then: nat, now: nat) -> nat {
        if now >= then {
            (now - then) as nat
        } else {
            0
        }
    }

    /// The peer is dead once nothing was heard for longer than the
    /// timeout.
    pub open spec fn dead(self, now: nat) -> bool {
        Self::elapsed(self.last_inbound, now) > self.timeout
    }

    /// A heartbeat is due once the interval has passed since the last one.
    pub open spec fn heartbeat_due(self, now: nat) -> bool {
        Self::elapsed(self.last_outbound, now) >= self.interval
    }

    /// Something was heard.
    pub open spec fn heard(self, now: nat) -> LivenessState {
        LivenessState { last_inbound: now, ..self }
    }

    /// A heartbeat was sent.
    pub open spec fn spoke(self, now: nat) -> LivenessState {
        LivenessState { last_outbound: now, ..self }
    }
}

impl View for Liveness {
    type V = LivenessState;

    closed spec fn view(&self) -> LivenessState {
        LivenessState {
            interval: self.interval@,
            timeout: self.timeout@,
            last_inbound: self.last_inbound@,
            last_outbound: self.last_outbound@,
        }
    }
}

impl Liveness {
    /// `now` seeds both clocks, so a freshly opened connection is neither
    /// considered dead nor immediately due for a heartbeat.
    pub fn new(now: Instant, interval: Duration, timeout: Duration) -> (r: Liveness)
        ensures
            r@ == (LivenessState {
                interval: interval@,
                timeout: timeout@,
                last_inbound: now@,
                last_outbound: now@,
            }),
    {
        Liveness { interval, timeout, last_inbound: now, last_outbound: now }
    }

    /// Call whenever anything is received from the peer.
    pub fn record_activity(&mut self, now: Instant)
        ensures
            final(self)@ == old(self)@.heard(now@),
    {
        self.last_inbound = now;
    }

    pub fn record_heartbeat_sent(&mut self, now: Instant)
        ensures
            final(self)@ == old(self)@.spoke(now@),
    {
        self.last_outbound = now;
    }

    pub fn should_send_heartbeat(&self, now: Instant) -> (r: bool)
        ensures
            r == self@.heartbeat_due(now@),
    {
        !now.saturating_duration_since(self.last_outbound).shorter_than(&self.interval)
    }

    pub fn is_dead(&self, now: Instant) -> (r: bool)
        ensures
            r == self@.dead(now@),
    {
        self.timeout.shorter_than(&now.saturating_duration_since(self.last_inbound))
    }
}

/// Sending heartbeats never makes a silent peer look alive.
pub proof fn law_speaking_does_not_mask_silence(state: LivenessState, sent: nat, now: nat)
    ensures
        state.spoke(sent).dead(now) == state.dead(now),
{
}

/// Hearing something makes the peer alive for the whole timeout that
/// follows, and for no longer.
pub proof fn law_hearing_keeps_alive_for_the_timeout(state: LivenessState, heard: nat, now: nat)
    requires
        heard <= now,
    ensures
        state.heard(heard).dead(now) <==> now > heard + state.timeout,
{
}

/// A heartbeat is due once the interval has passed since the last one, and
/// not before, whatever was heard meanwhile.
pub proof fn law_a_heartbeat_is_due_after_the_interval(state: LivenessState, sent: nat, heard: nat, now: nat)
    requires
        sent <= now,
    ensures
        state.spoke(sent).heartbeat_due(now) <==> now >= sent + state.interval,
        state.heard(heard).heartbeat_due(now) == state.heartbeat_due(now),
        state.spoke(sent).interval == state.interval,
        state.spoke(sent).timeout == state.timeout,
        state.spoke(sent).last_inbound == state.last_inbound,
        state.heard(heard).interval == state.interval,
        state.heard(heard).timeout == state.timeout,
        state.heard(heard).last_outbound == state.last_outbound,
{
}

/// A clock that was set back neither makes a peer dead nor a heartbeat due.
pub proof fn law_a_clock_set_back_changes_nothing(state: LivenessState, now: nat)
    ensures
        now <= state.last_inbound ==> !state.dead(now),
        now < state.last_outbound && state.interval > 0 ==> !state.heartbeat_due(now),
{
}

} // verus!
