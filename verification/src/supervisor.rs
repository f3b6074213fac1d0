//! The client's connection: what to do with what arrives, when to give a
//! link up, and how long to wait before the next attempt.
//!
//! The sockets, the clock and the sleeping are the caller's. It hands in
//! what happened and does what comes back.

use vstd::prelude::*;

use crate::backoff::{Backoff, BackoffState};
use crate::crypto::SharedKey;
use crate::device::{DeviceError, Injector, InputEvent};
use crate::held::HeldKeys;
use crate::keys::Usage;
use crate::liveness::{Liveness, LivenessState};
use crate::message::{Message, MessageModel};
use crate::session::{message_to_event, release_held};
use crate::time::{Duration, Instant};

verus! {

/// Inject a key-up for every key this client currently believes is held,
/// and forget them.
///
/// The server cannot deliver a release to a peer it can no longer reach,
/// so on a genuine disconnect the client must release its own keys itself.
/// Without this, a modifier the user pressed just before the link died
/// stays physically down on the far machine forever.
pub fn release_everything<I: Injector>(injector: &mut I, held: &mut HeldKeys)
    ensures
        crate::session::released(old(injector).handed(), old(held)@, final(injector).handed()),
        final(injector).answers() == old(injector).answers(),
        final(held)@ == Set::<Usage>::empty(),
{
    release_held(injector, held)
}

/// The delay before the first retry, in milliseconds.
pub const INITIAL_DELAY_MILLIS: u64 = 100;
/// The longest delay between two attempts, in seconds.
pub const MAX_DELAY_SECS: u64 = 5;

/// Exponential backoff for reconnect attempts that never gives up.
///
/// "How long to wait" can be read independently of "record that an attempt
/// failed", which makes the two separate, ordered steps.
#[derive(Debug)]
pub struct ReconnectPolicy {
    backoff: Backoff,
    current: Duration,
}

/// What a [`ReconnectPolicy`] goes by.
#[verifier::ext_equal]
pub struct PolicyState {
    pub backoff: BackoffState,
    pub delay: nat,
}

impl PolicyState {
    /// Nothing has failed yet.
    pub open spec fn fresh() -> PolicyState {
        PolicyState {
            backoff: BackoffState {
                initial: (INITIAL_DELAY_MILLIS * 1_000_000) as nat,
                max: (MAX_DELAY_SECS * 1_000_000_000) as nat,
                current: None,
            },
            delay: (INITIAL_DELAY_MILLIS * 1_000_000) as nat,
        }
    }

    /// An attempt failed.
    pub open spec fn failed(self) -> PolicyState {
        PolicyState { backoff: self.backoff.advanced(), delay: self.backoff.next() }
    }

    /// A connection was confirmed.
    pub open spec fn connected(self) -> PolicyState {
        PolicyState {
            backoff: BackoffState { current: None, ..self.backoff },
            delay: (INITIAL_DELAY_MILLIS * 1_000_000) as nat,
        }
    }

    /// `n` attempts failed in a row.
    pub open spec fn failed_times(self, n: nat) -> PolicyState
        decreases n,
    {
        if n == 0 {
            self
        } else {
            self.failed_times((n - 1) as nat).failed()
        }
    }
}

impl View for ReconnectPolicy {
    type V = PolicyState;

    closed spec fn view(&self) -> PolicyState {
        PolicyState { backoff: self.backoff@, delay: self.current@ }
    }
}

impl Default for ReconnectPolicy {
    fn default() -> (r: ReconnectPolicy)
        ensures
            r@ == PolicyState::fresh(),
    {
        Self::new()
    }
}

impl ReconnectPolicy {
    pub fn new() -> (r: ReconnectPolicy)
        ensures
            r@ == PolicyState::fresh(),
    {
        let initial: Duration = Duration::from_millis(INITIAL_DELAY_MILLIS);
        let max: Duration = Duration::from_secs(MAX_DELAY_SECS);
        ReconnectPolicy { backoff: Backoff::new(initial, max), current: initial }
    }

    /// The delay to wait before (re)trying, given everything recorded so
    /// far.
    pub fn delay(&self) -> (r: Duration)
        ensures
            r@ == self@.delay,
    {
        self.current
    }

    /// Record a failed attempt, advancing the delay for the next one.
    pub fn failed(&mut self)
        ensures
            final(self)@ == old(self)@.failed(),
    {
        self.current = self.backoff.next_delay();
    }

    /// Record a successful connection, so a brief blip does not inherit a
    /// long delay from an earlier outage.
    pub fn connected(&mut self)
        ensures
            final(self)@ == old(self)@.connected(),
    {
        self.backoff.reset();
        self.current = Duration::from_millis(INITIAL_DELAY_MILLIS);
    }
}

/// However often connecting fails, there is a next attempt after at most
/// the longest delay, and never before the initial one.
pub proof fn law_the_policy_never_gives_up(n: nat)
    ensures
        INITIAL_DELAY_MILLIS * 1_000_000 <= PolicyState::fresh().failed_times(n).delay
            <= MAX_DELAY_SECS * 1_000_000_000,
        PolicyState::fresh().failed_times(n).backoff == PolicyState::fresh().backoff.after(n),
    decreases n,
{
    if n > 0 {
        law_the_policy_never_gives_up((n - 1) as nat);
        crate::backoff::law_delays_double_up_to_the_limit(
            PolicyState::fresh().backoff,
            (n - 1) as nat,
        );
    }
}

/// After a confirmed connection the first retry comes as fast as ever,
/// whatever outage came before.
pub proof fn law_a_connection_resets_the_delay(n: nat)
    ensures
        PolicyState::fresh().failed_times(n).connected() == PolicyState::fresh(),
    decreases n,
{
    if n > 0 {
        law_a_connection_resets_the_delay((n - 1) as nat);
    }
}

/// What is sent back after an event was injected: a request to take focus
/// back, if the event was a motion that the platform took and that put the
/// cursor on the return edge.
pub open spec fn edge_answer(event: InputEvent, taken: bool, reached: Option<u32>) -> Option<MessageModel> {
    match reached {
        Some(along) => if taken && event is Mouse {
            Some(MessageModel::Release { along })
        } else {
            None
        },
        None => None,
    }
}

/// What is sent back after an event was injected.
pub fn edge_reply(event: &InputEvent, taken: bool, reached: Option<u32>) -> (r: Option<Message>)
    ensures
        crate::session::model_of(r) == edge_answer(*event, taken, reached),
{
    let motion: bool = match event {
        InputEvent::Mouse { .. } => true,
        _ => false,
    };
    match reached {
        Some(along) => {
            if taken && motion {
                Some(Message::Release { along })
            } else {
                None
            }
        },
        None => None,
    }
}

/// Whether focus goes back as it should: a place on the return edge that is
/// answered after a motion is sent on as a request to take focus back, and
/// nothing else is.
pub open spec fn returns_focus(
    m: MessageModel,
    before: Seq<u32>,
    after: Seq<u32>,
    reply: Option<MessageModel>,
) -> bool {
    match reply {
        Some(sent) => m is MouseMove && (sent matches MessageModel::Release { along } && after == before.push(along)),
        None => after == before,
    }
}

/// Apply one already received message: update `held`, inject the
/// corresponding event, and, for a motion event that lands the cursor on
/// the return edge, ask the server to take focus back.
///
/// The injector decides whether it takes an event and where the edge was
/// reached. A motion is handed to it once; if it takes it, it is asked about
/// the edge once, and [`edge_answer`] says what that answer makes of the
/// reply. After any other message it is not asked, and there is no reply.
pub fn apply_message<I: Injector>(message: &Message, injector: &mut I, held: &mut HeldKeys) -> (r: Option<Message>)
    ensures
        final(held)@ == crate::session::held_after(old(held)@, message@),
        crate::session::handed_for(
            old(injector).handed(),
            old(held)@,
            message@,
            final(injector).handed(),
        ),
        returns_focus(message@, old(injector).answers(), final(injector).answers(), crate::session::model_of(r)),
        match crate::session::message_event(message@) {
            None => message@ !is ReleaseAllKeys ==> *final(injector) == *old(injector),
            Some(event) => exists|given: &mut I, e: &InputEvent, taken: Result<(), DeviceError>|
                {
                    &&& #[trigger] call_ensures(I::inject, (given, e), taken)
                    &&& *given == *old(injector)
                    &&& *e == event
                    &&& if taken is Ok && event is Mouse {
                        exists|asked: &mut I, reached: Option<u32>|
                            {
                                &&& #[trigger] call_ensures(I::reached_return_edge, (asked,), reached)
                                &&& *asked == *final(given)
                                &&& *final(injector) == *final(asked)
                                &&& crate::session::model_of(r) == edge_answer(event, true, reached)
                            }
                    } else {
                        *final(injector) == *final(given) && r is None
                    }
                },
        },
{
    match message {
        Message::ReleaseAllKeys => {
            release_held(injector, held);
            None
        },
        Message::Key { usage, pressed } => {
            held.record(*usage, *pressed);
            let event = InputEvent::Key { usage: *usage, pressed: *pressed };
            let _ = injector.inject(&event);
            None
        },
        other => match message_to_event(other) {
            None => None,
            Some(event) => {
                let taken: bool = injector.inject(&event).is_ok();
                let motion: bool = match event {
                    InputEvent::Mouse { .. } => true,
                    _ => false,
                };
                // Asked only after a motion that the platform took: nothing
                // else can move the real cursor onto the edge.
                let reached: Option<u32> = if taken && motion {
                    injector.reached_return_edge()
                } else {
                    None
                };
                edge_reply(&event, taken, reached)
            },
        },
    }
}

/// Where to connect, who to present as, and how patient to be.
pub struct ClientSupervisor {
    addr: String,
    key: SharedKey,
    peer_id: String,
    heartbeat_interval: Duration,
    death_timeout: Duration,
}

/// What a [`ClientSupervisor`] goes by.
#[verifier::ext_equal]
pub struct SupervisorState {
    pub addr: Seq<char>,
    pub key: Seq<u8>,
    pub peer_id: Seq<char>,
    pub heartbeat_interval: nat,
    pub death_timeout: nat,
}

impl View for ClientSupervisor {
    type V = SupervisorState;

    closed spec fn view(&self) -> SupervisorState {
        SupervisorState {
            addr: self.addr@,
            key: self.key@,
            peer_id: self.peer_id@,
            heartbeat_interval: self.heartbeat_interval@,
            death_timeout: self.death_timeout@,
        }
    }
}

impl ClientSupervisor {
    /// `addr` is the `host:port` to dial. `peer_id` is presented during the
    /// handshake. Heartbeats tick every second and the peer is declared
    /// dead after three seconds of inbound silence.
    pub fn new(addr: String, key: SharedKey, peer_id: String) -> (r: ClientSupervisor)
        ensures
            r@ == (SupervisorState {
                addr: addr@,
                key: key@,
                peer_id: peer_id@,
                heartbeat_interval: 1_000_000_000,
                death_timeout: 3_000_000_000,
            }),
    {
        ClientSupervisor {
            addr,
            key,
            peer_id,
            heartbeat_interval: Duration::from_secs(1),
            death_timeout: Duration::from_secs(3),
        }
    }

    /// Override the heartbeat cadence and death timeout.
    pub fn with_liveness(self, heartbeat_interval: Duration, death_timeout: Duration) -> (r: ClientSupervisor)
        ensures
            r@ == (SupervisorState {
                heartbeat_interval: heartbeat_interval@,
                death_timeout: death_timeout@,
                ..self@
            }),
    {
        ClientSupervisor {
            addr: self.addr,
            key: self.key,
            peer_id: self.peer_id,
            heartbeat_interval,
            death_timeout,
        }
    }

    /// The `host:port` to dial.
    pub fn addr(&self) -> (r: &str)
        ensures
            r@ == self@.addr,
    {
        self.addr.as_str()
    }

    /// The shared key.
    pub fn key(&self) -> (r: &SharedKey)
        ensures
            r@ == self@.key,
    {
        &self.key
    }

    /// The id to present.
    pub fn peer_id(&self) -> (r: &str)
        ensures
            r@ == self@.peer_id,
    {
        self.peer_id.as_str()
    }

    /// How often to speak.
    pub fn heartbeat_interval(&self) -> (r: Duration)
        ensures
            r@ == self@.heartbeat_interval,
    {
        self.heartbeat_interval
    }

    /// A connection whose handshake has just completed.
    pub fn connection(&self, now: Instant) -> (r: ClientConnection)
        ensures
            r@ == (ClientState {
                liveness: LivenessState {
                    interval: self@.heartbeat_interval,
                    timeout: self@.death_timeout,
                    last_inbound: now@,
                    last_outbound: now@,
                },
                confirmed: false,
            }),
    {
        ClientConnection {
            liveness: Liveness::new(now, self.heartbeat_interval, self.death_timeout),
            confirmed: false,
        }
    }
}

/// One connection to the server, from the handshake to its end.
///
/// The handshake alone does not prove that the peer holds the key for this
/// session: a recorded handshake can be replayed into a new connection. So
/// a connection is not confirmed, and the backoff is not reset, until a
/// frame authenticates under the derived session.
#[derive(Debug)]
pub struct ClientConnection {
    liveness: Liveness,
    confirmed: bool,
}

/// What a [`ClientConnection`] goes by.
#[verifier::ext_equal]
pub struct ClientState {
    pub liveness: LivenessState,
    pub confirmed: bool,
}

impl View for ClientConnection {
    type V = ClientState;

    closed spec fn view(&self) -> ClientState {
        ClientState { liveness: self.liveness@, confirmed: self.confirmed }
    }
}

/// Something that happened on a connection.
#[derive(Debug)]
pub enum ClientEvent {
    /// A frame arrived and authenticated.
    Received(Message),
    /// The transport failed, or nobody reads from it any more.
    Lost,
    /// The heartbeat interval has passed once more.
    Tick,
    /// A heartbeat went out.
    HeartbeatSent,
}

/// What to do next on a connection.
#[derive(Debug, PartialEq)]
pub enum ClientAction {
    Continue,
    /// Send this; if that fails, give the connection up.
    Send(Message),
    /// Give the connection up: both halves of it, together.
    Disconnect,
}

/// What an event on a connection calls for.
#[derive(Debug, PartialEq)]
pub struct ClientStep {
    pub action: ClientAction,
    /// This was the frame that confirmed the connection.
    pub connected: bool,
}

/// The state of a connection and the reconnect policy once something
/// happened.
pub open spec fn client_next(
    state: ClientState,
    policy: PolicyState,
    event: ClientEvent,
    now: nat,
) -> (ClientState, PolicyState) {
    match event {
        ClientEvent::Received(_) => (
            ClientState { liveness: state.liveness.heard(now), confirmed: true },
            if state.confirmed {
                policy
            } else {
                policy.connected()
            },
        ),
        ClientEvent::HeartbeatSent => (
            ClientState { liveness: state.liveness.spoke(now), ..state },
            policy,
        ),
        _ => (state, policy),
    }
}

/// What an action sends.
pub open spec fn sent_by(action: ClientAction) -> Option<MessageModel> {
    match action {
        ClientAction::Send(message) => Some(message@),
        _ => None,
    }
}

impl ClientConnection {
    /// Takes one event and says what to do.
    pub fn step<I: Injector>(
        &mut self,
        event: ClientEvent,
        now: Instant,
        injector: &mut I,
        held: &mut HeldKeys,
        policy: &mut ReconnectPolicy,
    ) -> (r: ClientStep)
        ensures
            r.connected == (event is Received && !old(self)@.confirmed),
            (final(self)@, final(policy)@) == client_next(old(self)@, old(policy)@, event, now@),
            match event {
                ClientEvent::Received(message) => {
                    &&& final(held)@ == crate::session::held_after(old(held)@, message@)
                    &&& crate::session::handed_for(
                        old(injector).handed(),
                        old(held)@,
                        message@,
                        final(injector).handed(),
                    )
                    &&& returns_focus(
                        message@,
                        old(injector).answers(),
                        final(injector).answers(),
                        sent_by(r.action),
                    )
                    &&& r.action !is Disconnect
                    &&& match crate::session::message_event(message@) {
                        None => message@ !is ReleaseAllKeys ==> *final(injector) == *old(injector),
                        Some(happened) => exists|given: &mut I, e: &InputEvent, taken: Result<(), DeviceError>|
                            {
                                &&& #[trigger] call_ensures(I::inject, (given, e), taken)
                                &&& *given == *old(injector)
                                &&& *e == happened
                                &&& if taken is Ok && happened is Mouse {
                                    exists|asked: &mut I, reached: Option<u32>|
                                        {
                                            &&& #[trigger] call_ensures(I::reached_return_edge, (asked,), reached)
                                            &&& *asked == *final(given)
                                            &&& *final(injector) == *final(asked)
                                            &&& sent_by(r.action) == edge_answer(happened, true, reached)
                                        }
                                } else {
                                    *final(injector) == *final(given) && r.action is Continue
                                }
                            },
                    }
                },
                ClientEvent::Lost => r.action is Disconnect && final(held)@ == old(held)@ && *final(injector) == *old(injector),
                ClientEvent::Tick => {
                    &&& old(self)@.liveness.dead(now@) ==> r.action is Disconnect
                    &&& !old(self)@.liveness.dead(now@) ==> (r.action matches ClientAction::Send(message)
                        && message@ is Heartbeat)
                    &&& final(held)@ == old(held)@
                    &&& *final(injector) == *old(injector)
                },
                ClientEvent::HeartbeatSent => r.action is Continue && final(held)@ == old(held)@ && *final(injector) == *old(injector),
            },
    {
        match event {
            ClientEvent::Received(message) => {
                self.liveness.record_activity(now);
                let connected: bool = !self.confirmed;
                if connected {
                    self.confirmed = true;
                    policy.connected();
                }
                let action = match apply_message(&message, injector, held) {
                    Some(reply) => ClientAction::Send(reply),
                    None => ClientAction::Continue,
                };
                ClientStep { action, connected }
            },
            ClientEvent::Lost => ClientStep { action: ClientAction::Disconnect, connected: false },
            ClientEvent::Tick => {
                let action = if self.liveness.is_dead(now) {
                    ClientAction::Disconnect
                } else {
                    ClientAction::Send(Message::Heartbeat)
                };
                ClientStep { action, connected: false }
            },
            ClientEvent::HeartbeatSent => {
                // Our own heartbeat is never evidence that the peer is
                // alive: it feeds a separate clock.
                self.liveness.record_heartbeat_sent(now);
                ClientStep { action: ClientAction::Continue, connected: false }
            },
        }
    }
}

/// What is done whenever an attempt is over, however it ended: every key
/// held on this machine is released, the failure is recorded, and the
/// delay before the next attempt comes back.
pub fn attempt_over<I: Injector>(injector: &mut I, held: &mut HeldKeys, policy: &mut ReconnectPolicy) -> (r: Duration)
    ensures
        crate::session::released(old(injector).handed(), old(held)@, final(injector).handed()),
        final(injector).answers() == old(injector).answers(),
        final(held)@ == Set::<Usage>::empty(),
        final(policy)@ == old(policy)@.failed(),
        r@ == old(policy)@.failed().delay,
{
    release_everything(injector, held);
    policy.failed();
    policy.delay()
}

/// A peer that stays silent is given up: once nothing was heard for longer
/// than the timeout, the next tick ends the connection, however many
/// heartbeats went out in between.
pub proof fn law_a_silent_peer_is_given_up(state: ClientState, policy: PolicyState, sent: nat, now: nat)
    requires
        now > state.liveness.last_inbound + state.liveness.timeout,
    ensures
        client_next(state, policy, ClientEvent::HeartbeatSent, sent).0.liveness.dead(now),
{
}

/// The backoff is reset by the first authenticated frame of a connection
/// and by nothing else.
pub proof fn law_only_an_authenticated_frame_resets_the_backoff(
    state: ClientState,
    policy: PolicyState,
    event: ClientEvent,
    now: nat,
)
    requires
        client_next(state, policy, event, now).1 != policy,
    ensures
        event is Received,
        !state.confirmed,
        client_next(state, policy, event, now).1 == policy.connected(),
{
}

/// The first retry comes after a tenth of a second, and each delay after that
/// is twice the one before, up to five seconds.
pub proof fn law_retries_start_fast_and_slow_down(n: nat)
    ensures
        PolicyState::fresh().delay == 100_000_000,
        PolicyState::fresh().failed_times(1).delay == 100_000_000,
        ({
            let delay = PolicyState::fresh().failed_times(n + 1).delay;
            PolicyState::fresh().failed_times(n + 2).delay == if 2 * delay <= 5_000_000_000 {
                2 * delay
            } else {
                5_000_000_000
            }
        }),
{
    let fresh = PolicyState::fresh();
    reveal_with_fuel(PolicyState::failed_times, 2);
    assert(fresh.failed_times(1) == fresh.failed_times(0).failed());
    law_the_policy_never_gives_up(n);
    law_the_policy_never_gives_up(n + 1);
    assert(fresh.failed_times(n + 1) == fresh.failed_times(n).failed());
    assert(fresh.failed_times(n + 2) == fresh.failed_times(n + 1).failed());
    crate::backoff::law_delays_double_up_to_the_limit(fresh.backoff, n);
}

/// Focus goes back exactly after a motion that the platform took and that put
/// the cursor on the return edge, with the place where it got there.
pub proof fn law_only_a_motion_gives_focus_back(event: InputEvent, taken: bool, reached: Option<u32>)
    ensures
        match edge_answer(event, taken, reached) {
            Some(m) => event is Mouse && taken && (m matches MessageModel::Release { along } && reached == Some(along)),
            None => event !is Mouse || !taken || reached is None,
        },
{
}

/// What arrives shows that the server is there and confirms the connection;
/// the first time it does, the next retry will be as fast as ever. A
/// heartbeat that went out counts for when the next one is due, and for
/// nothing else. Nothing else that happens changes anything.
pub proof fn law_a_connection_goes_by_what_arrives(
    state: ClientState,
    policy: PolicyState,
    event: ClientEvent,
    now: nat,
    later: nat,
)
    requires
        now <= later,
    ensures
        ({
            let (after, next) = client_next(state, policy, event, now);
            match event {
                ClientEvent::Received(_) => {
                    &&& after.confirmed
                    &&& after.liveness.dead(later) <==> later > now + state.liveness.timeout
                    &&& after.liveness.heartbeat_due(later) == state.liveness.heartbeat_due(later)
                    &&& state.confirmed ==> next == policy
                    &&& !state.confirmed ==> next.delay == 100_000_000 && next.backoff.next() == policy.backoff.initial
                        && next.backoff.max == policy.backoff.max
                },
                ClientEvent::HeartbeatSent => {
                    &&& after.confirmed == state.confirmed
                    &&& after.liveness.dead(later) == state.liveness.dead(later)
                    &&& after.liveness.heartbeat_due(later) <==> later >= now + state.liveness.interval
                    &&& next == policy
                },
                _ => after == state && next == policy,
            }
        }),
{
}

} // verus!
