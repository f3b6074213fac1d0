//! The server's side of a connection: forwarding what is captured, and
//! taking focus back.
//!
//! The socket, the clock and the capture are the caller's. It hands in
//! what happened and does what comes back.

use vstd::prelude::*;

use crate::control::{Action, Control, ControlState, Focus};
use crate::device::InputEvent;
use crate::hotkey::{HotkeyWatcher, WatcherState};
use crate::keys::Usage;
use crate::liveness::{Liveness, LivenessState};
use crate::message::{Message, MessageModel};
use crate::remap::RemapTable;
use crate::session;
use crate::session::pump_events;
use crate::time::{Duration, Instant};

verus! {

/// How often to speak, in seconds.
pub const HEARTBEAT_SECS: u64 = 1;
/// After how many seconds of silence a client is given up.
pub const DEATH_TIMEOUT_SECS: u64 = 3;
/// How often captured input is collected, in milliseconds.
pub const POLL_MILLIS: u64 = 15;

/// One client connection whose handshake is complete.
pub struct ServerConnection {
    control: Control,
    watcher: HotkeyWatcher,
    liveness: Liveness,
    remap: RemapTable,
}

/// What a [`ServerConnection`] goes by.
#[verifier::ext_equal]
pub struct ServerState {
    pub control: ControlState,
    pub watcher: WatcherState,
    pub liveness: LivenessState,
    pub rules: Map<Usage, Usage>,
}

/// What a round is answered with.
#[derive(Debug)]
pub enum ServerAction {
    /// Send these, in order; if that fails, give the connection up.
    Send(Vec<Message>),
    /// Give the connection up.
    Disconnect,
}

/// What a message calls for.
#[derive(Debug, PartialEq)]
pub struct Reaction {
    /// Send this; if that fails, give the connection up.
    pub reply: Option<Message>,
    /// Focus comes home, and the cursor with it: where along this machine's
    /// edge, relative to the anchor, as the message carries it.
    pub home: Option<u32>,
}

/// What is sent when focus comes home.
pub open spec fn homecoming(state: ControlState) -> Seq<MessageModel> {
    if state.return_action() == Action::ReleaseAll {
        seq![MessageModel::ReleaseAllKeys]
    } else {
        Seq::empty()
    }
}

impl ServerState {
    pub open spec fn initial(rules: Map<Usage, Usage>, combo: Seq<Usage>, now: nat) -> ServerState {
        ServerState {
            control: ControlState::initial(),
            watcher: WatcherState::initial(combo),
            liveness: LivenessState {
                interval: (HEARTBEAT_SECS * 1_000_000_000) as nat,
                timeout: (DEATH_TIMEOUT_SECS * 1_000_000_000) as nat,
                last_inbound: now,
                last_outbound: now,
            },
            rules,
        }
    }

    /// A message arrived. A client that asks to hand focus back gets its
    /// way at once.
    pub open spec fn received(self, m: MessageModel, now: nat) -> ServerState {
        ServerState {
            control: if m is Release {
                ControlState::initial()
            } else {
                self.control
            },
            liveness: self.liveness.heard(now),
            ..self
        }
    }

    /// What a message is answered with.
    pub open spec fn answer(self, m: MessageModel) -> Seq<MessageModel> {
        if m is Release {
            homecoming(self.control)
        } else {
            Seq::empty()
        }
    }

    /// Where focus comes home with a message, if it does. A client that asks
    /// to hand back what it does not have brings nothing home.
    pub open spec fn home(self, m: MessageModel) -> Option<u32> {
        match m {
            MessageModel::Release { along } => if self.control.focus == Focus::Remote {
                Some(along)
            } else {
                None
            },
            _ => None,
        }
    }

    /// What was captured has been taken in.
    pub open spec fn collected(self, events: Seq<InputEvent>, entry: Option<u32>) -> ServerState {
        ServerState {
            control: session::pumped(self.control, self.rules, events, entry).0,
            watcher: self.watcher.observed_all(events),
            ..self
        }
    }

    /// A round of a live connection is over.
    pub open spec fn ticked(self, events: Seq<InputEvent>, entry: Option<u32>) -> ServerState {
        let after = self.collected(events, entry);
        ServerState {
            control: if after.watcher.triggered {
                ControlState::initial()
            } else {
                after.control
            },
            watcher: after.watcher.asked(),
            ..after
        }
    }

    /// What a round of a live connection sends: the captured input, then
    /// the release of all keys if the escape was pressed, then a heartbeat
    /// if one is due.
    pub open spec fn outgoing(self, events: Seq<InputEvent>, entry: Option<u32>, now: nat) -> Seq<MessageModel> {
        let after = self.collected(events, entry);
        session::pumped(self.control, self.rules, events, entry).1 + (if after.watcher.triggered {
            homecoming(after.control)
        } else {
            Seq::empty()
        }) + (if self.liveness.heartbeat_due(now) {
            seq![MessageModel::Heartbeat]
        } else {
            Seq::empty()
        })
    }
}

impl View for ServerConnection {
    type V = ServerState;

    closed spec fn view(&self) -> ServerState {
        ServerState {
            control: self.control@,
            watcher: self.watcher@,
            liveness: self.liveness@,
            rules: self.remap@,
        }
    }
}

impl ServerConnection {
    /// A connection whose handshake has just completed. `combo` is the
    /// escape that brings focus home.
    pub fn new(remap: RemapTable, combo: Vec<Usage>, now: Instant) -> (r: ServerConnection)
        ensures
            r@ == ServerState::initial(remap@, combo@, now@),
    {
        ServerConnection {
            control: Control::new(),
            watcher: HotkeyWatcher::new(combo),
            liveness: Liveness::new(
                now,
                Duration::from_secs(HEARTBEAT_SECS),
                Duration::from_secs(DEATH_TIMEOUT_SECS),
            ),
            remap,
        }
    }

    /// Whether input goes to the client, so that local input is to be
    /// suppressed.
    pub fn is_remote(&self) -> (r: bool)
        ensures
            r == (self@.control.focus == Focus::Remote),
    {
        self.control.focus() == Focus::Remote
    }

    /// Takes a message that arrived: what to send back, and where focus comes
    /// home, if it does.
    pub fn on_message(&mut self, message: &Message, now: Instant) -> (r: Reaction)
        ensures
            final(self)@ == old(self)@.received(message@, now@),
            match r.reply {
                Some(m) => old(self)@.answer(message@) == seq![m@],
                None => old(self)@.answer(message@) == Seq::<MessageModel>::empty(),
            },
            r.home == old(self)@.home(message@),
    {
        self.liveness.record_activity(now);
        let was_remote: bool = self.is_remote();
        match message {
            Message::Release { along } => {
                let reply: Option<Message> = match self.control.on_release_requested() {
                    Action::ReleaseAll => Some(Message::ReleaseAllKeys),
                    _ => None,
                };
                Reaction {
                    reply,
                    home: if was_remote {
                        Some(*along)
                    } else {
                        None
                    },
                }
            },
            _ => Reaction { reply: None, home: None },
        }
    }

    /// Takes everything captured since the last round: what to do. A
    /// client that was silent for too long is given up before anything
    /// else.
    pub fn on_tick(&mut self, events: &Vec<InputEvent>, entry: Option<u32>, now: Instant) -> (r: ServerAction)
        ensures
            old(self)@.liveness.dead(now@) ==> r is Disconnect && final(self)@ == old(self)@,
            !old(self)@.liveness.dead(now@) ==> {
                &&& r is Send
                &&& session::models(r->Send_0@) == old(self)@.outgoing(events@, entry, now@)
                &&& final(self)@ == old(self)@.ticked(events@, entry)
            },
    {
        if self.liveness.is_dead(now) {
            return ServerAction::Disconnect;
        }
        let ghost start = self@;
        let mut out: Vec<Message> = pump_events(&mut self.control, &self.remap, events, entry);
        let ghost sent = session::models(out@);
        let mut i: usize = 0;
        assert(events@.take(0) =~= Seq::<InputEvent>::empty());
        while i < events.len()
            invariant
                i <= events@.len(),
                self.watcher@ == start.watcher.observed_all(events@.take(i as int)),
                self.control@ == start.collected(events@, entry).control,
                self.liveness@ == start.liveness,
                self.remap@ == start.rules,
            decreases events@.len() - i,
        {
            assert(events@.take(i + 1).drop_last() =~= events@.take(i as int));
            self.watcher.observe(&events[i]);
            i = i + 1;
        }
        assert(events@.take(i as int) =~= events@);
        let ghost after = self@;
        assert(after == start.collected(events@, entry));
        if self.watcher.take_triggered() {
            if let Action::ReleaseAll = self.control.on_panic_hotkey() {
                out.push(Message::ReleaseAllKeys);
            }
        }
        assert(session::models(out@) =~= sent + if after.watcher.triggered {
            homecoming(after.control)
        } else {
            Seq::empty()
        });
        if self.liveness.should_send_heartbeat(now) {
            out.push(Message::Heartbeat);
        }
        assert(session::models(out@) =~= start.outgoing(events@, entry, now@));
        ServerAction::Send(out)
    }

    /// A heartbeat went out.
    pub fn heartbeat_sent(&mut self, now: Instant)
        ensures
            final(self)@ == (ServerState { liveness: old(self)@.liveness.spoke(now@), ..old(self)@ }),
    {
        self.liveness.record_heartbeat_sent(now);
    }
}

/// Pressing the escape brings focus home, and the client is told to let go
/// of whatever it may hold.
pub proof fn law_the_escape_brings_focus_home(state: ServerState, events: Seq<InputEvent>, entry: Option<u32>, now: nat)
    requires
        state.collected(events, entry).watcher.triggered,
    ensures
        state.ticked(events, entry).control == ControlState::initial(),
        state.collected(events, entry).control.focus == Focus::Remote && state.collected(
            events,
            entry,
        ).control.held != Set::<Usage>::empty() ==> state.outgoing(events, entry, now).contains(
            MessageModel::ReleaseAllKeys,
        ),
{
    let after = state.collected(events, entry);
    let sent = session::pumped(state.control, state.rules, events, entry).1;
    if after.control.return_action() == Action::ReleaseAll {
        assert(state.outgoing(events, entry, now)[sent.len() as int] == MessageModel::ReleaseAllKeys);
    }
}

/// A client that asks to hand focus back always gets its way.
pub proof fn law_a_release_brings_focus_home(state: ServerState, m: MessageModel, now: nat)
    requires
        m is Release,
    ensures
        state.received(m, now).control == ControlState::initial(),
        state.control.focus == Focus::Remote ==> state.home(m) == Some(m->Release_along),
{
}

/// However much input is forwarded, a silent client is given up once the
/// timeout has passed since it was last heard.
pub proof fn law_forwarding_does_not_mask_silence(state: ServerState, events: Seq<InputEvent>, entry: Option<u32>, now: nat)
    ensures
        state.ticked(events, entry).liveness.dead(now) == state.liveness.dead(now),
{
}

/// A fresh connection keeps input on this machine, gives a client up after
/// three seconds of silence and speaks after one.
pub proof fn law_a_fresh_connection_waits_three_seconds(rules: Map<Usage, Usage>, combo: Seq<Usage>, now: nat, later: nat)
    requires
        now <= later,
    ensures
        ({
            let state = ServerState::initial(rules, combo, now);
            &&& state.liveness.dead(later) <==> later > now + 3_000_000_000
            &&& state.liveness.heartbeat_due(later) <==> later >= now + 1_000_000_000
            &&& state.control.focus == Focus::Local
            &&& forall|key: Usage| !(#[trigger] state.control.held.contains(key))
            &&& forall|key: Usage| !(#[trigger] state.watcher.held.contains(key))
            &&& state.watcher.combo == combo
            &&& !state.watcher.triggered
            &&& state.rules == rules
        }),
{
}

/// Whatever arrives shows that the client is there. Only its request to hand
/// focus back does more: focus comes home if it was away, at the place that
/// the request names, and the client is told to let go if a key may be down.
pub proof fn law_only_a_release_does_more_than_show_life(state: ServerState, m: MessageModel, now: nat, later: nat)
    requires
        now <= later,
    ensures
        ({
            let after = state.received(m, now);
            let away = state.control.focus == Focus::Remote;
            &&& after.liveness.dead(later) <==> later > now + state.liveness.timeout
            &&& after.liveness.heartbeat_due(later) == state.liveness.heartbeat_due(later)
            &&& after.watcher == state.watcher
            &&& after.rules == state.rules
            &&& match m {
                MessageModel::Release { along } => {
                    &&& after.control.focus == Focus::Local
                    &&& forall|key: Usage| !(#[trigger] after.control.held.contains(key))
                    &&& state.home(m) == if away {
                        Some(along)
                    } else {
                        None
                    }
                    &&& state.answer(m) == if away && exists|key: Usage| #[trigger] state.control.held.contains(key) {
                        seq![MessageModel::ReleaseAllKeys]
                    } else {
                        Seq::empty()
                    }
                },
                _ => after.control == state.control && state.home(m) is None && state.answer(m).len() == 0,
            }
        }),
{
    lemma_some_key(state.control.held);
}

proof fn lemma_some_key(held: Set<Usage>)
    ensures
        held != Set::<Usage>::empty() <==> exists|key: Usage| #[trigger] held.contains(key),
{
    if forall|key: Usage| !(#[trigger] held.contains(key)) {
        assert(held =~= Set::<Usage>::empty());
    }
}

/// A round sends what was captured first; then, if the escape was pressed
/// while a key was down on the client, that it is to let go; and last, if one
/// is due, a heartbeat. With the escape, and only with it, focus comes home
/// at the end of a round.
pub proof fn law_a_round_sends_input_then_release_then_heartbeat(
    state: ServerState,
    events: Seq<InputEvent>,
    entry: Option<u32>,
    now: nat,
)
    ensures
        ({
            let (control, input) = session::pumped(state.control, state.rules, events, entry);
            let sent = state.outgoing(events, entry, now);
            let escaped = state.watcher.observed_all(events).triggered;
            let freed = escaped && control.focus == Focus::Remote && exists|key: Usage| #[trigger]
                control.held.contains(key);
            let due = now >= state.liveness.last_outbound && now - state.liveness.last_outbound
                >= state.liveness.interval || state.liveness.interval == 0;
            let n = input.len() as int;
            &&& sent.len() == n + (if freed { 1int } else { 0 }) + (if due { 1int } else { 0 })
            &&& forall|i: int| 0 <= i < n ==> sent[i] == input[i]
            &&& freed ==> sent[n] is ReleaseAllKeys
            &&& due ==> sent.last() is Heartbeat
            &&& escaped ==> state.ticked(events, entry).control == ControlState::initial()
            &&& !escaped ==> state.ticked(events, entry).control == control
            &&& !state.ticked(events, entry).watcher.triggered
            &&& state.ticked(events, entry).watcher.held == state.watcher.observed_all(events).held
            &&& state.ticked(events, entry).liveness == state.liveness
            &&& state.ticked(events, entry).rules == state.rules
        }),
{
    let control = session::pumped(state.control, state.rules, events, entry).0;
    lemma_some_key(control.held);
}

} // verus!
