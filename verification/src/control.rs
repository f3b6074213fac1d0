//! Which machine the input goes to.

use vstd::prelude::*;

use crate::held::HeldKeys;
use crate::keys::Usage;

verus! {

/// Where input is currently going.
#[derive(Debug, Clone, Copy, PartialEq, Eq, Structural)]
pub enum Focus {
    /// Input stays on this machine.
    Local,
    /// Input is being sent to the peer.
    Remote,
}

/// What the caller should do as a result of an event.
#[derive(Debug, Clone, Copy, PartialEq, Eq, Structural)]
pub enum Action {
    /// Send this key to the peer.
    Forward(Usage, bool),
    /// Tell the peer to release every key it believes is held.
    ReleaseAll,
    Nothing,
}

/// Decides whether input goes to this machine or the peer, and guarantees
/// that focus always comes home on any failure. Every path that leaves
/// `Remote` releases held keys first.
#[derive(Debug)]
pub struct Control {
    focus: Focus,
    held: HeldKeys,
}

/// What a [`Control`] goes by.
#[verifier::ext_equal]
pub struct ControlState {
    pub focus: Focus,
    pub held: Set<Usage>,
}

impl ControlState {
    pub open spec fn initial() -> ControlState {
        ControlState { focus: Focus::Local, held: Set::empty() }
    }

    /// The cursor crossed the edge.
    pub open spec fn crossed(self) -> ControlState {
        ControlState { focus: Focus::Remote, ..self }
    }

    /// A key went down or up. Only keys that go to the peer are tracked.
    pub open spec fn keyed(self, usage: Usage, pressed: bool) -> ControlState {
        match self.focus {
            Focus::Local => self,
            Focus::Remote => ControlState { held: crate::held::recorded(self.held, usage, pressed), ..self },
        }
    }

    /// What is to be done about a key.
    pub open spec fn key_action(self, usage: Usage, pressed: bool) -> Action {
        match self.focus {
            Focus::Local => Action::Nothing,
            Focus::Remote => Action::Forward(usage, pressed),
        }
    }

    /// What is to be done when focus comes home: the peer is told to
    /// release its keys if it may hold any.
    pub open spec fn return_action(self) -> Action {
        if self.focus == Focus::Remote && self.held != Set::<Usage>::empty() {
            Action::ReleaseAll
        } else {
            Action::Nothing
        }
    }
}

impl View for Control {
    type V = ControlState;

    closed spec fn view(&self) -> ControlState {
        ControlState { focus: self.focus, held: self.held@ }
    }
}

impl Default for Control {
    fn default() -> (r: Control)
        ensures
            r@ == ControlState::initial(),
    {
        Self::new()
    }
}

impl Control {
    pub fn new() -> (r: Control)
        ensures
            r@ == ControlState::initial(),
    {
        Control { focus: Focus::Local, held: HeldKeys::new() }
    }

    pub fn focus(&self) -> (r: Focus)
        ensures
            r == self@.focus,
    {
        self.focus
    }

    pub fn on_edge_crossed(&mut self) -> (r: Action)
        ensures
            r == Action::Nothing,
            final(self)@ == old(self)@.crossed(),
    {
        self.focus = Focus::Remote;
        Action::Nothing
    }

    pub fn on_key(&mut self, usage: Usage, pressed: bool) -> (r: Action)
        ensures
            r == old(self)@.key_action(usage, pressed),
            final(self)@ == old(self)@.keyed(usage, pressed),
    {
        match self.focus {
            Focus::Local => Action::Nothing,
            Focus::Remote => {
                self.held.record(usage, pressed);
                Action::Forward(usage, pressed)
            },
        }
    }

    /// The client asked to hand focus back.
    pub fn on_release_requested(&mut self) -> (r: Action)
        ensures
            r == old(self)@.return_action(),
            final(self)@ == ControlState::initial(),
    {
        self.return_focus()
    }

    /// The link is gone.
    pub fn on_disconnected(&mut self) -> (r: Action)
        ensures
            r == old(self)@.return_action(),
            final(self)@ == ControlState::initial(),
    {
        self.return_focus()
    }

    /// The user pressed the escape that always brings focus home.
    pub fn on_panic_hotkey(&mut self) -> (r: Action)
        ensures
            r == old(self)@.return_action(),
            final(self)@ == ControlState::initial(),
    {
        self.return_focus()
    }

    fn return_focus(&mut self) -> (r: Action)
        ensures
            r == old(self)@.return_action(),
            final(self)@ == ControlState::initial(),
    {
        let was_remote: bool = self.focus == Focus::Remote;
        self.focus = Focus::Local;
        let had_keys: bool = !self.held.is_empty();
        self.held.drain_release();
        if was_remote && had_keys {
            Action::ReleaseAll
        } else {
            Action::Nothing
        }
    }
}

/// While focus is local no key is forwarded and none is tracked, so
/// nothing can be left held on the peer on its account.
pub proof fn law_local_keys_never_leave(state: ControlState, usage: Usage, pressed: bool)
    requires
        state.focus == Focus::Local,
    ensures
        state.key_action(usage, pressed) == Action::Nothing,
        state.keyed(usage, pressed) == state,
{
}

/// If a key was forwarded as pressed and not since as released, bringing
/// focus home tells the peer to release everything.
pub proof fn law_a_held_key_is_released_when_focus_returns(state: ControlState, usage: Usage)
    requires
        state.focus == Focus::Remote,
        state.held.contains(usage),
    ensures
        state.return_action() == Action::ReleaseAll,
{
}

/// A crossing turns every key that follows over to the peer, as it is. Coming
/// home, the peer is told to let go exactly if a key that went down there has
/// not come up again.
pub proof fn law_keys_go_to_the_peer_between_crossing_and_return(state: ControlState, usage: Usage, pressed: bool, other: Usage)
    ensures
        ({
            let away = state.crossed();
            let after = away.keyed(usage, pressed);
            &&& away.held == state.held
            &&& away.key_action(usage, pressed) == Action::Forward(usage, pressed)
            &&& after.focus == Focus::Remote
            &&& after.held.contains(usage) == pressed
            &&& other != usage ==> after.held.contains(other) == state.held.contains(other)
            &&& pressed ==> after.return_action() == Action::ReleaseAll
            &&& !pressed && (forall|key: Usage| #[trigger] state.held.contains(key) ==> key == usage)
                ==> after.return_action() == Action::Nothing
        }),
        ControlState::initial().focus == Focus::Local,
        ControlState::initial().return_action() == Action::Nothing,
        ControlState::initial().crossed().return_action() == Action::Nothing,
        state.focus == Focus::Local ==> state.return_action() == Action::Nothing,
{
    let after = state.crossed().keyed(usage, pressed);
    if pressed {
        assert(after.held.contains(usage));
    } else if forall|key: Usage| #[trigger] state.held.contains(key) ==> key == usage {
        assert(after.held =~= Set::<Usage>::empty());
    }
}

} // verus!
