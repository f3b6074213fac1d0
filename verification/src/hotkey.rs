//! The key combination that always brings focus home.

use vstd::prelude::*;

use crate::device::InputEvent;
use crate::held::HeldKeys;
use crate::keys::Usage;

verus! {

/// Whether every key of a combination is down. Further keys may be down
/// too, and a combination without keys is never down.
pub open spec fn matched(combo: Seq<Usage>, held: Set<Usage>) -> bool {
    combo.len() > 0 && forall|i: int| 0 <= i < combo.len() ==> held.contains(#[trigger] combo[i])
}

/// Whether every key of a combination is down.
pub fn hotkey_matched(combo: &Vec<Usage>, held: &HeldKeys) -> (r: bool)
    ensures
        r == matched(combo@, held@),
{
    if combo.len() == 0 {
        return false;
    }
    let mut i: usize = 0;
    while i < combo.len()
        invariant
            i <= combo@.len(),
            forall|j: int| 0 <= j < i ==> held@.contains(#[trigger] combo@[j]),
        decreases combo@.len() - i,
    {
        if !held.contains(combo[i]) {
            assert(!held@.contains(combo@[i as int]));
            return false;
        }
        i = i + 1;
    }
    true
}

/// Watches captured keys for the moment when every key of a combination is
/// down at once.
///
/// It takes nothing away: holding keys back to find out whether they
/// belong to the combination would add latency to every single keypress.
#[derive(Debug)]
pub struct HotkeyWatcher {
    combo: Vec<Usage>,
    held: HeldKeys,
    triggered: bool,
}

/// What a [`HotkeyWatcher`] goes by.
#[verifier::ext_equal]
pub struct WatcherState {
    pub combo: Seq<Usage>,
    pub held: Set<Usage>,
    pub triggered: bool,
}

impl WatcherState {
    pub open spec fn initial(combo: Seq<Usage>) -> WatcherState {
        WatcherState { combo, held: Set::empty(), triggered: false }
    }

    /// An event was captured.
    pub open spec fn observed(self, event: InputEvent) -> WatcherState {
        match event {
            InputEvent::Key { usage, pressed } => {
                let held = crate::held::recorded(self.held, usage, pressed);
                WatcherState {
                    held,
                    triggered: self.triggered || matched(self.combo, held),
                    ..self
                }
            },
            _ => self,
        }
    }

    /// Whether the combination was down has been asked. The keys still count
    /// as held: with the combination down, the next key event triggers again.
    pub open spec fn asked(self) -> WatcherState {
        WatcherState { triggered: false, ..self }
    }

    /// Several events were captured, one after another.
    pub open spec fn observed_all(self, events: Seq<InputEvent>) -> WatcherState
        decreases events.len(),
    {
        if events.len() == 0 {
            self
        } else {
            self.observed_all(events.drop_last()).observed(events.last())
        }
    }
}

impl View for HotkeyWatcher {
    type V = WatcherState;

    closed spec fn view(&self) -> WatcherState {
        WatcherState { combo: self.combo@, held: self.held@, triggered: self.triggered }
    }
}

impl HotkeyWatcher {
    pub fn new(combo: Vec<Usage>) -> (r: HotkeyWatcher)
        ensures
            r@ == WatcherState::initial(combo@),
    {
        HotkeyWatcher { combo, held: HeldKeys::new(), triggered: false }
    }

    /// Takes note of a captured event.
    pub fn observe(&mut self, event: &InputEvent)
        ensures
            final(self)@ == old(self)@.observed(*event),
    {
        if let InputEvent::Key { usage, pressed } = event {
            self.held.record(*usage, *pressed);
            if hotkey_matched(&self.combo, &self.held) {
                self.triggered = true;
            }
        }
    }

    /// Whether the combination was down since this was last asked.
    pub fn take_triggered(&mut self) -> (r: bool)
        ensures
            r == old(self)@.triggered,
            final(self)@ == old(self)@.asked(),
    {
        let was: bool = self.triggered;
        self.triggered = false;
        was
    }
}

/// A press that completes the combination is never missed.
pub proof fn law_a_completed_combination_triggers(state: WatcherState, usage: Usage)
    requires
        matched(state.combo, state.held.insert(usage)),
    ensures
        state.observed(InputEvent::Key { usage, pressed: true }).triggered,
{
}

/// Without a combination nothing ever triggers.
pub proof fn law_no_combination_never_triggers(events: Seq<InputEvent>)
    ensures
        !WatcherState::initial(Seq::empty()).observed_all(events).triggered,
        WatcherState::initial(Seq::empty()).observed_all(events).combo.len() == 0,
    decreases events.len(),
{
    if events.len() > 0 {
        law_no_combination_never_triggers(events.drop_last());
    }
}

/// The combination triggers with the key event after which all of its keys
/// are down, whatever else is down and whichever comes last, and with no
/// other event. It stays triggered until that is asked, which lets go of no
/// key.
pub proof fn law_a_combination_triggers_when_all_its_keys_are_down(state: WatcherState, event: InputEvent)
    ensures
        state.observed(event).triggered <==> state.triggered || (state.combo.len() > 0 && (event matches InputEvent::Key {
            usage,
            pressed,
        } && forall|i: int|
            0 <= i < state.combo.len() ==> if #[trigger] state.combo[i] == usage {
                pressed
            } else {
                state.held.contains(state.combo[i])
            })),
        state.observed(event).combo == state.combo,
        forall|key: Usage|
            #[trigger] state.observed(event).held.contains(key) == (match event {
                InputEvent::Key { usage, pressed } => if usage == key {
                    pressed
                } else {
                    state.held.contains(key)
                },
                _ => state.held.contains(key),
            }),
        !state.asked().triggered,
        state.asked().held == state.held,
        state.asked().combo == state.combo,
{
    if let InputEvent::Key { usage, pressed } = event {
        let held = crate::held::recorded(state.held, usage, pressed);
        assert forall|i: int| 0 <= i < state.combo.len() implies held.contains(#[trigger] state.combo[i]) == (if state.combo[i]
            == usage {
            pressed
        } else {
            state.held.contains(state.combo[i])
        }) by {}
    }
}

} // verus!
