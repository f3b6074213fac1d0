//! What input becomes on the wire, and what arrives becomes as input.

use vstd::prelude::*;

use crate::control::{Action, Control, ControlState, Focus};
use crate::device::{Injector, InputEvent};
use crate::held::HeldKeys;
use crate::keys::Usage;
use crate::message::{Message, MessageModel};
use crate::remap::RemapTable;
use crate::transport::{TransportError, TransportWriter, WriterState};

verus! {

/// The message that carries a captured event, with keys translated by the
/// rules. There is none for an edge crossing, which is no input, nor for
/// an arrival, which is never captured.
pub open spec fn event_message(rules: Map<Usage, Usage>, event: InputEvent) -> Option<MessageModel> {
    match event {
        InputEvent::Mouse { dx, dy } => Some(MessageModel::MouseMove { dx, dy }),
        InputEvent::Scroll { dx, dy } => Some(MessageModel::Scroll { dx, dy }),
        InputEvent::Button { button, pressed } => Some(MessageModel::MouseButton { button, pressed }),
        InputEvent::Key { usage, pressed } => Some(
            MessageModel::Key { usage: crate::remap::remapped(rules, usage), pressed },
        ),
        InputEvent::EdgeCrossed => None,
        InputEvent::Enter { .. } => None,
    }
}

/// The event that a received message asks for, if it is input.
pub open spec fn message_event(m: MessageModel) -> Option<InputEvent> {
    match m {
        MessageModel::MouseMove { dx, dy } => Some(InputEvent::Mouse { dx, dy }),
        MessageModel::Scroll { dx, dy } => Some(InputEvent::Scroll { dx, dy }),
        MessageModel::MouseButton { button, pressed } => Some(InputEvent::Button { button, pressed }),
        MessageModel::Key { usage, pressed } => Some(InputEvent::Key { usage, pressed }),
        MessageModel::Enter { along } => Some(InputEvent::Enter { along }),
        _ => None,
    }
}

/// What an optional message says.
pub open spec fn model_of(message: Option<Message>) -> Option<MessageModel> {
    match message {
        None => None,
        Some(m) => Some(m@),
    }
}

/// Translate a locally captured event into the message that carries it,
/// applying remapping at the source. Returns None for events that are not
/// themselves forwarded, such as the edge crossing.
pub fn event_to_message(remap: &RemapTable, event: InputEvent) -> (r: Option<Message>)
    ensures
        model_of(r) == event_message(remap@, event),
{
    match event {
        InputEvent::Mouse { dx, dy } => Some(Message::MouseMove { dx, dy }),
        InputEvent::Scroll { dx, dy } => Some(Message::Scroll { dx, dy }),
        InputEvent::Button { button, pressed } => Some(Message::MouseButton { button, pressed }),
        InputEvent::Key { usage, pressed } => Some(
            Message::Key { usage: remap.apply(usage), pressed },
        ),
        InputEvent::EdgeCrossed => None,
        InputEvent::Enter { .. } => None,
    }
}

/// Translate a received message into the event to inject. Returns None for
/// messages that are not input, including unknown ones from a newer peer.
pub fn message_to_event(message: &Message) -> (r: Option<InputEvent>)
    ensures
        r == message_event(message@),
{
    match message {
        Message::MouseMove { dx, dy } => Some(InputEvent::Mouse { dx: *dx, dy: *dy }),
        Message::Scroll { dx, dy } => Some(InputEvent::Scroll { dx: *dx, dy: *dy }),
        Message::MouseButton { button, pressed } => Some(
            InputEvent::Button { button: *button, pressed: *pressed },
        ),
        Message::Key { usage, pressed } => Some(InputEvent::Key { usage: *usage, pressed: *pressed }),
        Message::Enter { along } => Some(InputEvent::Enter { along: *along }),
        _ => None,
    }
}

/// The control state once an event was captured.
pub open spec fn captured(state: ControlState, event: InputEvent) -> ControlState {
    match event {
        InputEvent::EdgeCrossed => state.crossed(),
        InputEvent::Key { usage, pressed } => state.keyed(usage, pressed),
        _ => state,
    }
}

/// What is sent for a captured event: nothing while focus is local, the
/// event's message while it is remote. A crossing is announced if it is
/// known where along the edge it happened.
pub open spec fn forwarded(
    state: ControlState,
    rules: Map<Usage, Usage>,
    event: InputEvent,
    entry: Option<u32>,
) -> Option<MessageModel> {
    match event {
        InputEvent::EdgeCrossed => match entry {
            None => None,
            Some(along) => Some(MessageModel::Enter { along }),
        },
        _ => if state.focus == Focus::Remote {
            event_message(rules, event)
        } else {
            None
        },
    }
}

/// Takes one captured event: what is to be sent for it, according to the
/// control state machine. `entry` is where along the edge a crossing
/// happened, if that is known.
pub fn pump_server(control: &mut Control, remap: &RemapTable, event: InputEvent, entry: Option<u32>) -> (r: Option<Message>)
    ensures
        final(control)@ == captured(old(control)@, event),
        model_of(r) == forwarded(old(control)@, remap@, event, entry),
{
    match event {
        InputEvent::EdgeCrossed => {
            control.on_edge_crossed();
            match entry {
                None => None,
                Some(along) => Some(Message::Enter { along }),
            }
        },
        InputEvent::Key { usage, pressed } => match control.on_key(usage, pressed) {
            Action::Forward(usage, pressed) => event_to_message(
                remap,
                InputEvent::Key { usage, pressed },
            ),
            _ => None,
        },
        other => {
            if control.focus() == Focus::Remote {
                event_to_message(remap, other)
            } else {
                None
            }
        },
    }
}

/// What several messages say.
pub open spec fn models(messages: Seq<Message>) -> Seq<MessageModel> {
    messages.map_values(|m: Message| m@)
}

/// The control state once several events were captured, and what is sent
/// for them, in order.
pub open spec fn pumped(
    state: ControlState,
    rules: Map<Usage, Usage>,
    events: Seq<InputEvent>,
    entry: Option<u32>,
) -> (ControlState, Seq<MessageModel>)
    decreases events.len(),
{
    if events.len() == 0 {
        (state, Seq::empty())
    } else {
        let (before, sent) = pumped(state, rules, events.drop_last(), entry);
        (
            captured(before, events.last()),
            match forwarded(before, rules, events.last(), entry) {
                None => sent,
                Some(m) => sent.push(m),
            },
        )
    }
}

/// Takes everything that was captured since the last time: what is to be
/// sent for it, in order.
pub fn pump_events(control: &mut Control, remap: &RemapTable, events: &Vec<InputEvent>, entry: Option<u32>) -> (r: Vec<Message>)
    ensures
        (final(control)@, models(r@)) == pumped(old(control)@, remap@, events@, entry),
{
    let ghost start = control@;
    let mut out: Vec<Message> = Vec::new();
    let mut i: usize = 0;
    assert(events@.take(0) =~= Seq::<InputEvent>::empty());
    assert(models(out@) =~= Seq::<MessageModel>::empty());
    while i < events.len()
        invariant
            i <= events@.len(),
            (control@, models(out@)) == pumped(start, remap@, events@.take(i as int), entry),
        decreases events@.len() - i,
    {
        let ghost sent = out@;
        assert(events@.take(i + 1).drop_last() =~= events@.take(i as int));
        match pump_server(control, remap, events[i], entry) {
            Some(m) => {
                out.push(m);
                assert(models(out@) =~= models(sent).push(m@));
            },
            None => {},
        }
        i = i + 1;
    }
    assert(events@.take(i as int) =~= events@);
    out
}

/// The events that release keys, in the order of the keys.
pub open spec fn key_ups(keys: Seq<Usage>) -> Seq<InputEvent> {
    keys.map_values(|usage: Usage| InputEvent::Key { usage, pressed: false })
}

/// Whether `after` is `before` followed by one release for each key of a
/// set, in ascending order.
pub open spec fn released(before: Seq<InputEvent>, held: Set<Usage>, after: Seq<InputEvent>) -> bool {
    exists|keys: Seq<Usage>|
        crate::held::ascending(keys) && keys.to_set() == held && after == before
            + #[trigger] key_ups(keys)
}

/// Hands over a release for every held key, and forgets them. A rejected
/// release does not stop the rest of the sweep.
pub(crate) fn release_held<I: Injector>(injector: &mut I, held: &mut HeldKeys)
    ensures
        released(old(injector).handed(), old(held)@, final(injector).handed()),
        final(injector).answers() == old(injector).answers(),
        final(held)@ == Set::<Usage>::empty(),
{
    let ghost before = injector.handed();
    let keys: Vec<Usage> = held.drain_release();
    let mut i: usize = 0;
    assert(before =~= before + key_ups(keys@.take(0)));
    while i < keys.len()
        invariant
            i <= keys@.len(),
            injector.handed() == before + key_ups(keys@.take(i as int)),
            injector.answers() == old(injector).answers(),
        decreases keys@.len() - i,
    {
        let event = InputEvent::Key { usage: keys[i], pressed: false };
        let _ = injector.inject(&event);
        i = i + 1;
        assert(before + key_ups(keys@.take(i as int)) =~= (before + key_ups(
            keys@.take(i - 1),
        )).push(event));
    }
    assert(keys@.take(i as int) =~= keys@);
    assert(crate::held::ascending(keys@) && keys@.to_set() == old(held)@ && injector.handed()
        == before + key_ups(keys@));
}

/// The keys held on this machine once a message was applied.
pub open spec fn held_after(held: Set<Usage>, m: MessageModel) -> Set<Usage> {
    match m {
        MessageModel::ReleaseAllKeys => Set::empty(),
        MessageModel::Key { usage, pressed } => crate::held::recorded(held, usage, pressed),
        _ => held,
    }
}

/// Whether the events handed over for a message are the right ones: a
/// release of everything held, the message's event, or none.
pub open spec fn handed_for(before: Seq<InputEvent>, held: Set<Usage>, m: MessageModel, after: Seq<InputEvent>) -> bool {
    match m {
        MessageModel::ReleaseAllKeys => released(before, held, after),
        _ => match message_event(m) {
            None => after == before,
            Some(event) => after == before.push(event),
        },
    }
}

/// The bytes that tell the peer to let go of every key.
pub fn send_release_all(writer: &mut TransportWriter) -> (r: Result<Vec<u8>, TransportError>)
    ensures
        final(writer)@ == (WriterState { send_seq: old(writer)@.next_seq(), ..old(writer)@ }),
        crate::transport::sending(old(writer)@, MessageModel::ReleaseAllKeys, r),
{
    writer.send(&Message::ReleaseAllKeys)
}

/// Inject a received message if it is input.
///
/// `held` is the client's own record of what it has physically pressed on
/// this machine. A `ReleaseAllKeys` message is answered from this set,
/// never from anything the peer claims, so the release always matches what
/// is really down on this keyboard. An injector that rejects an event does
/// not end the session.
pub fn pump_client<I: Injector>(message: &Message, injector: &mut I, held: &mut HeldKeys)
    ensures
        final(held)@ == held_after(old(held)@, message@),
        handed_for(old(injector).handed(), old(held)@, message@, final(injector).handed()),
        final(injector).answers() == old(injector).answers(),
{
    match message {
        Message::ReleaseAllKeys => {
            release_held(injector, held);
        },
        Message::Key { usage, pressed } => {
            held.record(*usage, *pressed);
            let event = InputEvent::Key { usage: *usage, pressed: *pressed };
            let _ = injector.inject(&event);
        },
        other => {
            if let Some(event) = message_to_event(other) {
                let _ = injector.inject(&event);
            }
        },
    }
}

/// Input captured while focus is local never crosses the wire.
pub proof fn law_local_input_stays(state: ControlState, rules: Map<Usage, Usage>, event: InputEvent, entry: Option<u32>)
    requires
        state.focus == Focus::Local,
        event != InputEvent::EdgeCrossed,
    ensures
        forwarded(state, rules, event, entry) is None,
        captured(state, event) == state,
{
}

/// As long as no edge is crossed, nothing that is captured while focus is
/// local crosses the wire, however much it is.
pub proof fn law_nothing_leaves_before_a_crossing(
    state: ControlState,
    rules: Map<Usage, Usage>,
    events: Seq<InputEvent>,
    entry: Option<u32>,
)
    requires
        state.focus == Focus::Local,
        !events.contains(InputEvent::EdgeCrossed),
    ensures
        pumped(state, rules, events, entry) == (state, Seq::<MessageModel>::empty()),
    decreases events.len(),
{
    if events.len() > 0 {
        assert(events[events.len() - 1] == events.last());
        assert forall|i: int| 0 <= i < events.drop_last().len() implies events.drop_last()[i]
            != InputEvent::EdgeCrossed by {
            assert(events[i] == events.drop_last()[i]);
        }
        law_nothing_leaves_before_a_crossing(state, rules, events.drop_last(), entry);
        law_local_input_stays(state, rules, events.last(), entry);
    }
}

/// What is injected on the far side is what was captured, with the key
/// translated once.
pub proof fn law_remote_input_arrives(state: ControlState, rules: Map<Usage, Usage>, event: InputEvent, entry: Option<u32>)
    requires
        state.focus == Focus::Remote,
        event is Mouse || event is Button || event is Scroll || event is Key,
    ensures
        forwarded(state, rules, event, entry) is Some,
        message_event(forwarded(state, rules, event, entry)->0) == Some(
            match event {
                InputEvent::Key { usage, pressed } => InputEvent::Key {
                    usage: crate::remap::remapped(rules, usage),
                    pressed,
                },
                _ => event,
            },
        ),
{
}

/// Whatever was pressed, once everything is to be released no key is held
/// any more.
pub proof fn law_release_all_leaves_nothing_held(held: Set<Usage>)
    ensures
        held_after(held, MessageModel::ReleaseAllKeys) == Set::<Usage>::empty(),
{
}

/// Every message asks for the input it carries, and only messages that carry
/// input ask for any.
pub proof fn law_a_message_asks_for_the_input_it_carries(m: MessageModel)
    ensures
        m matches MessageModel::MouseMove { dx, dy } ==> message_event(m) == Some(InputEvent::Mouse { dx, dy }),
        m matches MessageModel::Scroll { dx, dy } ==> message_event(m) == Some(InputEvent::Scroll { dx, dy }),
        m matches MessageModel::MouseButton { button, pressed } ==> message_event(m) == Some(
            InputEvent::Button { button, pressed },
        ),
        m matches MessageModel::Key { usage, pressed } ==> message_event(m) == Some(InputEvent::Key { usage, pressed }),
        m matches MessageModel::Enter { along } ==> message_event(m) == Some(InputEvent::Enter { along }),
        message_event(m) is Some <==> m is MouseMove || m is Scroll || m is MouseButton || m is Key || m is Enter,
{
}

/// What a peer makes of an event that is captured on this machine: the same,
/// with the key translated by the rules.
pub open spec fn translated(rules: Map<Usage, Usage>, event: InputEvent) -> InputEvent {
    match event {
        InputEvent::Key { usage, pressed } => InputEvent::Key {
            usage: if rules.contains_key(usage) {
                rules[usage]
            } else {
                usage
            },
            pressed,
        },
        _ => event,
    }
}

/// Whether an event is something that a person does with a mouse or keyboard.
pub open spec fn done_by_hand(event: InputEvent) -> bool {
    event is Mouse || event is Button || event is Scroll || event is Key
}

/// While focus is on the peer, everything that is done by hand is sent, in
/// order and nothing twice: the peer makes of each message what was done.
pub proof fn law_remote_input_arrives_in_order(
    state: ControlState,
    rules: Map<Usage, Usage>,
    events: Seq<InputEvent>,
    entry: Option<u32>,
)
    requires
        state.focus == Focus::Remote,
        forall|i: int| 0 <= i < events.len() ==> done_by_hand(#[trigger] events[i]),
    ensures
        ({
            let (after, sent) = pumped(state, rules, events, entry);
            &&& after.focus == Focus::Remote
            &&& sent.len() == events.len()
            &&& forall|i: int|
                0 <= i < events.len() ==> message_event(#[trigger] sent[i]) == Some(translated(rules, events[i]))
        }),
    decreases events.len(),
{
    if events.len() > 0 {
        let start = events.drop_last();
        assert forall|i: int| 0 <= i < start.len() implies done_by_hand(#[trigger] start[i]) by {
            assert(start[i] == events[i]);
        }
        law_remote_input_arrives_in_order(state, rules, start, entry);
        let (before, sent) = pumped(state, rules, start, entry);
        assert(done_by_hand(events[events.len() - 1]));
        let (after, all) = pumped(state, rules, events, entry);
        assert forall|i: int| 0 <= i < events.len() implies message_event(#[trigger] all[i]) == Some(
            translated(rules, events[i]),
        ) by {
            if i < start.len() {
                assert(all[i] == sent[i]);
                assert(start[i] == events[i]);
            }
        }
    }
}

/// What is captured in two lots is sent as if it were one.
pub proof fn law_input_is_sent_lot_by_lot(
    state: ControlState,
    rules: Map<Usage, Usage>,
    first: Seq<InputEvent>,
    second: Seq<InputEvent>,
    entry: Option<u32>,
)
    ensures
        ({
            let (between, before) = pumped(state, rules, first, entry);
            let (after, behind) = pumped(between, rules, second, entry);
            pumped(state, rules, first + second, entry) == (after, before + behind)
        }),
    decreases second.len(),
{
    let (between, before) = pumped(state, rules, first, entry);
    if second.len() == 0 {
        assert(first + second =~= first);
        assert(before + Seq::<MessageModel>::empty() =~= before);
    } else {
        law_input_is_sent_lot_by_lot(state, rules, first, second.drop_last(), entry);
        assert((first + second).drop_last() =~= first + second.drop_last());
        assert((first + second).last() == second.last());
        let (after, behind) = pumped(between, rules, second.drop_last(), entry);
        if let Some(m) = forwarded(after, rules, second.last(), entry) {
            assert((before + behind).push(m) =~= before + behind.push(m));
        }
    }
}

/// Nothing that was done before a crossing is sent. The crossing is, with
/// where along the edge it happened, and then everything that is done after
/// it.
pub proof fn law_a_crossing_is_where_sending_begins(
    state: ControlState,
    rules: Map<Usage, Usage>,
    before: Seq<InputEvent>,
    after: Seq<InputEvent>,
    along: u32,
)
    requires
        state.focus == Focus::Local,
        forall|i: int| 0 <= i < before.len() ==> done_by_hand(#[trigger] before[i]),
        forall|i: int| 0 <= i < after.len() ==> done_by_hand(#[trigger] after[i]),
    ensures
        ({
            let (end, sent) = pumped(state, rules, before + seq![InputEvent::EdgeCrossed] + after, Some(along));
            &&& end.focus == Focus::Remote
            &&& sent.len() == after.len() + 1
            &&& message_event(sent[0]) == Some(InputEvent::Enter { along })
            &&& forall|i: int|
                0 <= i < after.len() ==> message_event(#[trigger] sent[i + 1]) == Some(translated(rules, after[i]))
        }),
{
    let crossing = seq![InputEvent::EdgeCrossed];
    let entry = Some(along);
    assert(!before.contains(InputEvent::EdgeCrossed)) by {
        if before.contains(InputEvent::EdgeCrossed) {
            let i = before.index_of(InputEvent::EdgeCrossed);
            assert(done_by_hand(before[i]));
        }
    }
    law_nothing_leaves_before_a_crossing(state, rules, before, entry);
    law_input_is_sent_lot_by_lot(state, rules, before, crossing, entry);
    law_input_is_sent_lot_by_lot(state, rules, before + crossing, after, entry);
    assert(crossing.drop_last() =~= Seq::<InputEvent>::empty());
    assert(pumped(state, rules, crossing.drop_last(), entry) == (state, Seq::<MessageModel>::empty()));
    let (between, first) = pumped(state, rules, before + crossing, entry);
    assert(first =~= seq![MessageModel::Enter { along }]);
    assert(between.focus == Focus::Remote);
    law_remote_input_arrives_in_order(between, rules, after, entry);
    let (end, behind) = pumped(between, rules, after, entry);
    let (whole, sent) = pumped(state, rules, before + crossing + after, entry);
    assert(sent == first + behind);
    assert forall|i: int| 0 <= i < after.len() implies message_event(#[trigger] sent[i + 1]) == Some(
        translated(rules, after[i]),
    ) by {
        assert(sent[i + 1] == behind[i]);
    }
}

/// A crossing whose place is not known is not announced, and still hands
/// focus over.
pub proof fn law_a_crossing_hands_focus_over(state: ControlState, rules: Map<Usage, Usage>, entry: Option<u32>)
    ensures
        captured(state, InputEvent::EdgeCrossed).focus == Focus::Remote,
        captured(state, InputEvent::EdgeCrossed).held == state.held,
        forwarded(state, rules, InputEvent::EdgeCrossed, None) is None,
        forall|event: InputEvent| #[trigger] captured(state, event).focus != state.focus ==> event is EdgeCrossed,
{
}

/// Letting go of everything is a release for each key that was held, one
/// each, after everything that was handed over before, and nothing else.
pub proof fn law_every_held_key_is_let_go_of_once(before: Seq<InputEvent>, held: Set<Usage>, after: Seq<InputEvent>, usage: Usage)
    requires
        released(before, held, after),
    ensures
        after.len() >= before.len(),
        forall|i: int| 0 <= i < before.len() ==> after[i] == before[i],
        forall|i: int|
            before.len() <= i < after.len() ==> (#[trigger] after[i] matches InputEvent::Key { usage: key, pressed }
                && held.contains(key) && !pressed),
        forall|i: int, j: int| before.len() <= i < j < after.len() ==> after[i] != after[j],
        held.contains(usage) ==> exists|i: int|
            before.len() <= i < after.len() && #[trigger] after[i] == (InputEvent::Key { usage, pressed: false }),
{
    let keys = choose|keys: Seq<Usage>|
        crate::held::ascending(keys) && keys.to_set() == held && after == before + #[trigger] key_ups(keys);
    assert forall|i: int| before.len() <= i < after.len() implies (#[trigger] after[i] matches InputEvent::Key {
        usage: key,
        pressed,
    } && held.contains(key) && !pressed) by {
        assert(after[i] == key_ups(keys)[i - before.len()]);
        assert(keys.to_set().contains(keys[i - before.len()]));
    }
    assert forall|i: int, j: int| before.len() <= i < j < after.len() implies after[i] != after[j] by {
        assert(after[i] == key_ups(keys)[i - before.len()]);
        assert(after[j] == key_ups(keys)[j - before.len()]);
    }
    if held.contains(usage) {
        assert(keys.contains(usage));
        let k = keys.index_of(usage);
        assert(after[before.len() + k] == key_ups(keys)[k]);
    }
}

/// What a client holds down is what it was told to press and not since told
/// to let go of. Every message of input is handed on as it is; nothing else
/// is, but for the release of everything.
pub proof fn law_a_client_does_as_it_is_told(
    before: Seq<InputEvent>,
    held: Set<Usage>,
    m: MessageModel,
    after: Seq<InputEvent>,
    key: Usage,
)
    requires
        handed_for(before, held, m, after),
    ensures
        m is ReleaseAllKeys ==> released(before, held, after) && !held_after(held, m).contains(key),
        m matches MessageModel::Key { usage, pressed } ==> after == before.push(InputEvent::Key { usage, pressed })
            && held_after(held, m).contains(key) == (if key == usage {
            pressed
        } else {
            held.contains(key)
        }),
        m matches MessageModel::MouseMove { dx, dy } ==> after == before.push(InputEvent::Mouse { dx, dy }),
        m matches MessageModel::Scroll { dx, dy } ==> after == before.push(InputEvent::Scroll { dx, dy }),
        m matches MessageModel::MouseButton { button, pressed } ==> after == before.push(
            InputEvent::Button { button, pressed },
        ),
        m matches MessageModel::Enter { along } ==> after == before.push(InputEvent::Enter { along }),
        !(m is ReleaseAllKeys || m is Key || m is MouseMove || m is Scroll || m is MouseButton || m is Enter) ==> after
            == before,
        !(m is ReleaseAllKeys || m is Key) ==> held_after(held, m) == held,
{
}

} // verus!
