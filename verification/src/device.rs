//! Input events, where they come from and where they go.

use std::collections::VecDeque;
use vstd::prelude::*;

use crate::keys::Usage;
use crate::message::Button;

verus! {

/// A single input event, in this tool's own vocabulary rather than any
/// platform's.
#[derive(Debug, Clone, Copy, PartialEq, Eq, Structural)]
pub enum InputEvent {
    Mouse { dx: i32, dy: i32 },
    Button { button: Button, pressed: bool },
    Scroll { dx: i32, dy: i32 },
    Key { usage: Usage, pressed: bool },
    /// The cursor reached the edge that hands control to the peer.
    EdgeCrossed,
    /// Focus arrives on this machine at `along` on its entry edge; see
    /// [`crate::message::Message::Enter`].
    Enter { along: u32 },
}

#[derive(Debug, Clone, PartialEq, Eq)]
pub enum DeviceError {
    /// The platform rejected the event, and why.
    Rejected(String),
}

impl DeviceError {
    /// What went wrong, for a person to read.
    pub fn message(&self) -> (r: String)
        ensures
            r@ == "the platform rejected the event: "@ + self->Rejected_0@,
    {
        match self {
            DeviceError::Rejected(reason) => "the platform rejected the event: ".to_owned().concat(
                reason.as_str(),
            ),
        }
    }
}

/// Source of local input.
pub trait Capturer {
    /// Returns the next captured event, or None if none is pending.
    fn poll(&mut self) -> (r: Option<InputEvent>);
}

/// Sink that replays events as though they came from real hardware.
pub trait Injector {
    /// Every event handed over so far, in order, rejected ones included.
    /// Every injector stands for such a record, which grows with each event;
    /// one that is not itself verified need not hold it.
    open spec fn handed(&self) -> Seq<InputEvent> {
        arbitrary()
    }

    /// Every place on the return edge that was ever answered, in order.
    /// Every injector stands for such a record, which grows with each place;
    /// one that is not itself verified need not hold it.
    open spec fn answers(&self) -> Seq<u32> {
        arbitrary()
    }

    fn inject(&mut self, event: &InputEvent) -> (r: Result<(), DeviceError>)
        ensures
            final(self).handed() == old(self).handed().push(*event),
            final(self).answers() == old(self).answers(),
    ;

    /// Asked after a motion event has just been injected: where along the
    /// return edge the real cursor stands, if it has reached that edge and
    /// focus should go back to the peer. Only a platform that tracks a
    /// real, visible cursor can ever say so.
    fn reached_return_edge(&mut self) -> (r: Option<u32>)
        ensures
            final(self).handed() == old(self).handed(),
            final(self).answers() == match r {
                Some(along) => old(self).answers().push(along),
                None => old(self).answers(),
            },
        default_ensures
            r is None,
    {
        None
    }
}

/// Replays a fixed script of events. Lets the whole input path be tested
/// with no mouse, no keyboard, and no second machine.
pub struct FakeCapturer {
    events: VecDeque<InputEvent>,
}

impl View for FakeCapturer {
    type V = Seq<InputEvent>;

    /// The events that are still to come.
    closed spec fn view(&self) -> Seq<InputEvent> {
        self.events@
    }
}

impl FakeCapturer {
    pub fn new(events: Vec<InputEvent>) -> (r: FakeCapturer)
        ensures
            r@ == events@,
    {
        let mut queue: VecDeque<InputEvent> = VecDeque::new();
        let mut i: usize = 0;
        while i < events.len()
            invariant
                i <= events@.len(),
                queue@ == events@.take(i as int),
            decreases events@.len() - i,
        {
            queue.push_back(events[i]);
            i = i + 1;
            assert(queue@ =~= events@.take(i as int));
        }
        assert(queue@ =~= events@);
        FakeCapturer { events: queue }
    }
}

impl Capturer for FakeCapturer {
    fn poll(&mut self) -> (r: Option<InputEvent>)
        ensures
            old(self)@.len() == 0 ==> r is None && final(self)@ == old(self)@,
            old(self)@.len() > 0 ==> r == Some(old(self)@[0]) && final(self)@ == old(self)@.skip(1),
    {
        let r = self.events.pop_front();
        proof {
            if old(self)@.len() > 0 {
                assert(self@ =~= old(self)@.skip(1));
            }
        }
        r
    }
}

/// Records everything injected so tests can assert on it.
pub struct FakeInjector {
    received: Vec<InputEvent>,
}

impl View for FakeInjector {
    type V = Seq<InputEvent>;

    /// The events injected so far.
    closed spec fn view(&self) -> Seq<InputEvent> {
        self.received@
    }
}

impl Default for FakeInjector {
    fn default() -> (r: FakeInjector)
        ensures
            r@ == Seq::<InputEvent>::empty(),
    {
        FakeInjector { received: Vec::new() }
    }
}

impl FakeInjector {
    pub fn new() -> (r: FakeInjector)
        ensures
            r@ == Seq::<InputEvent>::empty(),
    {
        Self::default()
    }

    pub fn injected(&self) -> (r: Vec<InputEvent>)
        ensures
            r@ == self@,
    {
        let mut r: Vec<InputEvent> = Vec::new();
        let mut i: usize = 0;
        while i < self.received.len()
            invariant
                i <= self.received@.len(),
                r@ == self.received@.take(i as int),
            decreases self.received@.len() - i,
        {
            r.push(self.received[i]);
            i = i + 1;
            assert(r@ =~= self.received@.take(i as int));
        }
        assert(r@ =~= self.received@);
        r
    }
}

impl Injector for FakeInjector {
    open spec fn handed(&self) -> Seq<InputEvent> {
        self@
    }

    open spec fn answers(&self) -> Seq<u32> {
        Seq::empty()
    }

    fn inject(&mut self, event: &InputEvent) -> (r: Result<(), DeviceError>)
        ensures
            r is Ok,
            final(self)@ == old(self)@.push(*event),
    {
        self.received.push(*event);
        Ok(())
    }
}

/// Always refuses to inject, as though the platform had started rejecting
/// every event. Exists to pin what is wanted when that happens: the caller
/// keeps going rather than aborting the receive loop, since a stalled
/// connection with a healthy looking socket is the exact silent failure
/// this tool exists to avoid.
pub struct FailingInjector {
    refused: Ghost<Seq<InputEvent>>,
}

impl Default for FailingInjector {
    fn default() -> (r: FailingInjector)
        ensures
            r.handed() == Seq::<InputEvent>::empty(),
    {
        FailingInjector { refused: Ghost(Seq::empty()) }
    }
}

impl FailingInjector {
    pub fn new() -> (r: FailingInjector)
        ensures
            r.handed() == Seq::<InputEvent>::empty(),
    {
        Self::default()
    }
}

impl Injector for FailingInjector {
    closed spec fn handed(&self) -> Seq<InputEvent> {
        self.refused@
    }

    open spec fn answers(&self) -> Seq<u32> {
        Seq::empty()
    }

    fn inject(&mut self, event: &InputEvent) -> (r: Result<(), DeviceError>)
        ensures
            r matches Err(DeviceError::Rejected(reason)) && reason@ == "platform refused the event"@,
    {
        self.refused = Ghost(self.refused@.push(*event));
        Err(DeviceError::Rejected("platform refused the event".to_owned()))
    }
}

} // verus!
