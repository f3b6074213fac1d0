//! What to do with an input event that the Mac is about to see.
//!
//! The event tap, the cursor calls and the threads are the caller's. It
//! hands in what the tap saw and does what comes back.

use std::collections::{HashSet, VecDeque};
use vstd::prelude::*;

use crate::device::InputEvent;
use crate::held::HeldKeys;
use crate::hotkey;
use crate::hotkey::hotkey_matched;
use crate::keys::Usage;
use crate::macos::cursor::Bounds;
use crate::macos::keymap;
use crate::macos::keymap::virtual_key_to_usage;
use crate::message::Button;
use crate::screen::{Screen, ScreenModel, Side, UNIT, WHOLE};
use crate::time::{Duration, Instant};

verus! {

broadcast use vstd::std_specs::hash::group_hash_axioms;

/// Why capturing input could not be started.
#[derive(Debug)]
pub enum CaptureError {
    TapUnavailable,
    RunLoopSourceUnavailable,
    /// The system's reason.
    ThreadSpawnFailed(String),
    ThreadExitedEarly,
}

impl CaptureError {
    /// What went wrong, for a person to read.
    pub fn message(&self) -> (r: String)
        ensures
            r@ == match *self {
                CaptureError::TapUnavailable =>
                    "failed to create the macOS event tap; is Accessibility permission granted?"@,
                CaptureError::RunLoopSourceUnavailable =>
                    "failed to create a run loop source for the event tap"@,
                CaptureError::ThreadSpawnFailed(reason) => "failed to spawn the capture thread: "@ + reason@,
                CaptureError::ThreadExitedEarly =>
                    "the capture thread exited before the event tap was ready"@,
            },
    {
        match self {
            CaptureError::TapUnavailable =>
                "failed to create the macOS event tap; is Accessibility permission granted?".to_owned(),
            CaptureError::RunLoopSourceUnavailable =>
                "failed to create a run loop source for the event tap".to_owned(),
            CaptureError::ThreadSpawnFailed(reason) => "failed to spawn the capture thread: ".to_owned().concat(
                reason.as_str(),
            ),
            CaptureError::ThreadExitedEarly =>
                "the capture thread exited before the event tap was ready".to_owned(),
        }
    }
}

/// The edge of this machine's desktop that hands focus to the peer.
#[derive(Debug, Clone, Copy, PartialEq, Eq, Structural)]
pub enum Edge {
    Top,
    Bottom,
    Left,
    Right,
}

impl Edge {
    /// The side of the desktop that this edge is.
    pub open spec fn spec_side(self) -> Side {
        match self {
            Edge::Top => Side::Top,
            Edge::Bottom => Side::Bottom,
            Edge::Left => Side::Left,
            Edge::Right => Side::Right,
        }
    }

    /// The side of the desktop that this edge is.
    pub fn side(self) -> (r: Side)
        ensures
            r == self.spec_side(),
    {
        match self {
            Edge::Top => Side::Top,
            Edge::Bottom => Side::Bottom,
            Edge::Left => Side::Left,
            Edge::Right => Side::Right,
        }
    }
}

/// How far inside the desktop a restored cursor lands.
pub const EDGE_MARGIN: i32 = 12 * 256;

/// Whether a point has reached an edge of the desktop.
pub open spec fn reaches(edge: Edge, x: int, y: int, bounds: Bounds) -> bool {
    match edge {
        Edge::Top => y <= bounds.min_y,
        Edge::Bottom => y >= bounds.max_y - UNIT,
        Edge::Left => x <= bounds.min_x,
        Edge::Right => x >= bounds.max_x - UNIT,
    }
}

/// Whether a point has reached an edge of the desktop.
pub fn crossed(edge: Edge, x: i32, y: i32, bounds: Bounds) -> (r: bool)
    ensures
        r == reaches(edge, x as int, y as int, bounds),
{
    match edge {
        Edge::Top => y <= bounds.min_y,
        Edge::Bottom => y as i64 >= bounds.max_y as i64 - UNIT as i64,
        Edge::Left => x <= bounds.min_x,
        Edge::Right => x as i64 >= bounds.max_x as i64 - UNIT as i64,
    }
}

/// Whether reaching the edge hands focus over. With nobody connected it
/// must never suppress this machine's own input.
pub fn should_begin_crossing(peer_connected: bool, edge_crossed: bool) -> (r: bool)
    ensures
        r == (peer_connected && edge_crossed),
{
    peer_connected && edge_crossed
}

pub open spec fn smaller(a: int, b: int) -> int {
    if a <= b {
        a
    } else {
        b
    }
}

pub open spec fn larger(a: int, b: int) -> int {
    if a >= b {
        a
    } else {
        b
    }
}

/// The place to which the cursor comes back if the peer does not say where:
/// where it crossed, but off the edge, so that the next motion does not
/// cross again.
pub open spec fn nudged(edge: Edge, x: int, y: int, bounds: Bounds) -> (int, int) {
    match edge {
        Edge::Top => (x, smaller(bounds.min_y + EDGE_MARGIN, bounds.max_y as int)),
        Edge::Bottom => (x, larger(bounds.max_y - UNIT - EDGE_MARGIN, bounds.min_y as int)),
        Edge::Left => (smaller(bounds.min_x + EDGE_MARGIN, bounds.max_x as int), y),
        Edge::Right => (larger(bounds.max_x - UNIT - EDGE_MARGIN, bounds.min_x as int), y),
    }
}

fn up_to(v: i64, limit: i32) -> (r: i32)
    requires
        v >= i32::MIN,
    ensures
        r == smaller(v as int, limit as int),
{
    if v <= limit as i64 {
        v as i32
    } else {
        limit
    }
}

fn at_least(v: i64, limit: i32) -> (r: i32)
    requires
        v <= i32::MAX,
    ensures
        r == larger(v as int, limit as int),
{
    if v >= limit as i64 {
        v as i32
    } else {
        limit
    }
}

/// The place to which the cursor comes back.
pub fn nudge_inward(edge: Edge, x: i32, y: i32, bounds: Bounds) -> (r: (i32, i32))
    ensures
        (r.0 as int, r.1 as int) == nudged(edge, x as int, y as int, bounds),
{
    match edge {
        Edge::Top => (x, up_to(bounds.min_y as i64 + EDGE_MARGIN as i64, bounds.max_y)),
        Edge::Bottom => (
            x,
            at_least(bounds.max_y as i64 - UNIT as i64 - EDGE_MARGIN as i64, bounds.min_y),
        ),
        Edge::Left => (up_to(bounds.min_x as i64 + EDGE_MARGIN as i64, bounds.max_x), y),
        Edge::Right => (
            at_least(bounds.max_x as i64 - UNIT as i64 - EDGE_MARGIN as i64, bounds.min_x),
            y,
        ),
    }
}

/// A restored cursor is never itself at the edge, if the desktop is more
/// than a unit high and wide.
pub proof fn law_a_restored_cursor_does_not_cross_again(edge: Edge, x: int, y: int, bounds: Bounds)
    requires
        bounds.max_x - bounds.min_x > UNIT,
        bounds.max_y - bounds.min_y > UNIT,
    ensures
        ({
            let (nx, ny) = nudged(edge, x, y, bounds);
            !reaches(edge, nx, ny, bounds)
        }),
{
}

/// How far along the edge a point is, in parts of the whole edge.
pub open spec fn fraction_at(edge: Edge, x: int, y: int, bounds: Bounds) -> int {
    let (from, length) = if edge == Edge::Top || edge == Edge::Bottom {
        (x - bounds.min_x, bounds.max_x - bounds.min_x)
    } else {
        (y - bounds.min_y, bounds.max_y - bounds.min_y)
    };
    if from <= 0 {
        0
    } else {
        smaller(from * WHOLE / larger(length, UNIT as int), WHOLE as int)
    }
}

/// How far along the edge a point is, in parts of the whole edge.
pub fn crossing_fraction(edge: Edge, x: i32, y: i32, bounds: Bounds) -> (r: i64)
    ensures
        r == fraction_at(edge, x as int, y as int, bounds),
        0 <= r <= WHOLE,
{
    let (from, length): (i64, i64) = match edge {
        Edge::Top | Edge::Bottom => (
            x as i64 - bounds.min_x as i64,
            bounds.max_x as i64 - bounds.min_x as i64,
        ),
        Edge::Left | Edge::Right => (
            y as i64 - bounds.min_y as i64,
            bounds.max_y as i64 - bounds.min_y as i64,
        ),
    };
    if from <= 0 {
        return 0;
    }
    let length: i128 = if length >= UNIT as i64 {
        length as i128
    } else {
        UNIT as i128
    };
    let scaled: i128 = from as i128 * WHOLE as i128;
    let parts: i128 = scaled / length;
    assert(parts >= 0) by (nonlinear_arith)
        requires
            scaled >= 0,
            length > 0,
            parts == scaled / length,
    ;
    if parts <= WHOLE as i128 {
        parts as i64
    } else {
        WHOLE
    }
}

/// How many points of continuous scrolling make one unit.
pub const CONTINUOUS_SCROLL_POINTS_PER_UNIT: i64 = 10;

/// The whole units in a number of points, towards zero.
pub open spec fn whole_units(points: int) -> int {
    if points >= 0 {
        points / 10
    } else {
        -((-points) / 10)
    }
}

/// Trackpads report scrolling in points, tens of them per event where a
/// wheel reports one unit per notch. How many units an event's points make
/// together with what the last one left over, and what is left over now.
pub fn scale_continuous_scroll(points: i32, remainder: i32) -> (r: (i32, i32))
    ensures
        r.0 == whole_units(points + remainder),
        r.1 == points + remainder - 10 * whole_units(points + remainder),
        -10 < r.1 < 10,
{
    let total: i64 = points as i64 + remainder as i64;
    let whole: i64 = if total >= 0 {
        total / CONTINUOUS_SCROLL_POINTS_PER_UNIT
    } else {
        -((-total) / CONTINUOUS_SCROLL_POINTS_PER_UNIT)
    };
    (whole as i32, (total - whole * CONTINUOUS_SCROLL_POINTS_PER_UNIT) as i32)
}

/// The units and the remainder after several events of continuous
/// scrolling.
pub open spec fn scrolled(points: Seq<i32>) -> (int, int)
    decreases points.len(),
{
    if points.len() == 0 {
        (0, 0)
    } else {
        let (units, remainder) = scrolled(points.drop_last());
        let total = points.last() + remainder;
        (units + whole_units(total), total - 10 * whole_units(total))
    }
}

/// The points of several events together.
pub open spec fn points_of(points: Seq<i32>) -> int
    decreases points.len(),
{
    if points.len() == 0 {
        0
    } else {
        points_of(points.drop_last()) + points.last()
    }
}

/// However slowly one scrolls, nothing is lost: the units and what is left
/// over add up to all the points there were, and less than a unit is left.
pub proof fn law_slow_scrolling_adds_up(points: Seq<i32>)
    ensures
        ({
            let (units, remainder) = scrolled(points);
            &&& 10 * units + remainder == points_of(points)
            &&& -10 < remainder < 10
        }),
    decreases points.len(),
{
    if points.len() > 0 {
        law_slow_scrolling_adds_up(points.drop_last());
    }
}

/// How many events are kept for a reader that is not reading.
pub const MAX_QUEUED_EVENTS: usize = 4096;

/// Captured events on their way to the connection.
#[derive(Debug)]
pub struct EventQueue {
    events: VecDeque<InputEvent>,
}

/// A queue with one more event. If it is full, the oldest one makes room.
pub open spec fn queued(queue: Seq<InputEvent>, event: InputEvent) -> Seq<InputEvent> {
    if queue.len() >= MAX_QUEUED_EVENTS {
        queue.skip(1).push(event)
    } else {
        queue.push(event)
    }
}

impl View for EventQueue {
    type V = Seq<InputEvent>;

    closed spec fn view(&self) -> Seq<InputEvent> {
        self.events@
    }
}

impl EventQueue {
    pub fn new() -> (r: EventQueue)
        ensures
            r@ == Seq::<InputEvent>::empty(),
    {
        EventQueue { events: VecDeque::new() }
    }

    /// Appends an event, and says whether the oldest one had to go.
    pub fn push(&mut self, event: InputEvent) -> (r: bool)
        ensures
            final(self)@ == queued(old(self)@, event),
            r == (old(self)@.len() >= MAX_QUEUED_EVENTS),
    {
        let full: bool = self.events.len() >= MAX_QUEUED_EVENTS;
        if full {
            let _ = self.events.pop_front();
            assert(self.events@ =~= old(self)@.skip(1));
        }
        self.events.push_back(event);
        full
    }

    /// Takes the oldest event.
    pub fn pop(&mut self) -> (r: Option<InputEvent>)
        ensures
            old(self)@.len() == 0 ==> r is None && final(self)@ == old(self)@,
            old(self)@.len() > 0 ==> r == Some(old(self)@[0]) && final(self)@ == old(self)@.skip(1),
    {
        let r = self.events.pop_front();
        proof {
            if old(self)@.len() > 0 {
                assert(self.events@ =~= old(self)@.skip(1));
            }
        }
        r
    }
}

/// However long nobody reads, the queue never outgrows its limit.
pub proof fn law_the_queue_is_bounded(queue: Seq<InputEvent>, event: InputEvent)
    requires
        queue.len() <= MAX_QUEUED_EVENTS,
    ensures
        queued(queue, event).len() <= MAX_QUEUED_EVENTS,
        queued(queue, event).last() == event,
{
}

/// How often a full queue is worth a line in the log, in seconds.
pub const QUEUE_OVERFLOW_LOG_SECS: u64 = 5;

/// When a full queue was last logged.
#[derive(Debug)]
pub struct OverflowLog {
    last: Option<Instant>,
}

impl View for OverflowLog {
    type V = Option<nat>;

    closed spec fn view(&self) -> Option<nat> {
        match self.last {
            None => None,
            Some(at) => Some(at@),
        }
    }
}

/// Whether an overflow is worth a line.
pub open spec fn worth_logging(last: Option<nat>, now: nat) -> bool {
    match last {
        None => true,
        Some(at) => now >= at + QUEUE_OVERFLOW_LOG_SECS * 1_000_000_000,
    }
}

impl OverflowLog {
    pub fn new() -> (r: OverflowLog)
        ensures
            r@ is None,
    {
        OverflowLog { last: None }
    }

    /// The queue overflowed: whether to log it.
    pub fn overflowed(&mut self, now: Instant) -> (r: bool)
        ensures
            r == worth_logging(old(self)@, now@),
            final(self)@ == if r {
                Some(now@)
            } else {
                old(self)@
            },
    {
        let log: bool = match self.last {
            None => true,
            Some(at) => !now.saturating_duration_since(at).shorter_than(
                &Duration::from_secs(QUEUE_OVERFLOW_LOG_SECS),
            ),
        };
        if log {
            self.last = Some(now);
        }
        log
    }
}

/// What an event tap can see.
#[derive(Debug, Clone, Copy, PartialEq, Eq, Structural)]
pub enum EventType {
    KeyDown,
    KeyUp,
    FlagsChanged,
    MouseMoved,
    LeftMouseDown,
    LeftMouseUp,
    LeftMouseDragged,
    RightMouseDown,
    RightMouseUp,
    RightMouseDragged,
    OtherMouseDown,
    OtherMouseUp,
    OtherMouseDragged,
    ScrollWheel,
    /// Not translated into input, but suppressed while focus is remote.
    TabletPointer,
    TabletProximity,
    /// The system switched the tap off because it was too slow.
    TapDisabledByTimeout,
    /// The system switched the tap off on the user's behalf.
    TapDisabledByUserInput,
}

/// The button of a third or further mouse button's number, counted from
/// zero. Only the middle button has a place in the protocol.
pub open spec fn other_button(number: i64) -> Option<Button> {
    if number == 2 {
        Some(Button::Middle)
    } else {
        None
    }
}

/// The button of a third or further mouse button's number. A fourth or
/// fifth button is ignored rather than guessed at.
pub fn other_mouse_button(number: i64) -> (r: Option<Button>)
    ensures
        r == other_button(number),
{
    if number == 2 {
        Some(Button::Middle)
    } else {
        None
    }
}

/// The input that a key is.
pub open spec fn key_event(usage: Option<Usage>, pressed: bool) -> Option<InputEvent> {
    match usage {
        Some(usage) => Some(InputEvent::Key { usage, pressed }),
        None => None,
    }
}

/// The input that a button is.
pub open spec fn button_event(button: Option<Button>, pressed: bool) -> Option<InputEvent> {
    match button {
        Some(button) => Some(InputEvent::Button { button, pressed }),
        None => None,
    }
}

/// What an event other than a modifier's means.
pub open spec fn translated(event_type: EventType, keycode: i64, dx: i32, dy: i32, number: i64) -> Option<InputEvent> {
    match event_type {
        EventType::KeyDown => key_event(keymap::usage_of(keycode), true),
        EventType::KeyUp => key_event(keymap::usage_of(keycode), false),
        EventType::MouseMoved | EventType::LeftMouseDragged | EventType::RightMouseDragged => Some(
            InputEvent::Mouse { dx, dy },
        ),
        EventType::LeftMouseDown => button_event(Some(Button::Left), true),
        EventType::LeftMouseUp => button_event(Some(Button::Left), false),
        EventType::RightMouseDown => button_event(Some(Button::Right), true),
        EventType::RightMouseUp => button_event(Some(Button::Right), false),
        EventType::OtherMouseDown => button_event(other_button(number), true),
        EventType::OtherMouseUp => button_event(other_button(number), false),
        EventType::ScrollWheel => Some(InputEvent::Scroll { dx, dy }),
        _ => None,
    }
}

/// Translates an event other than a modifier's into this tool's own
/// vocabulary. A drag is motion with a button held. An unknown key code or
/// button number yields nothing rather than a guess.
pub fn translate(event_type: EventType, keycode: i64, dx: i32, dy: i32, number: i64) -> (r: Option<InputEvent>)
    ensures
        r == translated(event_type, keycode, dx, dy, number),
{
    match event_type {
        EventType::KeyDown => match virtual_key_to_usage(keycode) {
            Some(usage) => Some(InputEvent::Key { usage, pressed: true }),
            None => None,
        },
        EventType::KeyUp => match virtual_key_to_usage(keycode) {
            Some(usage) => Some(InputEvent::Key { usage, pressed: false }),
            None => None,
        },
        EventType::MouseMoved | EventType::LeftMouseDragged | EventType::RightMouseDragged => Some(
            InputEvent::Mouse { dx, dy },
        ),
        EventType::LeftMouseDown => Some(InputEvent::Button { button: Button::Left, pressed: true }),
        EventType::LeftMouseUp => Some(InputEvent::Button { button: Button::Left, pressed: false }),
        EventType::RightMouseDown => Some(InputEvent::Button { button: Button::Right, pressed: true }),
        EventType::RightMouseUp => Some(InputEvent::Button { button: Button::Right, pressed: false }),
        EventType::OtherMouseDown => match other_mouse_button(number) {
            Some(button) => Some(InputEvent::Button { button, pressed: true }),
            None => None,
        },
        EventType::OtherMouseUp => match other_mouse_button(number) {
            Some(button) => Some(InputEvent::Button { button, pressed: false }),
            None => None,
        },
        EventType::ScrollWheel => Some(InputEvent::Scroll { dx, dy }),
        _ => None,
    }
}

/// The flag bit that says whether one particular modifier key is down, as
/// opposed to its sibling on the other side. Caps lock has none.
pub open spec fn device_bit(keycode: i64) -> Option<u64> {
    if keycode == 59 {
        Some(0x0001)
    } else if keycode == 62 {
        Some(0x2000)
    } else if keycode == 56 {
        Some(0x0002)
    } else if keycode == 60 {
        Some(0x0004)
    } else if keycode == 55 {
        Some(0x0008)
    } else if keycode == 54 {
        Some(0x0010)
    } else if keycode == 58 {
        Some(0x0020)
    } else if keycode == 61 {
        Some(0x0040)
    } else {
        None
    }
}

/// The flag bit of a modifier key: left and right control, shift, command
/// and option.
pub fn device_bit_for_keycode(keycode: i64) -> (r: Option<u64>)
    ensures
        r == device_bit(keycode),
{
    match keycode {
        59 => Some(0x0001),
        62 => Some(0x2000),
        56 => Some(0x0002),
        60 => Some(0x0004),
        55 => Some(0x0008),
        54 => Some(0x0010),
        58 => Some(0x0020),
        61 => Some(0x0040),
        _ => None,
    }
}

/// Whether a modifier's event says that the key went down.
pub open spec fn modifier_down(keycode: i64, flags: u64, held: Set<i64>) -> bool {
    match device_bit(keycode) {
        Some(bit) => flags & bit != 0,
        None => !held.contains(keycode),
    }
}

/// What a modifier's event means.
pub open spec fn modifier_event(keycode: i64, flags: u64, held: Set<i64>) -> Option<InputEvent> {
    key_event(keymap::usage_of(keycode), modifier_down(keycode, flags, held))
}

/// The modifiers without a flag bit that are down after a modifier's
/// event.
pub open spec fn modifiers_after(keycode: i64, held: Set<i64>) -> Set<i64> {
    if keymap::usage_of(keycode) is None || device_bit(keycode) is Some {
        held
    } else if held.contains(keycode) {
        held.remove(keycode)
    } else {
        held.insert(keycode)
    }
}

/// Translates a modifier's event into a press or a release.
///
/// `flags` says of every modifier with a left and a right key whether this
/// very key is down now. That corrects itself after a lost event, where
/// toggling what is believed to be held would be wrong from then on. Caps
/// lock has no such bit, so it toggles.
pub fn translate_modifier(keycode: i64, flags: u64, held: &mut HashSet<i64>) -> (r: Option<InputEvent>)
    ensures
        r == modifier_event(keycode, flags, old(held)@),
        final(held)@ == modifiers_after(keycode, old(held)@),
{
    match virtual_key_to_usage(keycode) {
        None => None,
        Some(usage) => {
            let pressed: bool = match device_bit_for_keycode(keycode) {
                Some(bit) => flags & bit != 0,
                None => {
                    let inserted: bool = held.insert(keycode);
                    if !inserted {
                        held.remove(&keycode);
                    }
                    inserted
                },
            };
            assert(held@ =~= modifiers_after(keycode, old(held)@));
            Some(InputEvent::Key { usage, pressed })
        },
    }
}

/// Whatever was missed before, the event of a modifier with a left and a
/// right key says what is true now.
pub proof fn law_modifiers_correct_themselves(keycode: i64, flags: u64, held1: Set<i64>, held2: Set<i64>)
    requires
        device_bit(keycode) is Some,
    ensures
        modifier_event(keycode, flags, held1) == modifier_event(keycode, flags, held2),
{
}

/// What the tap saw.
#[derive(Debug, Clone, Copy)]
pub struct TapEvent {
    pub event_type: EventType,
    pub keycode: i64,
    /// The modifier flags at that moment.
    pub flags: u64,
    /// How far the mouse moved.
    pub delta_x: i32,
    pub delta_y: i32,
    /// The number of a third or further mouse button.
    pub button_number: i64,
    /// Whether scrolling is counted in points rather than in lines.
    pub continuous: bool,
    pub point_delta_x: i32,
    pub point_delta_y: i32,
    pub line_delta_x: i32,
    pub line_delta_y: i32,
    /// Where the cursor is.
    pub x: i32,
    pub y: i32,
}

/// What is to be done about an event.
#[derive(Debug, Clone, Copy, PartialEq, Eq)]
pub struct Outcome {
    /// Keep the event from reaching this machine.
    pub suppress: bool,
    /// Switch the tap on again.
    pub reenable: bool,
    /// Give the cursor back, here.
    pub restore: Option<(i32, i32)>,
    /// Then hide the cursor and let go of it.
    pub park: bool,
    /// The queue was full, and its oldest event is gone.
    pub overflowed: bool,
}

/// The state of capturing.
pub struct Capture {
    edge: Edge,
    bounds: Bounds,
    screen: Screen,
    anchor: Option<i64>,
    combo: Vec<Usage>,
    remote: bool,
    peer_connected: bool,
    parked: Option<(i32, i32)>,
    events: EventQueue,
    modifiers: HashSet<i64>,
    held: HeldKeys,
    remainder: (i32, i32),
    fraction: i64,
    along: i64,
}

/// What a [`Capture`] goes by.
#[verifier::ext_equal]
pub struct CaptureState {
    pub edge: Edge,
    pub bounds: Bounds,
    pub screen: ScreenModel,
    pub anchor: Option<i64>,
    pub combo: Seq<Usage>,
    pub remote: bool,
    pub peer_connected: bool,
    pub parked: Option<(i32, i32)>,
    pub queue: Seq<InputEvent>,
    pub modifiers: Set<i64>,
    pub held: Set<Usage>,
    pub remainder: (int, int),
    pub fraction: int,
    pub along: int,
}

/// Whether an event says that the system switched the tap off.
pub open spec fn is_disabled(event: TapEvent) -> bool {
    event.event_type == EventType::TapDisabledByTimeout || event.event_type
        == EventType::TapDisabledByUserInput
}

/// Whether an event can take the cursor to the edge.
pub open spec fn is_motion(event: TapEvent) -> bool {
    event.event_type == EventType::MouseMoved || event.event_type == EventType::LeftMouseDragged
        || event.event_type == EventType::RightMouseDragged
}

/// Whether an event is a motion that carries deltas.
pub open spec fn is_moved(event: TapEvent) -> bool {
    is_motion(event) || event.event_type == EventType::OtherMouseDragged
}

impl CaptureState {
    /// Whether an event's scrolling is counted in points.
    pub open spec fn scrolls_on(event: TapEvent) -> bool {
        event.event_type == EventType::ScrollWheel && event.continuous
    }

    /// How far an event moves or scrolls.
    pub open spec fn delta(self, event: TapEvent) -> (int, int) {
        if is_moved(event) {
            (event.delta_x as int, event.delta_y as int)
        } else if Self::scrolls_on(event) {
            (
                whole_units(event.point_delta_x + self.remainder.0),
                whole_units(event.point_delta_y + self.remainder.1),
            )
        } else if event.event_type == EventType::ScrollWheel {
            (event.line_delta_x as int, event.line_delta_y as int)
        } else {
            (0, 0)
        }
    }

    /// What an event means.
    pub open spec fn meaning(self, event: TapEvent) -> Option<InputEvent> {
        if event.event_type == EventType::FlagsChanged {
            modifier_event(event.keycode, event.flags, self.modifiers)
        } else {
            let (dx, dy) = self.delta(event);
            translated(
                event.event_type,
                event.keycode,
                dx as i32,
                dy as i32,
                if event.event_type == EventType::OtherMouseDown || event.event_type
                    == EventType::OtherMouseUp {
                    event.button_number
                } else {
                    0
                },
            )
        }
    }

    /// What is kept for making sense of the next event.
    pub open spec fn understood(self, event: TapEvent) -> CaptureState {
        CaptureState {
            modifiers: if event.event_type == EventType::FlagsChanged {
                modifiers_after(event.keycode, self.modifiers)
            } else {
                self.modifiers
            },
            remainder: if Self::scrolls_on(event) {
                (
                    event.point_delta_x + self.remainder.0 - 10 * whole_units(
                        event.point_delta_x + self.remainder.0,
                    ),
                    event.point_delta_y + self.remainder.1 - 10 * whole_units(
                        event.point_delta_y + self.remainder.1,
                    ),
                )
            } else {
                self.remainder
            },
            held: match self.meaning(event) {
                Some(InputEvent::Key { usage, pressed }) => crate::held::recorded(
                    self.held,
                    usage,
                    pressed,
                ),
                _ => self.held,
            },
            ..self
        }
    }

    /// Whether an event completes the escape.
    pub open spec fn escapes(self, event: TapEvent) -> bool {
        self.meaning(event) is Some && self.meaning(event)->0 is Key && hotkey::matched(
            self.combo,
            self.understood(event).held,
        )
    }

    /// Whether input goes to the peer once the escape was looked for.
    pub open spec fn still_remote(self, event: TapEvent) -> bool {
        self.remote && !self.escapes(event)
    }

    /// Whether an event hands focus to the peer.
    pub open spec fn crosses(self, event: TapEvent) -> bool {
        &&& !self.still_remote(event)
        &&& is_motion(event)
        &&& self.peer_connected
        &&& reaches(self.edge, event.x as int, event.y as int, self.bounds)
    }

    /// The events on their way to the connection. Only what happens while
    /// focus is remote is passed on, the escape that ends it included, and
    /// the crossing itself.
    pub open spec fn passed_on(self, event: TapEvent) -> Seq<InputEvent> {
        let queue = if self.remote && self.meaning(event) is Some {
            queued(self.queue, self.meaning(event)->0)
        } else {
            self.queue
        };
        if self.crosses(event) {
            queued(queue, InputEvent::EdgeCrossed)
        } else {
            queue
        }
    }

    /// The state once an event was seen.
    pub open spec fn next(self, event: TapEvent) -> CaptureState {
        if is_disabled(event) {
            self
        } else {
            let (nx, ny) = nudged(self.edge, event.x as int, event.y as int, self.bounds);
            CaptureState {
                remote: self.still_remote(event) || self.crosses(event),
                parked: if self.crosses(event) {
                    Some((nx as i32, ny as i32))
                } else if self.still_remote(event) {
                    self.parked
                } else {
                    None
                },
                queue: self.passed_on(event),
                fraction: if self.crosses(event) {
                    fraction_at(self.edge, event.x as int, event.y as int, self.bounds)
                } else {
                    self.fraction
                },
                along: if self.crosses(event) {
                    (if self.edge.spec_side().is_horizontal() {
                        event.x
                    } else {
                        event.y
                    }) - self.screen.anchor_on(self.edge.spec_side(), self.anchor)
                } else {
                    self.along
                },
                ..self.understood(event)
            }
        }
    }

    /// Where the cursor belongs if focus comes home at `along`, relative to
    /// the anchor: at that place on the edge, or at the nearest corner if the
    /// edge does not reach that far.
    pub open spec fn home(self, along: int) -> Option<(int, int)> {
        let side = self.edge.spec_side();
        self.screen.landing_at(side, along + self.screen.anchor_on(side, self.anchor), EDGE_MARGIN as int)
    }

    /// The peer said where focus comes home.
    pub open spec fn came_home(self, along: int) -> CaptureState {
        CaptureState {
            parked: match (self.parked, self.home(along)) {
                (Some(_), Some((x, y))) => Some((x as i32, y as i32)),
                (parked, _) => parked,
            },
            ..self
        }
    }

    /// What is to be done about an event.
    pub open spec fn outcome(self, event: TapEvent) -> Outcome {
        if is_disabled(event) {
            Outcome { suppress: false, reenable: true, restore: None, park: false, overflowed: false }
        } else {
            Outcome {
                suppress: self.still_remote(event) || self.crosses(event),
                reenable: false,
                restore: if self.still_remote(event) {
                    None
                } else {
                    self.parked
                },
                park: self.crosses(event),
                overflowed: (self.remote && self.meaning(event) is Some || self.crosses(event))
                    && self.queue.len() >= MAX_QUEUED_EVENTS,
            }
        }
    }
}

impl View for Capture {
    type V = CaptureState;

    closed spec fn view(&self) -> CaptureState {
        CaptureState {
            edge: self.edge,
            bounds: self.bounds,
            screen: self.screen@,
            anchor: self.anchor,
            combo: self.combo@,
            remote: self.remote,
            peer_connected: self.peer_connected,
            parked: self.parked,
            queue: self.events@,
            modifiers: self.modifiers@,
            held: self.held@,
            remainder: (self.remainder.0 as int, self.remainder.1 as int),
            fraction: self.fraction as int,
            along: self.along as int,
        }
    }
}

impl Capture {
    /// Nothing is captured yet, and nobody is connected. `edge` is the edge
    /// that hands focus over, `bounds` and `screen` say what the desktop
    /// looks like, `anchor` is the configured place of the anchor along the
    /// edge, and `combo` is the escape.
    pub fn new(edge: Edge, bounds: Bounds, screen: Screen, anchor: Option<i64>, combo: Vec<Usage>) -> (r: Capture)
        ensures
            r@ == (CaptureState {
                edge,
                bounds,
                screen: screen@,
                anchor,
                combo: combo@,
                remote: false,
                peer_connected: false,
                parked: None,
                queue: Seq::empty(),
                modifiers: Set::empty(),
                held: Set::empty(),
                remainder: (0, 0),
                fraction: 0,
                along: 0,
            }),
    {
        Capture {
            edge,
            bounds,
            screen,
            anchor,
            combo,
            remote: false,
            peer_connected: false,
            parked: None,
            events: EventQueue::new(),
            modifiers: HashSet::new(),
            held: HeldKeys::new(),
            remainder: (0, 0),
            fraction: 0,
            along: 0,
        }
    }

    /// Whether input goes to the peer.
    pub fn is_remote(&self) -> (r: bool)
        ensures
            r == self@.remote,
    {
        self.remote
    }

    /// The connection says where input goes.
    pub fn set_remote(&mut self, remote: bool)
        ensures
            final(self)@ == (CaptureState { remote, ..old(self)@ }),
    {
        self.remote = remote;
    }

    /// A peer is there, so that a crossing has somewhere to go.
    pub fn peer_arrived(&mut self)
        ensures
            final(self)@ == (CaptureState { peer_connected: true, ..old(self)@ }),
    {
        self.peer_connected = true;
    }

    /// The connection is over, however it ended: local input resumes at
    /// once, and no crossing begins until a fresh peer is there.
    pub fn peer_left(&mut self)
        ensures
            final(self)@ == (CaptureState { remote: false, peer_connected: false, ..old(self)@ }),
    {
        self.remote = false;
        self.peer_connected = false;
    }

    /// How far along the edge the last crossing happened, in parts of the
    /// whole edge.
    pub fn last_crossing_fraction(&self) -> (r: i64)
        ensures
            r == self@.fraction,
    {
        self.fraction
    }

    /// Where along the edge the last crossing happened, relative to the
    /// anchor.
    pub fn last_crossing_along(&self) -> (r: i64)
        ensures
            r == self@.along,
    {
        self.along
    }

    /// Takes the oldest event that is on its way to the connection.
    pub fn poll(&mut self) -> (r: Option<InputEvent>)
        ensures
            old(self)@.queue.len() == 0 ==> r is None && final(self)@ == old(self)@,
            old(self)@.queue.len() > 0 ==> r == Some(old(self)@.queue[0]) && final(self)@ == (CaptureState {
                queue: old(self)@.queue.skip(1),
                ..old(self)@
            }),
    {
        self.events.pop()
    }

    /// The peer hands focus back at `along`, relative to the anchor: a parked
    /// cursor comes back there rather than where it left, so that a hand that
    /// moves on keeps its direction.
    pub fn come_home(&mut self, along: i64)
        ensures
            final(self)@ == old(self)@.came_home(along as int),
    {
        if self.parked.is_some() {
            let side: Side = self.edge.side();
            let anchor: i64 = self.screen.anchor(side, self.anchor) as i64;
            let place: i64 = match along.checked_add(anchor) {
                Some(place) => place,
                None => if along > 0 {
                    i64::MAX
                } else {
                    i64::MIN
                },
            };
            proof {
                if place != along + anchor {
                    crate::screen::lemma_far_places_land_alike(
                        self.screen@,
                        side,
                        place as int,
                        along + anchor,
                        EDGE_MARGIN as int,
                    );
                }
            }
            if let Some(at) = self.screen.landing(side, place, EDGE_MARGIN) {
                self.parked = Some(at);
            }
        }
    }

    /// Gives up the parked cursor, if there is one: where it is to be put.
    pub fn unpark(&mut self) -> (r: Option<(i32, i32)>)
        ensures
            r == old(self)@.parked,
            final(self)@ == (CaptureState { parked: None, ..old(self)@ }),
    {
        let r = self.parked;
        self.parked = None;
        r
    }

    /// What an event means, with the remainder of scrolling and the
    /// modifiers brought up to date.
    fn understand(&mut self, event: &TapEvent) -> (r: Option<InputEvent>)
        ensures
            r == old(self)@.meaning(*event),
            final(self)@ == (CaptureState { held: old(self)@.held, ..old(self)@.understood(*event) }),
    {
        if let EventType::FlagsChanged = event.event_type {
            return translate_modifier(event.keycode, event.flags, &mut self.modifiers);
        }
        let (dx, dy): (i32, i32) = match event.event_type {
            EventType::MouseMoved | EventType::LeftMouseDragged | EventType::RightMouseDragged
            | EventType::OtherMouseDragged => (event.delta_x, event.delta_y),
            EventType::ScrollWheel => {
                if event.continuous {
                    let (dx, rest_x) = scale_continuous_scroll(event.point_delta_x, self.remainder.0);
                    let (dy, rest_y) = scale_continuous_scroll(event.point_delta_y, self.remainder.1);
                    self.remainder = (rest_x, rest_y);
                    (dx, dy)
                } else {
                    (event.line_delta_x, event.line_delta_y)
                }
            },
            _ => (0, 0),
        };
        let number: i64 = match event.event_type {
            EventType::OtherMouseDown | EventType::OtherMouseUp => event.button_number,
            _ => 0,
        };
        translate(event.event_type, event.keycode, dx, dy, number)
    }

    /// Takes an event that the tap saw and says what to do about it.
    ///
    /// The escape is looked for before anything is decided, so that it
    /// frees the local keyboard and mouse even if nothing else runs.
    pub fn handle_event(&mut self, event: &TapEvent) -> (r: Outcome)
        ensures
            r == old(self)@.outcome(*event),
            final(self)@ == old(self)@.next(*event),
    {
        match event.event_type {
            EventType::TapDisabledByTimeout | EventType::TapDisabledByUserInput => {
                return Outcome {
                    suppress: false,
                    reenable: true,
                    restore: None,
                    park: false,
                    overflowed: false,
                };
            },
            _ => {},
        }
        let ghost start = self@;
        let meaning: Option<InputEvent> = self.understand(event);
        let was_remote: bool = self.remote;
        if let Some(InputEvent::Key { usage, pressed }) = meaning {
            self.held.record(usage, pressed);
            if hotkey_matched(&self.combo, &self.held) {
                self.remote = false;
            }
        }
        assert(self@ =~= (CaptureState {
            remote: start.still_remote(*event),
            ..start.understood(*event)
        }));
        let mut overflowed: bool = false;
        if was_remote {
            if let Some(input) = meaning {
                overflowed = self.events.push(input);
            }
        }
        let mut restore: Option<(i32, i32)> = None;
        let mut park: bool = false;
        if !self.remote {
            restore = self.unpark();
            let motion: bool = match event.event_type {
                EventType::MouseMoved | EventType::LeftMouseDragged | EventType::RightMouseDragged => true,
                _ => false,
            };
            if motion && should_begin_crossing(
                self.peer_connected,
                crossed(self.edge, event.x, event.y, self.bounds),
            ) {
                self.parked = Some(nudge_inward(self.edge, event.x, event.y, self.bounds));
                self.remote = true;
                park = true;
                // Not a fraction of the edge but a distance from the
                // anchor is what travels to the peer.
                self.fraction = crossing_fraction(self.edge, event.x, event.y, self.bounds);
                let side: Side = self.edge.side();
                let at: i32 = match side {
                    Side::Top | Side::Bottom => event.x,
                    Side::Left | Side::Right => event.y,
                };
                self.along = at as i64 - self.screen.anchor(side, self.anchor) as i64;
                overflowed = self.events.push(InputEvent::EdgeCrossed);
            }
        }
        Outcome { suppress: self.remote, reenable: false, restore, park, overflowed }
    }
}

/// A cursor that comes home where the peer said is on a monitor, and never
/// at the edge: the next motion does not hand focus straight back.
pub proof fn law_a_homecoming_does_not_cross_again(state: CaptureState, along: int)
    requires
        state.screen.laid_out(),
        0 < state.screen.monitors.len() <= usize::MAX,
        forall|i: int|
            0 <= i < state.screen.monitors.len() ==> state.bounds.hold(#[trigger] state.screen.monitors[i]),
    ensures
        state.home(along) matches Some((x, y)) && !reaches(state.edge, x, y, state.bounds) && exists|i: int|
            0 <= i < state.screen.monitors.len() && (#[trigger] state.screen.monitors[i]).has(x, y),
{
    let side = state.edge.spec_side();
    let place = along + state.screen.anchor_on(side, state.anchor);
    crate::screen::law_a_landing_is_never_at_the_edge(state.screen, side, place, EDGE_MARGIN as int);
    let i = state.screen.arrival(side, place).0.monitor as int;
    let m = state.screen.monitors[i];
    assert(state.bounds.hold(state.screen.monitors[i]));
    assert(m.max_x - m.min_x > UNIT && m.max_y - m.min_y > UNIT);
}

/// With nobody connected, this machine's own input is never suppressed.
pub proof fn law_nobody_connected_nothing_suppressed(state: CaptureState, event: TapEvent)
    requires
        !state.remote,
        !state.peer_connected,
    ensures
        !state.outcome(event).suppress,
        !state.next(event).remote,
{
}

/// Whenever the escape is complete, local input is free at once, the
/// cursor comes back, and the connection hears of it.
pub proof fn law_the_escape_frees_local_input(state: CaptureState, event: TapEvent)
    requires
        !is_disabled(event),
        state.escapes(event),
    ensures
        !state.outcome(event).suppress,
        !state.next(event).remote,
        state.outcome(event).restore == state.parked,
        state.next(event).parked is None,
        state.remote ==> state.next(event).queue.len() > 0 && Some(state.next(event).queue.last())
            == state.meaning(event),
{
    assert(!is_motion(event));
}

/// While focus is local nothing that is typed or moved is kept: all that
/// is ever passed on is that the edge was crossed.
pub proof fn law_local_input_is_not_kept(state: CaptureState, event: TapEvent)
    requires
        !state.remote,
    ensures
        state.next(event).queue == state.queue || state.next(event).queue == queued(
            state.queue,
            InputEvent::EdgeCrossed,
        ),
{
}

/// The very event that crosses the edge is already suppressed, and the
/// cursor is parked off the edge.
pub proof fn law_a_crossing_takes_effect_at_once(state: CaptureState, event: TapEvent)
    requires
        !state.remote,
        state.peer_connected,
        is_motion(event),
        reaches(state.edge, event.x as int, event.y as int, state.bounds),
    ensures
        state.outcome(event).suppress,
        state.outcome(event).park,
        state.next(event).remote,
        state.next(event).parked is Some,
        state.next(event).queue.last() == InputEvent::EdgeCrossed,
{
}

/// A tap that the system switched off is switched on again, and the event
/// that said so changes nothing else.
pub proof fn law_a_disabled_tap_is_switched_on(state: CaptureState, event: TapEvent)
    requires
        is_disabled(event),
    ensures
        state.outcome(event).reenable,
        !state.outcome(event).suppress,
        state.next(event) == state,
{
}

/// After how many seconds without an event the tap is looked at.
pub const WATCHDOG_TIMEOUT_SECS: u64 = 5;
/// How often that is asked, in seconds.
pub const WATCHDOG_POLL_SECS: u64 = 1;

/// What the watchdog does.
#[derive(Debug, Clone, Copy, PartialEq, Eq, Structural)]
pub enum WatchdogAction {
    /// Events came recently: leave things as they are.
    Wait,
    /// The tap is off though nothing said so: switch it on again.
    Reenable,
    /// The tap is on, and the machine is idle.
    Idle,
    /// The tap is gone: there is nothing left to watch.
    Stop,
}

/// What the watchdog does after so many nanoseconds without an event.
pub open spec fn watched(elapsed: nat, enabled: Option<bool>) -> WatchdogAction {
    if elapsed < WATCHDOG_TIMEOUT_SECS * 1_000_000_000 {
        WatchdogAction::Wait
    } else {
        match enabled {
            Some(false) => WatchdogAction::Reenable,
            Some(true) => WatchdogAction::Idle,
            None => WatchdogAction::Stop,
        }
    }
}

/// What the watchdog does after `elapsed` without an event. `enabled` says
/// whether the tap is on, and is `None` once it is gone.
///
/// An unattended machine is silent too, so silence alone is no reason to
/// switch anything on.
pub fn watchdog(elapsed: Duration, enabled: Option<bool>) -> (r: WatchdogAction)
    ensures
        r == watched(elapsed@, enabled),
{
    if elapsed.shorter_than(&Duration::from_secs(WATCHDOG_TIMEOUT_SECS)) {
        return WatchdogAction::Wait;
    }
    match enabled {
        Some(true) => WatchdogAction::Idle,
        Some(false) => WatchdogAction::Reenable,
        None => WatchdogAction::Stop,
    }
}

/// The bit in the flags of a modifier's event that says whether the key of a
/// usage is down, left and right apart: the device-dependent bits of control,
/// shift, command and option.
pub open spec fn flag_of(usage: u16) -> u64 {
    if usage == Usage::LEFT_CTRL {
        0x1
    } else if usage == Usage::LEFT_SHIFT {
        0x2
    } else if usage == Usage::RIGHT_SHIFT {
        0x4
    } else if usage == Usage::LEFT_GUI {
        0x8
    } else if usage == Usage::RIGHT_GUI {
        0x10
    } else if usage == Usage::LEFT_ALT {
        0x20
    } else if usage == Usage::RIGHT_ALT {
        0x40
    } else {
        0x2000
    }
}

proof fn lemma_modifier_code(keycode: i64, usage: u16)
    requires
        keymap::usage_of(keycode) == Some(Usage(usage)),
        0xE0 <= usage <= 0xE7,
    ensures
        device_bit(keycode) == Some(flag_of(usage)),
{
    keymap::law_every_other_key_is_known();
    let known: i64 = if usage == 0xE0 {
        59
    } else if usage == 0xE1 {
        56
    } else if usage == 0xE2 {
        58
    } else if usage == 0xE3 {
        55
    } else if usage == 0xE4 {
        62
    } else if usage == 0xE5 {
        60
    } else if usage == 0xE6 {
        61
    } else {
        54
    };
    assert(keymap::usage_of(known) == Some(Usage(usage)));
    assert(keymap::paired(keycode, usage));
    assert(keymap::paired(known, usage));
    keymap::law_the_pairing_is_one_to_one(keycode, usage, known, usage);
}

/// The event of a modifier with a left and a right key is a press exactly if
/// the flag of that very key is set, whatever else is set and whatever was
/// seen before.
pub proof fn law_a_modifier_is_down_where_its_own_flag_is_set(state: CaptureState, event: TapEvent, usage: u16)
    requires
        event.event_type == EventType::FlagsChanged,
        keymap::usage_of(event.keycode) == Some(Usage(usage)),
        0xE0 <= usage <= 0xE7,
    ensures
        state.meaning(event) == Some(
            InputEvent::Key { usage: Usage(usage), pressed: event.flags & flag_of(usage) != 0 },
        ),
        state.next(event).modifiers == state.modifiers,
{
    lemma_modifier_code(event.keycode, usage);
}

/// Caps lock has no such flag: its events are a press and a release in turn.
pub proof fn law_caps_lock_goes_down_and_up_in_turn(state: CaptureState, first: TapEvent, second: TapEvent)
    requires
        first.event_type == EventType::FlagsChanged,
        second.event_type == EventType::FlagsChanged,
        keymap::usage_of(first.keycode) == Some(Usage(0x39)),
        second.keycode == first.keycode,
    ensures
        state.meaning(first) matches Some(InputEvent::Key { usage, pressed }) && usage == Usage(0x39)
            && state.next(first).meaning(second) == Some(InputEvent::Key { usage, pressed: !pressed }),
        state.modifiers == Set::<i64>::empty() ==> state.meaning(first) == Some(
            InputEvent::Key { usage: Usage(0x39), pressed: true },
        ),
{
    keymap::law_every_other_key_is_known();
    assert(keymap::paired(first.keycode, 0x39));
    assert(keymap::paired(57, 0x39));
    keymap::law_the_pairing_is_one_to_one(first.keycode, 0x39, 57, 0x39);
}

/// Every event means what it is: a key goes down or up, a button is pressed or
/// let go of, a motion goes as far as the mouse did. What is no key or button
/// that is known, and what is no input, means nothing.
pub proof fn law_an_event_means_what_it_is(state: CaptureState, event: TapEvent)
    ensures
        ({
            let meaning = state.meaning(event);
            &&& event.event_type == EventType::KeyDown ==> match keymap::usage_of(event.keycode) {
                Some(usage) => meaning == Some(InputEvent::Key { usage, pressed: true }),
                None => meaning is None,
            }
            &&& event.event_type == EventType::KeyUp ==> match keymap::usage_of(event.keycode) {
                Some(usage) => meaning == Some(InputEvent::Key { usage, pressed: false }),
                None => meaning is None,
            }
            &&& event.event_type == EventType::FlagsChanged && keymap::usage_of(event.keycode) is None
                ==> meaning is None
            &&& event.event_type == EventType::MouseMoved || event.event_type == EventType::LeftMouseDragged
                || event.event_type == EventType::RightMouseDragged ==> meaning == Some(
                InputEvent::Mouse { dx: event.delta_x, dy: event.delta_y },
            )
            &&& event.event_type == EventType::LeftMouseDown ==> meaning == Some(
                InputEvent::Button { button: Button::Left, pressed: true },
            )
            &&& event.event_type == EventType::LeftMouseUp ==> meaning == Some(
                InputEvent::Button { button: Button::Left, pressed: false },
            )
            &&& event.event_type == EventType::RightMouseDown ==> meaning == Some(
                InputEvent::Button { button: Button::Right, pressed: true },
            )
            &&& event.event_type == EventType::RightMouseUp ==> meaning == Some(
                InputEvent::Button { button: Button::Right, pressed: false },
            )
            &&& event.event_type == EventType::OtherMouseDown ==> meaning == if event.button_number == 2 {
                Some(InputEvent::Button { button: Button::Middle, pressed: true })
            } else {
                None
            }
            &&& event.event_type == EventType::OtherMouseUp ==> meaning == if event.button_number == 2 {
                Some(InputEvent::Button { button: Button::Middle, pressed: false })
            } else {
                None
            }
            &&& event.event_type == EventType::OtherMouseDragged || event.event_type == EventType::TabletPointer
                || event.event_type == EventType::TabletProximity || event.event_type
                == EventType::TapDisabledByTimeout || event.event_type == EventType::TapDisabledByUserInput
                ==> meaning is None
            &&& event.event_type == EventType::ScrollWheel && !event.continuous ==> meaning == Some(
                InputEvent::Scroll { dx: event.line_delta_x, dy: event.line_delta_y },
            )
        }),
{
}

/// A trackpad's scrolling is counted in tens of points, and none of them is
/// lost: what is scrolled and what is left over make up the points and what
/// was left over before. Less than ten are left, and never against the
/// direction. Nothing but such scrolling touches what is left over.
pub proof fn law_a_trackpad_scrolls_a_unit_for_ten_points(state: CaptureState, event: TapEvent)
    requires
        -10 < state.remainder.0 < 10,
        -10 < state.remainder.1 < 10,
    ensures
        ({
            let after = state.next(event);
            let x = event.point_delta_x + state.remainder.0;
            let y = event.point_delta_y + state.remainder.1;
            if event.event_type == EventType::ScrollWheel && event.continuous {
                &&& state.meaning(event) matches Some(InputEvent::Scroll { dx, dy })
                &&& 10 * dx + after.remainder.0 == x
                &&& 10 * dy + after.remainder.1 == y
                &&& -10 < after.remainder.0 < 10
                &&& -10 < after.remainder.1 < 10
                &&& (x >= 0 ==> after.remainder.0 >= 0) && (x <= 0 ==> after.remainder.0 <= 0)
                &&& (y >= 0 ==> after.remainder.1 >= 0) && (y <= 0 ==> after.remainder.1 <= 0)
            } else {
                after.remainder == state.remainder
            }
        }),
{
}

/// Whether a motion takes the cursor to an edge of the desktop: within the
/// last unit on that side, or beyond.
pub open spec fn touches(event: TapEvent, edge: Edge, bounds: Bounds) -> bool {
    &&& event.event_type == EventType::MouseMoved || event.event_type == EventType::LeftMouseDragged
        || event.event_type == EventType::RightMouseDragged
    &&& match edge {
        Edge::Top => event.y <= bounds.min_y,
        Edge::Bottom => event.y + 256 >= bounds.max_y,
        Edge::Left => event.x <= bounds.min_x,
        Edge::Right => event.x + 256 >= bounds.max_x,
    }
}

/// Whether an event is one of a key, and afterwards every key of the escape is
/// down.
pub open spec fn completes_the_escape(state: CaptureState, event: TapEvent) -> bool {
    &&& state.meaning(event) matches Some(InputEvent::Key { usage, pressed })
    &&& state.combo.len() > 0
    &&& forall|i: int|
        0 <= i < state.combo.len() ==> if #[trigger] state.combo[i] == usage {
            pressed
        } else {
            state.held.contains(state.combo[i])
        }
}

/// Focus goes to the peer exactly where a motion takes the cursor to the
/// configured edge with somebody there to take it, and comes back exactly with
/// the escape. Input is kept from this machine exactly while focus is on the
/// peer, the crossing itself included.
pub proof fn law_focus_crosses_at_the_edge_and_comes_back_with_the_escape(state: CaptureState, event: TapEvent)
    requires
        event.event_type != EventType::TapDisabledByTimeout,
        event.event_type != EventType::TapDisabledByUserInput,
    ensures
        !state.remote ==> state.next(event).remote == (state.peer_connected && touches(
            event,
            state.edge,
            state.bounds,
        )),
        state.remote ==> state.next(event).remote == !completes_the_escape(state, event),
        state.outcome(event).suppress == state.next(event).remote,
        state.outcome(event).park == (!state.remote && state.next(event).remote),
        !state.outcome(event).reenable,
{
    if let Some(InputEvent::Key { usage, pressed }) = state.meaning(event) {
        assert(!is_motion(event));
        let held = state.understood(event).held;
        assert forall|i: int| 0 <= i < state.combo.len() implies held.contains(#[trigger] state.combo[i]) == (if state.combo[i]
            == usage {
            pressed
        } else {
            state.held.contains(state.combo[i])
        }) by {}
    }
}

/// What is held is what went down and has not come up. Nothing that an event
/// does not concern changes with it.
pub proof fn law_an_event_changes_only_what_it_concerns(state: CaptureState, event: TapEvent, usage: Usage)
    requires
        event.event_type != EventType::TapDisabledByTimeout,
        event.event_type != EventType::TapDisabledByUserInput,
    ensures
        ({
            let after = state.next(event);
            &&& after.edge == state.edge
            &&& after.bounds == state.bounds
            &&& after.screen == state.screen
            &&& after.anchor == state.anchor
            &&& after.combo == state.combo
            &&& after.peer_connected == state.peer_connected
            &&& after.held.contains(usage) == (match state.meaning(event) {
                Some(InputEvent::Key { usage: u, pressed }) => if u == usage {
                    pressed
                } else {
                    state.held.contains(usage)
                },
                _ => state.held.contains(usage),
            })
        }),
{
}

/// What the events on their way to the connection are once one more is there:
/// of 4096 the oldest one makes room.
pub open spec fn with_one_more(queue: Seq<InputEvent>, event: InputEvent) -> Seq<InputEvent> {
    if queue.len() < 4096 {
        queue + seq![event]
    } else {
        queue.subrange(1, queue.len() as int) + seq![event]
    }
}

/// While focus is on the peer, everything that means something is on its way
/// to the connection, in order. While it is not, nothing is but that it
/// crossed. What has to make room for it is reported.
pub proof fn law_what_is_done_on_the_peer_is_passed_on(state: CaptureState, event: TapEvent)
    requires
        event.event_type != EventType::TapDisabledByTimeout,
        event.event_type != EventType::TapDisabledByUserInput,
    ensures
        ({
            let added = if state.remote {
                state.meaning(event)
            } else if state.next(event).remote {
                Some(InputEvent::EdgeCrossed)
            } else {
                None
            };
            &&& state.next(event).queue == match added {
                Some(one) => with_one_more(state.queue, one),
                None => state.queue,
            }
            &&& state.outcome(event).overflowed == (added is Some && state.queue.len() >= 4096)
        }),
{
    assert(state.remote && state.escapes(event) ==> !is_motion(event));
    if state.queue.len() >= 4096 {
        assert(state.queue.skip(1) =~= state.queue.subrange(1, state.queue.len() as int));
    }
    assert forall|one: InputEvent| #[trigger] queued(state.queue, one) == with_one_more(state.queue, one) by {
        assert(queued(state.queue, one) =~= with_one_more(state.queue, one));
    }
}

/// The cursor is given back with the first event at which focus is home, at
/// the place that was kept for it, and only once.
pub proof fn law_the_cursor_is_given_back_once(state: CaptureState, event: TapEvent)
    requires
        event.event_type != EventType::TapDisabledByTimeout,
        event.event_type != EventType::TapDisabledByUserInput,
    ensures
        ({
            let home = !state.remote || completes_the_escape(state, event);
            &&& state.outcome(event).restore == if home {
                state.parked
            } else {
                None
            }
            &&& !state.outcome(event).park ==> state.next(event).parked == if home {
                None
            } else {
                state.parked
            }
        }),
{
    law_focus_crosses_at_the_edge_and_comes_back_with_the_escape(state, event);
    assert(state.remote && state.escapes(event) ==> !is_motion(event));
}

/// A crossing is remembered by where it happened: how far it was from the
/// anchor, along the edge; what part of the edge lay before it, to within a
/// part; and, as the place to come back to, that place twelve units inward.
/// Nothing of it changes until the next crossing.
pub proof fn law_a_crossing_is_remembered_by_its_place(state: CaptureState, event: TapEvent)
    requires
        state.bounds.max_x - state.bounds.min_x > 13 * 256,
        state.bounds.max_y - state.bounds.min_y > 13 * 256,
    ensures
        ({
            let after = state.next(event);
            let b = state.bounds;
            let flat = state.edge == Edge::Top || state.edge == Edge::Bottom;
            let at: int = if flat {
                event.x as int
            } else {
                event.y as int
            };
            let from: int = if flat {
                at - b.min_x
            } else {
                at - b.min_y
            };
            let length: int = if flat {
                b.max_x - b.min_x
            } else {
                b.max_y - b.min_y
            };
            let side = match state.edge {
                Edge::Top => Side::Top,
                Edge::Bottom => Side::Bottom,
                Edge::Left => Side::Left,
                Edge::Right => Side::Right,
            };
            if state.outcome(event).park {
                &&& after.along + state.screen.anchor_on(side, state.anchor) == at
                &&& from <= 0 ==> after.fraction == 0
                &&& from >= length ==> after.fraction == 0x1_0000_0000
                &&& 0 <= from <= length ==> 0 <= from * 0x1_0000_0000 - after.fraction * length < length
                &&& after.parked matches Some((x, y))
                &&& match state.edge {
                    Edge::Top => x == event.x && y == b.min_y + 12 * 256,
                    Edge::Bottom => x == event.x && y == b.max_y - 13 * 256,
                    Edge::Left => x == b.min_x + 12 * 256 && y == event.y,
                    Edge::Right => x == b.max_x - 13 * 256 && y == event.y,
                }
            } else {
                after.along == state.along && after.fraction == state.fraction
            }
        }),
{
    let b = state.bounds;
    let flat = state.edge == Edge::Top || state.edge == Edge::Bottom;
    let from: int = if flat {
        event.x - b.min_x
    } else {
        event.y - b.min_y
    };
    let length: int = if flat {
        b.max_x - b.min_x
    } else {
        b.max_y - b.min_y
    };
    let q = from * WHOLE / length;
    assert(0 <= from * 0x1_0000_0000 - q * length < length) by (nonlinear_arith)
        requires
            q == from * 0x1_0000_0000 / length,
            length > 0,
    ;
    assert(from >= length ==> q >= 0x1_0000_0000) by (nonlinear_arith)
        requires
            q == from * 0x1_0000_0000 / length,
            length > 0,
    ;
    assert(from <= length ==> q <= 0x1_0000_0000) by (nonlinear_arith)
        requires
            q == from * 0x1_0000_0000 / length,
            length > 0,
    ;
    assert(0 * length == 0);
}

/// Where the peer says that focus comes home, a parked cursor goes to the
/// place on this machine that is as far from the anchor, twelve units inward
/// of the edge; a place that does not face the peer goes to the nearest one
/// that does. Nothing else changes.
pub proof fn law_focus_comes_home_where_the_peer_said(state: CaptureState, side: Side, along: i64, i: int, place: int)
    requires
        match state.edge {
            Edge::Top => side == Side::Top,
            Edge::Bottom => side == Side::Bottom,
            Edge::Left => side == Side::Left,
            Edge::Right => side == Side::Right,
        },
        state.screen.laid_out(),
        crate::screen::in_whole_units(state.screen.monitors, side),
        0 < state.screen.monitors.len() <= usize::MAX,
        state.screen.outward(i, side, place),
        state.parked is Some,
    ensures
        ({
            let after = state.came_home(along as int);
            let heading = along + state.screen.anchor_on(side, state.anchor);
            &&& after == CaptureState { parked: after.parked, ..state }
            &&& after.parked matches Some((x, y))
            &&& crate::screen::apart(
                if side == Side::Top || side == Side::Bottom {
                    x as int
                } else {
                    y as int
                },
                heading,
            ) <= crate::screen::apart(place, heading) + 256
            &&& exists|j: int|
                {
                    &&& 0 <= j < state.screen.monitors.len()
                    &&& (#[trigger] state.screen.monitors[j]).has(x as int, y as int)
                    &&& match side {
                        Side::Top => state.screen.monitors[j].max_y - state.screen.monitors[j].min_y >= 13 * 256 ==> y
                            == state.screen.monitors[j].min_y + 12 * 256,
                        Side::Bottom => state.screen.monitors[j].max_y - state.screen.monitors[j].min_y >= 13 * 256
                            ==> y == state.screen.monitors[j].max_y - 13 * 256,
                        Side::Left => state.screen.monitors[j].max_x - state.screen.monitors[j].min_x >= 13 * 256
                            ==> x == state.screen.monitors[j].min_x + 12 * 256,
                        Side::Right => state.screen.monitors[j].max_x - state.screen.monitors[j].min_x >= 13 * 256
                            ==> x == state.screen.monitors[j].max_x - 13 * 256,
                    }
                }
        }),
{
    let heading = along + state.screen.anchor_on(side, state.anchor);
    crate::screen::law_a_landing_is_never_at_the_edge(state.screen, side, heading, EDGE_MARGIN as int);
    crate::screen::law_no_outward_place_is_nearer_than_the_landing(
        state.screen,
        side,
        heading,
        EDGE_MARGIN as int,
        i,
        place,
    );
    let j = state.screen.arrival(side, heading).0.monitor as int;
    let m = state.screen.monitors[j];
    assert(m.max_x - m.min_x > UNIT && m.max_y - m.min_y > UNIT);
    let (x, y) = state.screen.landing_at(side, heading, EDGE_MARGIN as int)->0;
    assert(state.screen.monitors[j].has(x, y));
}

/// A full queue is worth a line at once, and then every five seconds.
pub proof fn law_a_flood_is_logged_every_five_seconds(logged: nat, now: nat)
    ensures
        worth_logging(None, now),
        worth_logging(Some(logged), now) <==> now - logged >= 5_000_000_000,
{
}

/// The watchdog leaves a tap alone for five seconds after an event. After
/// that it switches it on exactly if it is there and off, and gives up
/// exactly if it is gone.
pub proof fn law_the_watchdog_switches_on_only_what_is_off(elapsed: nat, enabled: Option<bool>)
    ensures
        watched(elapsed, enabled) == WatchdogAction::Wait <==> elapsed < 5_000_000_000,
        watched(elapsed, enabled) == WatchdogAction::Reenable <==> elapsed >= 5_000_000_000 && enabled == Some(false),
        watched(elapsed, enabled) == WatchdogAction::Stop <==> elapsed >= 5_000_000_000 && enabled is None,
        WATCHDOG_POLL_SECS == 1,
{
}

/// However small the desktop, a cursor that comes back keeps its place along
/// the edge and lands on the desktop, twelve units off the edge where there
/// are that many.
pub proof fn law_a_returning_cursor_stays_on_a_small_desktop(edge: Edge, x: int, y: int, bounds: Bounds)
    requires
        bounds.min_x <= bounds.max_x,
        bounds.min_y <= bounds.max_y,
    ensures
        ({
            let (nx, ny) = nudged(edge, x, y, bounds);
            let wide = bounds.max_x - bounds.min_x >= 13 * 256;
            let high = bounds.max_y - bounds.min_y >= 13 * 256;
            match edge {
                Edge::Top => nx == x && ny <= bounds.max_y && (!high && ny == bounds.max_y || ny - bounds.min_y == 12 * 256),
                Edge::Bottom => nx == x && ny >= bounds.min_y && (!high && ny == bounds.min_y || bounds.max_y - ny == 13 * 256),
                Edge::Left => ny == y && nx <= bounds.max_x && (!wide && nx == bounds.max_x || nx - bounds.min_x == 12 * 256),
                Edge::Right => ny == y && nx >= bounds.min_x && (!wide && nx == bounds.min_x || bounds.max_x - nx == 13 * 256),
            }
        }),
{
}

/// How far along a short edge a crossing is, is counted as on one of a unit,
/// and never out of the whole.
pub proof fn law_a_fraction_is_part_of_the_whole(edge: Edge, x: int, y: int, bounds: Bounds)
    ensures
        0 <= fraction_at(edge, x, y, bounds) <= 0x1_0000_0000,
{
    let (from, length) = if edge == Edge::Top || edge == Edge::Bottom {
        (x - bounds.min_x, bounds.max_x - bounds.min_x)
    } else {
        (y - bounds.min_y, bounds.max_y - bounds.min_y)
    };
    let wide = larger(length, UNIT as int);
    if from > 0 {
        assert(from * 0x1_0000_0000 / wide >= 0) by (nonlinear_arith)
            requires
                from > 0,
                wide > 0,
        ;
    }
}

/// Where no cursor is parked, none is put anywhere by what the peer says.
pub proof fn law_without_a_parked_cursor_nothing_comes_home(state: CaptureState, along: int)
    requires
        state.parked is None,
    ensures
        state.came_home(along) == state,
{
}

} // verus!
