//! What the PC's input system is handed for an event.
//!
//! Reading the cursor, listing the monitors and handing the records over
//! are the caller's.

use vstd::prelude::*;

use crate::device::{DeviceError, InputEvent};
use crate::keys::Usage;
use crate::message::Button;
use crate::screen;
use crate::screen::{steps, whole, Screen, ScreenModel, Side, WHOLE};
use crate::text::decimal_text;
use crate::time::{Duration, Instant};
use crate::windows::keymap;
use crate::windows::keymap::usage_to_scancode;
use crate::windows::return_edge;
use crate::windows::return_edge::{return_crossing, ReturnEdge};

verus! {

pub const KEYEVENTF_EXTENDEDKEY: u32 = 0x0001;
pub const KEYEVENTF_KEYUP: u32 = 0x0002;
pub const KEYEVENTF_SCANCODE: u32 = 0x0008;

pub const MOUSEEVENTF_MOVE: u32 = 0x0001;
pub const MOUSEEVENTF_LEFTDOWN: u32 = 0x0002;
pub const MOUSEEVENTF_LEFTUP: u32 = 0x0004;
pub const MOUSEEVENTF_RIGHTDOWN: u32 = 0x0008;
pub const MOUSEEVENTF_RIGHTUP: u32 = 0x0010;
pub const MOUSEEVENTF_MIDDLEDOWN: u32 = 0x0020;
pub const MOUSEEVENTF_MIDDLEUP: u32 = 0x0040;
pub const MOUSEEVENTF_WHEEL: u32 = 0x0800;
pub const MOUSEEVENTF_HWHEEL: u32 = 0x1000;
pub const MOUSEEVENTF_VIRTUALDESK: u32 = 0x4000;
pub const MOUSEEVENTF_ABSOLUTE: u32 = 0x8000;

/// How much of a wheel's turn is one notch.
pub const WHEEL_DELTA: i32 = 120;

/// The largest absolute coordinate; the smallest is 0.
pub const ABSOLUTE_MAX: i32 = 65535;

/// A key record.
#[derive(Debug, Clone, Copy, PartialEq, Eq, Structural)]
pub struct KeyInput {
    pub scancode: u16,
    pub flags: u32,
}

/// A mouse record.
#[derive(Debug, Clone, Copy, PartialEq, Eq, Structural)]
pub struct MouseInput {
    pub dx: i32,
    pub dy: i32,
    /// The wheel's turn.
    pub data: i32,
    pub flags: u32,
}

/// One record for the input system.
#[derive(Debug, Clone, Copy, PartialEq, Eq, Structural)]
pub enum Input {
    Key(KeyInput),
    Mouse(MouseInput),
}

/// The record for a key, if it has a scan code. Going by the scan code
/// leaves it to the PC's own keyboard layout which character comes out.
pub open spec fn key_record(usage: Usage, pressed: bool) -> Option<KeyInput> {
    match keymap::scancode_of(usage) {
        None => None,
        Some((scancode, extended)) => Some(
            KeyInput {
                scancode,
                flags: match (extended, pressed) {
                    (false, true) => KEYEVENTF_SCANCODE,
                    (false, false) => KEYEVENTF_SCANCODE | KEYEVENTF_KEYUP,
                    (true, true) => KEYEVENTF_SCANCODE | KEYEVENTF_EXTENDEDKEY,
                    (true, false) => KEYEVENTF_SCANCODE | KEYEVENTF_EXTENDEDKEY | KEYEVENTF_KEYUP,
                },
            },
        ),
    }
}

/// The record for a key going down or up, or `None` if the key has no scan
/// code.
pub fn key_input(usage: Usage, pressed: bool) -> (r: Option<KeyInput>)
    ensures
        r == key_record(usage, pressed),
{
    match usage_to_scancode(usage) {
        None => None,
        Some((scancode, extended)) => {
            let mut flags: u32 = KEYEVENTF_SCANCODE;
            if extended {
                flags = flags | KEYEVENTF_EXTENDEDKEY;
            }
            if !pressed {
                flags = flags | KEYEVENTF_KEYUP;
            }
            Some(KeyInput { scancode, flags })
        },
    }
}

/// The record for a relative motion.
pub fn mouse_move_input(dx: i32, dy: i32) -> (r: MouseInput)
    ensures
        r == (MouseInput { dx, dy, data: 0, flags: MOUSEEVENTF_MOVE }),
{
    MouseInput { dx, dy, data: 0, flags: MOUSEEVENTF_MOVE }
}

/// A coordinate in parts of the whole desktop, to the nearest part.
pub open spec fn normalised(at: int, from: int, length: int) -> int {
    let wide = if length < 1 {
        1
    } else {
        length
    };
    if at <= from {
        0
    } else {
        screen::clamped((2 * (at - from) * ABSOLUTE_MAX + wide) / (2 * wide), 0, ABSOLUTE_MAX as int)
    }
}

fn normalise(at: i32, from: i32, length: i32) -> (r: i32)
    ensures
        r == normalised(at as int, from as int, length as int),
        0 <= r <= ABSOLUTE_MAX,
{
    let wide: i128 = if length < 1 {
        1
    } else {
        length as i128
    };
    if at <= from {
        return 0;
    }
    let offset: i128 = at as i128 - from as i128;
    let twice: i128 = 2 * offset * 65535 + wide;
    let parts: i128 = twice / (2 * wide);
    assert(parts >= 0) by (nonlinear_arith)
        requires
            twice >= 0,
            wide >= 1,
            parts == twice as int / (2 * wide),
    ;
    if parts > ABSOLUTE_MAX as i128 {
        ABSOLUTE_MAX
    } else {
        parts as i32
    }
}

/// A desktop: where it begins, how wide and how high it is, in pixels.
#[derive(Debug, Clone, Copy, PartialEq, Eq, Structural)]
pub struct Desktop {
    pub left: i32,
    pub top: i32,
    pub width: i32,
    pub height: i32,
}

/// The record for moving the cursor to a place of the desktop.
pub open spec fn absolute_record(x: int, y: int, desktop: Desktop) -> MouseInput {
    MouseInput {
        dx: normalised(x, desktop.left as int, desktop.width as int) as i32,
        dy: normalised(y, desktop.top as int, desktop.height as int) as i32,
        data: 0,
        flags: MOUSEEVENTF_MOVE | MOUSEEVENTF_ABSOLUTE | MOUSEEVENTF_VIRTUALDESK,
    }
}

/// The record for moving the cursor to a place of the desktop, in pixels.
///
/// A relative motion would be put through the PC's pointer acceleration on
/// top of the one that the Mac has already applied. An absolute place is
/// not, so the cursor lands exactly where the Mac's motion says.
pub fn mouse_move_absolute_input(x: i32, y: i32, desktop: Desktop) -> (r: MouseInput)
    ensures
        r == absolute_record(x as int, y as int, desktop),
{
    MouseInput {
        dx: normalise(x, desktop.left, desktop.width),
        dy: normalise(y, desktop.top, desktop.height),
        data: 0,
        flags: MOUSEEVENTF_MOVE | MOUSEEVENTF_ABSOLUTE | MOUSEEVENTF_VIRTUALDESK,
    }
}

/// The flag of a button going down or up.
pub open spec fn button_flag(button: Button, pressed: bool) -> u32 {
    match (button, pressed) {
        (Button::Left, true) => MOUSEEVENTF_LEFTDOWN,
        (Button::Left, false) => MOUSEEVENTF_LEFTUP,
        (Button::Right, true) => MOUSEEVENTF_RIGHTDOWN,
        (Button::Right, false) => MOUSEEVENTF_RIGHTUP,
        (Button::Middle, true) => MOUSEEVENTF_MIDDLEDOWN,
        (Button::Middle, false) => MOUSEEVENTF_MIDDLEUP,
    }
}

/// The record for a mouse button going down or up.
pub fn button_input(button: Button, pressed: bool) -> (r: MouseInput)
    ensures
        r == (MouseInput { dx: 0, dy: 0, data: 0, flags: button_flag(button, pressed) }),
{
    let flags: u32 = match (button, pressed) {
        (Button::Left, true) => MOUSEEVENTF_LEFTDOWN,
        (Button::Left, false) => MOUSEEVENTF_LEFTUP,
        (Button::Right, true) => MOUSEEVENTF_RIGHTDOWN,
        (Button::Right, false) => MOUSEEVENTF_RIGHTUP,
        (Button::Middle, true) => MOUSEEVENTF_MIDDLEDOWN,
        (Button::Middle, false) => MOUSEEVENTF_MIDDLEUP,
    };
    MouseInput { dx: 0, dy: 0, data: 0, flags }
}

/// How far the wheel turns for a number of notches, within what a record
/// can say.
pub open spec fn wheel_turn(units: int) -> int {
    screen::clamped(units * WHEEL_DELTA, i32::MIN as int, i32::MAX as int)
}

/// How far the wheel turns for a number of notches. Too many saturate.
pub fn wheel_delta(units: i32) -> (r: i32)
    ensures
        r == wheel_turn(units as int),
{
    let turn: i64 = units as i64 * WHEEL_DELTA as i64;
    if turn > i32::MAX as i64 {
        i32::MAX
    } else if turn < i32::MIN as i64 {
        i32::MIN
    } else {
        turn as i32
    }
}

/// The records for scrolling: one for each direction that there is any in.
pub open spec fn scroll_records(dx: int, dy: int) -> Seq<MouseInput> {
    (if dy != 0 {
        seq![MouseInput { dx: 0, dy: 0, data: wheel_turn(dy) as i32, flags: MOUSEEVENTF_WHEEL }]
    } else {
        Seq::empty()
    }) + (if dx != 0 {
        seq![MouseInput { dx: 0, dy: 0, data: wheel_turn(dx) as i32, flags: MOUSEEVENTF_HWHEEL }]
    } else {
        Seq::empty()
    })
}

/// The records for scrolling. Up and down is one kind of record, sideways
/// another.
pub fn scroll_inputs(dx: i32, dy: i32) -> (r: Vec<MouseInput>)
    ensures
        r@ == scroll_records(dx as int, dy as int),
{
    let mut inputs: Vec<MouseInput> = Vec::new();
    if dy != 0 {
        inputs.push(MouseInput { dx: 0, dy: 0, data: wheel_delta(dy), flags: MOUSEEVENTF_WHEEL });
    }
    if dx != 0 {
        inputs.push(MouseInput { dx: 0, dy: 0, data: wheel_delta(dx), flags: MOUSEEVENTF_HWHEEL });
    }
    assert(inputs@ =~= scroll_records(dx as int, dy as int));
    inputs
}

/// What became of handing records over: fewer taken than offered is a
/// failure, which carries the system's code.
pub fn delivered(sent: u32, offered: u32, code: u32) -> (r: Result<(), DeviceError>)
    ensures
        r is Ok <==> sent >= offered,
        r matches Err(e) ==> e->Rejected_0@ == "SendInput inserted "@ + crate::text::decimal(sent as nat)
            + " of "@ + crate::text::decimal(offered as nat) + " events (GetLastError = "@
            + crate::text::decimal(code as nat) + ")"@,
{
    if sent >= offered {
        return Ok(());
    }
    let reason: String = "SendInput inserted ".to_owned().concat(decimal_text(sent as u64).as_str()).concat(
        " of ",
    ).concat(decimal_text(offered as u64).as_str()).concat(" events (GetLastError = ").concat(
        decimal_text(code as u64).as_str(),
    ).concat(")");
    Err(DeviceError::Rejected(reason))
}

/// The whole steps in a scaled distance, towards zero.
pub open spec fn towards_zero(wanted: int) -> int {
    if wanted >= 0 {
        wanted / (WHOLE as int)
    } else {
        -((-wanted) / (WHOLE as int))
    }
}

/// What is left of a scaled distance once its whole steps are taken.
pub open spec fn left_over(wanted: int) -> int {
    wanted - towards_zero(wanted) * WHOLE
}

/// A scaled distance as a record can say it.
pub open spec fn scaled(wanted: int) -> int {
    screen::clamped(towards_zero(wanted), i32::MIN as int, i32::MAX as int)
}

fn scale_one(d: i32, scale: i64, remainder: i64) -> (r: (i32, i64))
    ensures
        r.0 == scaled(d * scale + remainder),
        r.1 == left_over(d * scale + remainder),
        -WHOLE < r.1 < WHOLE,
{
    assert(-0x8000_0000 * 0x8000_0000_0000_0000 <= d * scale <= 0x8000_0000 * 0x8000_0000_0000_0000)
        by (nonlinear_arith)
        requires
            -0x8000_0000 <= d <= 0x8000_0000,
            -0x8000_0000_0000_0000 <= scale <= 0x8000_0000_0000_0000,
    ;
    let wanted: i128 = d as i128 * scale as i128 + remainder as i128;
    let steps: i128 = if wanted >= 0 {
        wanted / WHOLE as i128
    } else {
        -((-wanted) / WHOLE as i128)
    };
    let rest: i128 = wanted - steps * WHOLE as i128;
    let out: i32 = if steps > i32::MAX as i128 {
        i32::MAX
    } else if steps < i32::MIN as i128 {
        i32::MIN
    } else {
        steps as i32
    };
    (out, rest as i64)
}

/// Applies a scale to a motion. The scale, and what is carried over to the
/// next motion so that slow movement is not rounded away, are counted in
/// the same parts as a fraction of an edge.
pub fn scale_delta(dx: i32, dy: i32, scale: i64, remainder: &mut (i64, i64)) -> (r: (i32, i32))
    ensures
        r.0 == scaled(dx * scale + old(remainder).0),
        r.1 == scaled(dy * scale + old(remainder).1),
        final(remainder).0 == left_over(dx * scale + old(remainder).0),
        final(remainder).1 == left_over(dy * scale + old(remainder).1),
{
    let (out_x, rest_x) = scale_one(dx, scale, remainder.0);
    let (out_y, rest_y) = scale_one(dy, scale, remainder.1);
    *remainder = (rest_x, rest_y);
    (out_x, out_y)
}

/// The steps and the remainder after several motions in one direction.
pub open spec fn travelled(motions: Seq<i32>, scale: int) -> (int, int)
    decreases motions.len(),
{
    if motions.len() == 0 {
        (0, 0)
    } else {
        let (steps, remainder) = travelled(motions.drop_last(), scale);
        let wanted = motions.last() * scale + remainder;
        (steps + towards_zero(wanted), left_over(wanted))
    }
}

/// Several motions together.
pub open spec fn distance_of(motions: Seq<i32>) -> int
    decreases motions.len(),
{
    if motions.len() == 0 {
        0
    } else {
        distance_of(motions.drop_last()) + motions.last()
    }
}

/// However slow the motions and however small the scale, nothing is lost:
/// the steps and what is left over add up to the scaled distance, and less
/// than a step is left.
pub proof fn law_slow_movement_adds_up(motions: Seq<i32>, scale: int)
    ensures
        ({
            let (steps, remainder) = travelled(motions, scale);
            &&& steps * WHOLE + remainder == distance_of(motions) * scale
            &&& -WHOLE < remainder < WHOLE
        }),
    decreases motions.len(),
{
    if motions.len() > 0 {
        law_slow_movement_adds_up(motions.drop_last(), scale);
        let before = distance_of(motions.drop_last());
        let last = motions.last() as int;
        assert((before + last) * scale == before * scale + last * scale) by (nonlinear_arith);
    }
}

/// A scale of one changes nothing.
pub proof fn law_a_scale_of_one_changes_nothing(d: i32)
    ensures
        scaled(d * (WHOLE as int)) == d,
        left_over(d * (WHOLE as int)) == 0,
{
}

/// How far inside the screen an arriving cursor lands.
pub const ENTRY_MARGIN: i32 = 12 * 256;

/// For how long after a release the edge is not asked about again, in
/// milliseconds. Motions that are still on their way would each find the
/// cursor at the edge. It clears by itself, so it can never get stuck.
pub const RELEASE_SUPPRESS_MILLIS: u64 = 500;

/// What the PC goes by when it injects events.
#[derive(Debug)]
pub struct WindowsInjector {
    return_edge: Option<ReturnEdge>,
    anchor: Option<i64>,
    suppress_release_until: Option<Instant>,
    mouse_scale: i64,
    scale_remainder: (i64, i64),
}

/// What a [`WindowsInjector`] goes by.
#[verifier::ext_equal]
pub struct InjectorState {
    pub return_edge: Option<ReturnEdge>,
    pub anchor: Option<i64>,
    pub suppressed_until: Option<nat>,
    pub scale: int,
    pub remainder: (int, int),
}

impl View for WindowsInjector {
    type V = InjectorState;

    closed spec fn view(&self) -> InjectorState {
        InjectorState {
            return_edge: self.return_edge,
            anchor: self.anchor,
            suppressed_until: match self.suppress_release_until {
                None => None,
                Some(at) => Some(at@),
            },
            scale: self.mouse_scale as int,
            remainder: (self.scale_remainder.0 as int, self.scale_remainder.1 as int),
        }
    }
}

impl InjectorState {
    /// How far a motion goes once it is scaled.
    pub open spec fn moved(self, dx: int, dy: int) -> (int, int) {
        (scaled(dx * self.scale + self.remainder.0), scaled(dy * self.scale + self.remainder.1))
    }

    /// The state once an event was injected.
    pub open spec fn injected(self, event: InputEvent) -> InjectorState {
        match event {
            InputEvent::Mouse { dx, dy } => InjectorState {
                remainder: (
                    left_over(dx * self.scale + self.remainder.0),
                    left_over(dy * self.scale + self.remainder.1),
                ),
                ..self
            },
            _ => self,
        }
    }

    /// The side at which focus arrives, which is the one it leaves by.
    pub open spec fn entry_side(self) -> Side {
        match self.return_edge {
            Some(edge) => return_edge::side_of(edge),
            None => Side::Bottom,
        }
    }

    /// The records for a motion: none if it scales to nothing, a relative
    /// one if it is not known where the cursor is.
    pub open spec fn motion_records(
        self,
        dx: int,
        dy: int,
        cursor: Option<(i32, i32)>,
        screen: ScreenModel,
        desktop: Desktop,
    ) -> Seq<Input> {
        let (mx, my) = self.moved(dx, dy);
        if mx == 0 && my == 0 {
            Seq::empty()
        } else {
            match cursor {
                None => seq![
                    Input::Mouse(
                        MouseInput { dx: mx as i32, dy: my as i32, data: 0, flags: MOUSEEVENTF_MOVE },
                    ),
                ],
                Some((cx, cy)) => {
                    let (kx, ky) = screen.kept_on(
                        screen::in_steps(screen::clamped(cx + mx, i32::MIN as int, i32::MAX as int)),
                        screen::in_steps(screen::clamped(cy + my, i32::MIN as int, i32::MAX as int)),
                    );
                    seq![
                        Input::Mouse(
                            absolute_record(
                                kx / (screen::UNIT as int),
                                ky / (screen::UNIT as int),
                                desktop,
                            ),
                        ),
                    ]
                },
            }
        }
    }

    /// The records for focus arriving at a place relative to the anchor.
    pub open spec fn entry_records(self, along: int, screen: ScreenModel, desktop: Desktop) -> Seq<Input> {
        let side = self.entry_side();
        match screen.landing_at(
            side,
            screen::clamped(
                along + screen.anchor_on(side, self.anchor),
                i64::MIN as int,
                i64::MAX as int,
            ),
            ENTRY_MARGIN as int,
        ) {
            None => Seq::empty(),
            Some((x, y)) => seq![
                Input::Mouse(
                    absolute_record(x / (screen::UNIT as int), y / (screen::UNIT as int), desktop),
                ),
            ],
        }
    }

    /// The records for an event.
    pub open spec fn records(
        self,
        event: InputEvent,
        entry: int,
        cursor: Option<(i32, i32)>,
        screen: ScreenModel,
        desktop: Desktop,
    ) -> Seq<Input> {
        match event {
            InputEvent::EdgeCrossed => Seq::empty(),
            InputEvent::Mouse { dx, dy } => self.motion_records(
                dx as int,
                dy as int,
                cursor,
                screen,
                desktop,
            ),
            InputEvent::Enter { .. } => self.entry_records(entry, screen, desktop),
            InputEvent::Button { button, pressed } => seq![
                Input::Mouse(
                    MouseInput { dx: 0, dy: 0, data: 0, flags: button_flag(button, pressed) },
                ),
            ],
            InputEvent::Scroll { dx, dy } => scroll_records(dx as int, dy as int).map_values(
                |m: MouseInput| Input::Mouse(m),
            ),
            InputEvent::Key { usage, pressed } => match key_record(usage, pressed) {
                Some(key) => seq![Input::Key(key)],
                None => Seq::empty(),
            },
        }
    }

    /// Whether the edge is not to be asked about.
    pub open spec fn suppressed(self, now: nat) -> bool {
        match self.suppressed_until {
            Some(until) => now < until,
            None => false,
        }
    }

    /// Where along the return edge focus goes back, if it does.
    pub open spec fn comes_back(self, cursor: Option<(i32, i32)>, screen: ScreenModel, now: nat) -> Option<int> {
        match self.return_edge {
            None => None,
            Some(edge) => if self.suppressed(now) {
                None
            } else {
                return_edge::return_at(edge, self.anchor, screen, cursor)
            },
        }
    }

    /// The state once the edge was asked about.
    pub open spec fn asked(self, cursor: Option<(i32, i32)>, screen: ScreenModel, now: nat) -> InjectorState {
        let until = (now + RELEASE_SUPPRESS_MILLIS * 1_000_000) as nat;
        if self.return_edge is None || self.suppressed(now) {
            self
        } else {
            InjectorState {
                suppressed_until: if self.comes_back(cursor, screen, now) is Some && until
                    <= crate::time::MAX_NANOS {
                    Some(until)
                } else {
                    None
                },
                ..self
            }
        }
    }
}

fn within_i32(n: i64) -> (r: i32)
    ensures
        r == screen::clamped(n as int, i32::MIN as int, i32::MAX as int),
{
    if n < i32::MIN as i64 {
        i32::MIN
    } else if n > i32::MAX as i64 {
        i32::MAX
    } else {
        n as i32
    }
}

/// The releases of the first `n` modifiers.
pub open spec fn modifier_ups(n: nat) -> Seq<Input>
    decreases n,
{
    if n == 0 {
        Seq::empty()
    } else {
        let before = modifier_ups((n - 1) as nat);
        match key_record(Usage((0xE0 + n - 1) as u16), false) {
            Some(key) => before.push(Input::Key(key)),
            None => before,
        }
    }
}

impl WindowsInjector {
    /// `return_edge` is the edge whose crossing hands focus back; without
    /// one only the escape or a dead link bring it home. `anchor` is the
    /// configured place of the anchor along it. `mouse_scale` is applied to
    /// incoming motion.
    pub fn new(return_edge: Option<ReturnEdge>, anchor: Option<i64>, mouse_scale: i64) -> (r: WindowsInjector)
        ensures
            r@ == (InjectorState {
                return_edge,
                anchor,
                suppressed_until: None,
                scale: mouse_scale as int,
                remainder: (0, 0),
            }),
    {
        WindowsInjector {
            return_edge,
            anchor,
            suppress_release_until: None,
            mouse_scale,
            scale_remainder: (0, 0),
        }
    }

    /// A release for every modifier, whatever is held.
    ///
    /// If the program dies while a modifier is down, nothing in it can let
    /// go of the key any more. So the next run does that before it injects
    /// anything. Releasing a key that is not down is harmless.
    pub fn release_all_modifiers(&self) -> (r: Vec<Input>)
        ensures
            r@ == modifier_ups(8),
    {
        let mut out: Vec<Input> = Vec::new();
        let mut i: u16 = 0;
        while i < 8
            invariant
                i <= 8,
                out@ == modifier_ups(i as nat),
            decreases 8 - i,
        {
            if let Some(key) = key_input(Usage(0xE0 + i), false) {
                out.push(Input::Key(key));
            }
            i = i + 1;
        }
        out
    }

    /// The records for an event. `entry` is where focus arrives, relative
    /// to the anchor, and matters to an arrival only. `cursor` is where the
    /// cursor is, in pixels, if that can be read.
    pub fn inputs_for(
        &mut self,
        event: &InputEvent,
        entry: i64,
        cursor: Option<(i32, i32)>,
        screen: &Screen,
        desktop: Desktop,
    ) -> (r: Vec<Input>)
        ensures
            r@ == old(self)@.records(*event, entry as int, cursor, screen@, desktop),
            final(self)@ == old(self)@.injected(*event),
    {
        let mut out: Vec<Input> = Vec::new();
        match event {
            InputEvent::EdgeCrossed => {},
            InputEvent::Mouse { dx, dy } => {
                let (mx, my) = scale_delta(*dx, *dy, self.mouse_scale, &mut self.scale_remainder);
                if mx != 0 || my != 0 {
                    match cursor {
                        None => {
                            out.push(Input::Mouse(mouse_move_input(mx, my)));
                        },
                        Some((cx, cy)) => {
                            let (kx, ky) = screen.clamp_to_monitors(
                                steps(within_i32(cx as i64 + mx as i64)),
                                steps(within_i32(cy as i64 + my as i64)),
                            );
                            out.push(
                                Input::Mouse(mouse_move_absolute_input(whole(kx), whole(ky), desktop)),
                            );
                        },
                    }
                }
            },
            InputEvent::Enter { .. } => {
                let side: Side = match self.return_edge {
                    Some(edge) => Side::from(edge),
                    None => Side::Bottom,
                };
                let at: i128 = entry as i128 + screen.anchor(side, self.anchor) as i128;
                let along: i64 = if at > i64::MAX as i128 {
                    i64::MAX
                } else if at < i64::MIN as i128 {
                    i64::MIN
                } else {
                    at as i64
                };
                if let Some((x, y)) = screen.landing(side, along, ENTRY_MARGIN) {
                    out.push(Input::Mouse(mouse_move_absolute_input(whole(x), whole(y), desktop)));
                }
            },
            InputEvent::Button { button, pressed } => {
                out.push(Input::Mouse(button_input(*button, *pressed)));
            },
            InputEvent::Scroll { dx, dy } => {
                let all: Vec<MouseInput> = scroll_inputs(*dx, *dy);
                let mut i: usize = 0;
                while i < all.len()
                    invariant
                        i <= all@.len(),
                        out@ == all@.take(i as int).map_values(|m: MouseInput| Input::Mouse(m)),
                    decreases all@.len() - i,
                {
                    out.push(Input::Mouse(all[i]));
                    i = i + 1;
                    assert(out@ =~= all@.take(i as int).map_values(|m: MouseInput| Input::Mouse(m)));
                }
                assert(all@.take(i as int) =~= all@);
            },
            InputEvent::Key { usage, pressed } => {
                if let Some(key) = key_input(*usage, *pressed) {
                    out.push(Input::Key(key));
                }
            },
        }
        assert(out@ =~= old(self)@.records(*event, entry as int, cursor, screen@, desktop));
        out
    }

    /// Asked after a motion was injected: where along the return edge,
    /// relative to the anchor, the cursor stands, if it has reached it.
    pub fn reached_return_edge(&mut self, cursor: Option<(i32, i32)>, screen: &Screen, now: Instant) -> (r: Option<i64>)
        ensures
            match r {
                None => old(self)@.comes_back(cursor, screen@, now@) is None,
                Some(along) => old(self)@.comes_back(cursor, screen@, now@) == Some(along as int),
            },
            final(self)@ == old(self)@.asked(cursor, screen@, now@),
    {
        let edge: ReturnEdge = match self.return_edge {
            None => {
                return None;
            },
            Some(edge) => edge,
        };
        if let Some(until) = self.suppress_release_until {
            if now.before(until) {
                return None;
            }
            self.suppress_release_until = None;
        }
        match return_crossing(edge, self.anchor, screen, cursor) {
            None => None,
            Some(along) => {
                self.suppress_release_until = now.checked_add(
                    Duration::from_millis(RELEASE_SUPPRESS_MILLIS),
                );
                Some(along)
            },
        }
    }
}

/// A release is asked for once: within the window that follows, the edge
/// is not asked about again, and after it it is.
pub proof fn law_a_release_is_not_repeated_within_the_window(
    state: InjectorState,
    cursor: Option<(i32, i32)>,
    screen: ScreenModel,
    asked: nat,
    cursor2: Option<(i32, i32)>,
    now: nat,
)
    requires
        state.comes_back(cursor, screen, asked) is Some,
        asked + RELEASE_SUPPRESS_MILLIS * 1_000_000 <= crate::time::MAX_NANOS,
    ensures
        ({
            let after = state.asked(cursor, screen, asked);
            &&& now < asked + RELEASE_SUPPRESS_MILLIS * 1_000_000 ==> after.comes_back(
                cursor2,
                screen,
                now,
            ) is None
            &&& now >= asked + RELEASE_SUPPRESS_MILLIS * 1_000_000 ==> after.comes_back(
                cursor2,
                screen,
                now,
            ) == return_edge::return_at(state.return_edge->0, state.anchor, screen, cursor2)
        }),
{
}

/// Every one of the eight modifiers is released.
pub proof fn law_every_modifier_is_released()
    ensures
        modifier_ups(8).len() == 8,
        forall|i: int|
            0 <= i < 8 ==> Some(#[trigger] modifier_ups(8)[i]) == (match key_record(
                Usage((0xE0 + i) as u16),
                false,
            ) {
                Some(key) => Some(Input::Key(key)),
                None => None,
            }),
{
    lemma_modifier_ups(8);
}

proof fn lemma_modifier_ups(n: nat)
    requires
        n <= 8,
    ensures
        modifier_ups(n).len() == n,
        forall|i: int|
            0 <= i < n ==> Some(#[trigger] modifier_ups(n)[i]) == (match key_record(
                Usage((0xE0 + i) as u16),
                false,
            ) {
                Some(key) => Some(Input::Key(key)),
                None => None,
            }),
    decreases n,
{
    if n > 0 {
        lemma_modifier_ups((n - 1) as nat);
        keymap::lemma_modifiers_are_known(Usage((0xE0 + n - 1) as u16));
    }
}

/// Whether a key record says that a key went down or up: it goes by the scan
/// code, is marked as extended exactly if the key is, and as a release exactly
/// if it is one, and says nothing else.
pub open spec fn key_says(key: KeyInput, code: u16, extended: bool, pressed: bool) -> bool {
    &&& key.scancode == code
    &&& key.flags & 0x0008 == 0x0008
    &&& key.flags & 0x0001 == if extended {
        1u32
    } else {
        0
    }
    &&& key.flags & 0x0002 == if pressed {
        0u32
    } else {
        2
    }
    &&& key.flags & !0x000Bu32 == 0
}

proof fn lemma_key_flags(flags: u32, extended: bool, pressed: bool)
    requires
        flags == match (extended, pressed) {
            (false, true) => 0x0008u32,
            (false, false) => 0x0008u32 | 0x0002u32,
            (true, true) => 0x0008u32 | 0x0001u32,
            (true, false) => 0x0008u32 | 0x0001u32 | 0x0002u32,
        },
    ensures
        flags & 0x0008 == 0x0008,
        flags & 0x0001 == if extended {
            1u32
        } else {
            0
        },
        flags & 0x0002 == if pressed {
            0u32
        } else {
            2
        },
        flags & !0x000Bu32 == 0,
{
    assert(forall|e: bool, p: bool, f: u32|
        f == (if e {
            if p {
                0x0008u32 | 0x0001u32
            } else {
                0x0008u32 | 0x0001u32 | 0x0002u32
            }
        } else {
            if p {
                0x0008u32
            } else {
                0x0008u32 | 0x0002u32
            }
        }) ==> #[trigger] key_bits(f, e, p)) by (bit_vector);
    assert(key_bits(flags, extended, pressed));
}

/// What the bits of a key record's flags say.
spec fn key_bits(flags: u32, extended: bool, pressed: bool) -> bool {
    flags & 0x0008 == 0x0008 && flags & 0x0001 == (if extended {
        1u32
    } else {
        0
    }) && flags & 0x0002 == (if pressed {
        0u32
    } else {
        2
    }) && flags & !0x000Bu32 == 0
}

/// A key that has a scan code goes down where it is pressed and up where it is
/// released, extended or not. A key that has none is not typed.
pub proof fn law_a_key_goes_down_and_up(
    state: InjectorState,
    usage: Usage,
    pressed: bool,
    entry: int,
    cursor: Option<(i32, i32)>,
    screen: ScreenModel,
    desktop: Desktop,
)
    ensures
        match keymap::scancode_of(usage) {
            Some((code, extended)) => {
                let records = state.records(InputEvent::Key { usage, pressed }, entry, cursor, screen, desktop);
                &&& records.len() == 1
                &&& records[0] matches Input::Key(key)
                &&& key_says(key, code, extended, pressed)
                &&& key_record(usage, pressed) == Some(key)
            },
            None => state.records(InputEvent::Key { usage, pressed }, entry, cursor, screen, desktop).len() == 0
                && key_record(usage, pressed) is None,
        },
{
    if let Some((_, extended)) = keymap::scancode_of(usage) {
        lemma_key_flags(key_record(usage, pressed)->0.flags, extended, pressed);
    }
}

/// The releases at the start let go of each of the eight modifiers.
pub proof fn law_the_releases_at_the_start_are_releases(i: int)
    requires
        0 <= i < 8,
    ensures
        modifier_ups(8).len() == 8,
        modifier_ups(8)[i] matches Input::Key(key) && keymap::scancode_of(Usage((0xE0 + i) as u16)) matches Some(
            (code, extended),
        ) && key_says(key, code, extended, false),
{
    lemma_modifier_ups(8);
    let usage = Usage((0xE0 + i) as u16);
    keymap::lemma_modifiers_are_known(usage);
    let (_, extended) = keymap::scancode_of(usage)->0;
    lemma_key_flags(key_record(usage, false)->0.flags, extended, false);
    assert(Some(modifier_ups(8)[i]) == Some(Input::Key(key_record(usage, false)->0)));
}

/// A button goes down where it is pressed and up where it is released: each
/// has a flag of its own for going down, and the next higher one for going up.
pub proof fn law_a_button_goes_down_and_up(
    state: InjectorState,
    button: Button,
    pressed: bool,
    entry: int,
    cursor: Option<(i32, i32)>,
    screen: ScreenModel,
    desktop: Desktop,
)
    ensures
        ({
            let down: int = match button {
                Button::Left => 0x02,
                Button::Right => 0x08,
                Button::Middle => 0x20,
            };
            let records = state.records(InputEvent::Button { button, pressed }, entry, cursor, screen, desktop);
            &&& records.len() == 1
            &&& records[0] matches Input::Mouse(m)
            &&& m.dx == 0 && m.dy == 0 && m.data == 0
            &&& m.flags == if pressed {
                down
            } else {
                2 * down
            }
            &&& button_flag(button, pressed) == m.flags
        }),
{
}

/// Whether a record turns a wheel by a number of notches, 120 for each, as far
/// as a record can say.
pub open spec fn turns(input: Input, wheel: u32, units: int) -> bool {
    &&& input matches Input::Mouse(m)
    &&& m.dx == 0 && m.dy == 0
    &&& m.flags == wheel
    &&& -17_895_697 <= units <= 17_895_697 ==> m.data == 120 * units
    &&& units > 17_895_697 ==> m.data == 0x7FFF_FFFF
    &&& units < -17_895_697 ==> m.data == -0x8000_0000
}

/// Scrolling turns the wheel up and down by as many notches as there are, then
/// the other wheel sideways, and neither where there are none.
pub proof fn law_scrolling_turns_the_wheels(
    state: InjectorState,
    dx: i32,
    dy: i32,
    entry: int,
    cursor: Option<(i32, i32)>,
    screen: ScreenModel,
    desktop: Desktop,
)
    ensures
        ({
            let records = state.records(InputEvent::Scroll { dx, dy }, entry, cursor, screen, desktop);
            let upright: int = if dy == 0 {
                0
            } else {
                1
            };
            &&& records.len() == upright + if dx == 0 {
                0int
            } else {
                1
            }
            &&& dy != 0 ==> turns(records[0], 0x0800, dy as int)
            &&& dx != 0 ==> turns(records[upright], 0x1000, dx as int)
        }),
{
}

/// A motion's distance is multiplied by the scale and nothing of it is lost:
/// the steps that are taken and what is carried over make up the scaled
/// distance and what was carried over before. Less than a step is carried
/// over, and never against the motion. Nothing else changes, and no other
/// event changes anything.
pub proof fn law_a_motion_is_scaled_without_loss(state: InjectorState, event: InputEvent)
    ensures
        ({
            let after = state.injected(event);
            &&& after.scale == state.scale
            &&& after.return_edge == state.return_edge
            &&& after.anchor == state.anchor
            &&& after.suppressed_until == state.suppressed_until
            &&& event !is Mouse ==> after == state
            &&& event matches InputEvent::Mouse { dx, dy } ==> {
                let x = dx * state.scale + state.remainder.0;
                let y = dy * state.scale + state.remainder.1;
                let (mx, my) = state.moved(dx as int, dy as int);
                &&& -0x1_0000_0000 < after.remainder.0 < 0x1_0000_0000
                &&& -0x1_0000_0000 < after.remainder.1 < 0x1_0000_0000
                &&& (x >= 0 ==> after.remainder.0 >= 0) && (x <= 0 ==> after.remainder.0 <= 0)
                &&& (y >= 0 ==> after.remainder.1 >= 0) && (y <= 0 ==> after.remainder.1 <= 0)
                &&& -0x7FFF_FFFF_FFFF_FFFF < x < 0x7FFF_FFFF_FFFF_FFFF ==> mx * 0x1_0000_0000 + after.remainder.0 == x
                &&& -0x7FFF_FFFF_FFFF_FFFF < y < 0x7FFF_FFFF_FFFF_FFFF ==> my * 0x1_0000_0000 + after.remainder.1 == y
            }
        }),
{
}

/// Whether a number stands for a place on a desktop that begins at `from` and
/// is `length` long: in 65535ths of it, to the nearest one.
pub open spec fn stands_for(n: int, at: int, from: int, length: int) -> bool {
    &&& 0 <= n <= 65535
    &&& at <= from ==> n == 0
    &&& from <= at <= from + length ==> -length <= 2 * (n * length - (at - from) * 65535) <= length
    &&& at >= from + length ==> n == 65535
}

/// Whether a record moves the cursor to a place of the whole desktop, in
/// pixels.
pub open spec fn aims_at(input: Input, x: int, y: int, desktop: Desktop) -> bool {
    &&& input matches Input::Mouse(m)
    &&& m.data == 0
    &&& m.flags == 0xC001
    &&& stands_for(m.dx as int, x, desktop.left as int, desktop.width as int)
    &&& stands_for(m.dy as int, y, desktop.top as int, desktop.height as int)
}

proof fn lemma_normalised(at: int, from: int, length: int)
    requires
        length >= 1,
    ensures
        stands_for(normalised(at, from, length), at, from, length),
{
    if at > from {
        let twice = 2 * (at - from) * 65535 + length;
        let q = twice / (2 * length);
        assert(0 <= twice - q * (2 * length) < 2 * length) by (nonlinear_arith)
            requires
                q == twice / (2 * length),
                length >= 1,
        ;
        assert(q * (2 * length) == 2 * (q * length)) by (nonlinear_arith);
        if at <= from + length {
            assert(q <= 65535) by (nonlinear_arith)
                requires
                    2 * (q * length) <= 2 * (at - from) * 65535 + length,
                    at - from <= length,
                    length >= 1,
            ;
            assert(q >= 0) by (nonlinear_arith)
                requires
                    twice >= 0,
                    q == twice / (2 * length),
                    length >= 1,
            ;
        }
        if at >= from + length {
            assert(q >= 65535) by (nonlinear_arith)
                requires
                    2 * (at - from) * 65535 + length < 2 * (q * length) + 2 * length,
                    at - from >= length,
                    length >= 1,
            ;
        }
    }
}

/// A place of the desktop is said to the nearest 65535th of it, and what lies
/// outside of it as its border.
pub proof fn law_an_absolute_record_aims_at_its_place(x: int, y: int, desktop: Desktop)
    requires
        desktop.width >= 1,
        desktop.height >= 1,
    ensures
        aims_at(Input::Mouse(absolute_record(x, y, desktop)), x, y, desktop),
{
    lemma_normalised(x, desktop.left as int, desktop.width as int);
    lemma_normalised(y, desktop.top as int, desktop.height as int);
    assert(0x0001u32 | 0x8000u32 | 0x4000u32 == 0xC001u32) by (bit_vector);
}

/// A motion that scales to nothing moves nothing. One that scales to something
/// takes the cursor that far, if a monitor is there; if it is not known where
/// the cursor is, it is handed on as it is.
pub proof fn law_a_motion_takes_the_cursor_along(
    state: InjectorState,
    dx: i32,
    dy: i32,
    entry: int,
    cursor: Option<(i32, i32)>,
    screen: ScreenModel,
    desktop: Desktop,
)
    requires
        desktop.width >= 1,
        desktop.height >= 1,
    ensures
        ({
            let (mx, my) = state.moved(dx as int, dy as int);
            let records = state.records(InputEvent::Mouse { dx, dy }, entry, cursor, screen, desktop);
            &&& mx == 0 && my == 0 ==> records.len() == 0
            &&& mx != 0 || my != 0 ==> records.len() == 1 && match cursor {
                None => records[0] == Input::Mouse(
                    MouseInput { dx: mx as i32, dy: my as i32, data: 0, flags: 0x0001 },
                ),
                Some((cx, cy)) => {
                    let x = cx + mx;
                    let y = cy + my;
                    -8_000_000 <= x <= 8_000_000 && -8_000_000 <= y <= 8_000_000 && (exists|i: int|
                        0 <= i < screen.monitors.len() && (#[trigger] screen.monitors[i]).has(256 * x, 256 * y))
                        ==> aims_at(records[0], x, y, desktop)
                },
            }
        }),
{
    let (mx, my) = state.moved(dx as int, dy as int);
    if let Some((cx, cy)) = cursor {
        let x = cx + mx;
        let y = cy + my;
        law_an_absolute_record_aims_at_its_place(x, y, desktop);
        if -8_000_000 <= x <= 8_000_000 && -8_000_000 <= y <= 8_000_000 && (exists|i: int|
            0 <= i < screen.monitors.len() && (#[trigger] screen.monitors[i]).has(256 * x, 256 * y)) {
            let i = choose|i: int|
                0 <= i < screen.monitors.len() && (#[trigger] screen.monitors[i]).has(256 * x, 256 * y);
            screen::lemma_kept_in_place(screen, 256 * x, 256 * y, i);
        }
    }
}

/// A motion that would leave every monitor stops at the nearest place that a
/// monitor has for the cursor.
pub proof fn law_a_motion_stops_at_the_nearest_place(
    state: InjectorState,
    dx: i32,
    dy: i32,
    entry: int,
    cx: i32,
    cy: i32,
    screen: ScreenModel,
    desktop: Desktop,
    i: int,
    px: int,
    py: int,
) -> (place: (int, int))
    requires
        desktop.width >= 1,
        desktop.height >= 1,
        state.moved(dx as int, dy as int) != (0int, 0int),
        -8_000_000 <= cx + state.moved(dx as int, dy as int).0 <= 8_000_000,
        -8_000_000 <= cy + state.moved(dx as int, dy as int).1 <= 8_000_000,
        forall|j: int|
            0 <= j < screen.monitors.len() ==> !(#[trigger] screen.monitors[j]).has(
                256 * (cx + state.moved(dx as int, dy as int).0),
                256 * (cy + state.moved(dx as int, dy as int).1),
            ),
        0 <= i < screen.monitors.len(),
        screen.monitors[i].min_x <= px <= screen.monitors[i].max_x - 256,
        screen.monitors[i].min_y <= py <= screen.monitors[i].max_y - 256,
    ensures
        ({
            let x = 256 * (cx + state.moved(dx as int, dy as int).0);
            let y = 256 * (cy + state.moved(dx as int, dy as int).1);
            let records = state.records(InputEvent::Mouse { dx, dy }, entry, Some((cx, cy)), screen, desktop);
            &&& records.len() == 1
            &&& aims_at(records[0], place.0 / 256, place.1 / 256, desktop)
            &&& (place.0 - x) * (place.0 - x) + (place.1 - y) * (place.1 - y) <= (px - x) * (px - x) + (py - y) * (
            py - y)
        }),
{
    let x = 256 * (cx + state.moved(dx as int, dy as int).0);
    let y = 256 * (cy + state.moved(dx as int, dy as int).1);
    let place = screen.kept_on(x, y);
    screen::law_a_lost_point_goes_to_the_nearest_place(screen, x, y, i, px, py);
    law_an_absolute_record_aims_at_its_place(place.0 / 256, place.1 / 256, desktop);
    place
}

/// The side of the desktop that a return edge is.
pub open spec fn same_side(edge: ReturnEdge, side: Side) -> bool {
    match edge {
        ReturnEdge::Top => side == Side::Top,
        ReturnEdge::Bottom => side == Side::Bottom,
        ReturnEdge::Left => side == Side::Left,
        ReturnEdge::Right => side == Side::Right,
    }
}

proof fn lemma_cut_nearby(at: int, heading: int, place: int)
    requires
        screen::apart(at, heading) <= screen::apart(place, heading) + 256,
    ensures
        screen::apart(256 * (at / 256), heading) <= screen::apart(place, heading) + 512,
{
}

/// Focus arrives on a monitor, twelve pixels in from the edge by which it
/// leaves again, and as near to where the motion was heading as there is a
/// place for it: no place that faces the peer is nearer by more than two
/// pixels. Where nothing is configured, the edge is the bottom one.
#[verifier::rlimit(60)]
pub proof fn law_focus_arrives_where_the_motion_was_heading(
    state: InjectorState,
    side: Side,
    along: u32,
    entry: i64,
    cursor: Option<(i32, i32)>,
    screen: ScreenModel,
    desktop: Desktop,
    i: int,
    place: int,
) -> (r: (int, int, int))
    requires
        desktop.width >= 1,
        desktop.height >= 1,
        match state.return_edge {
            Some(edge) => same_side(edge, side),
            None => side == Side::Bottom,
        },
        screen.laid_out(),
        forall|k: int| 0 <= k < screen.monitors.len() ==> screen::whole_rect(#[trigger] screen.monitors[k]),
        0 < screen.monitors.len() <= usize::MAX,
        -0x4000_0000_0000_0000 <= entry <= 0x4000_0000_0000_0000,
        screen.outward(i, side, place),
    ensures
        ({
            let (x, y, j) = r;
            let records = state.records(InputEvent::Enter { along }, entry as int, cursor, screen, desktop);
            let heading = entry + screen.anchor_on(side, state.anchor);
            &&& records.len() == 1
            &&& aims_at(records[0], x, y, desktop)
            &&& 0 <= j < screen.monitors.len()
            &&& screen.monitors[j].has(256 * x, 256 * y)
            &&& screen.crossing(side, 256 * x, 256 * y) is None
            &&& match side {
                Side::Top => screen.monitors[j].max_y - screen.monitors[j].min_y >= 13 * 256 ==> 256 * y
                    == screen.monitors[j].min_y + 12 * 256,
                Side::Bottom => screen.monitors[j].max_y - screen.monitors[j].min_y >= 13 * 256 ==> 256 * y
                    == screen.monitors[j].max_y - 13 * 256,
                Side::Left => screen.monitors[j].max_x - screen.monitors[j].min_x >= 13 * 256 ==> 256 * x
                    == screen.monitors[j].min_x + 12 * 256,
                Side::Right => screen.monitors[j].max_x - screen.monitors[j].min_x >= 13 * 256 ==> 256 * x
                    == screen.monitors[j].max_x - 13 * 256,
            }
            &&& screen::apart(256 * (if side == Side::Top || side == Side::Bottom { x } else { y }), heading)
                <= screen::apart(place, heading) + 512
        }),
{
    assert(side == state.entry_side());
    let anchor = screen.anchor_on(side, state.anchor);
    let heading = entry + anchor;
    screen::lemma_anchor_is_a_coordinate(screen, side, state.anchor);
    assert(screen::in_whole_units(screen.monitors, side)) by {
        assert forall|k: int| 0 <= k < screen.monitors.len() implies (#[trigger] screen.monitors[k]).span_lo(side) % 256
            == 0 && screen.monitors[k].span_hi(side) % 256 == 0 by {
            assert(screen::whole_rect(screen.monitors[k]));
        }
    }
    screen::law_a_landing_is_never_at_the_edge(screen, side, heading, ENTRY_MARGIN as int);
    screen::law_no_outward_place_is_nearer_than_the_landing(
        screen,
        side,
        heading,
        ENTRY_MARGIN as int,
        i,
        place,
    );
    let (sx, sy) = screen.landing_at(side, heading, ENTRY_MARGIN as int)->0;
    let j = screen.arrival(side, heading).0.monitor as int;
    let m = screen.monitors[j];
    assert(screen::whole_rect(screen.monitors[j]));
    screen::lemma_a_landing_is_whole_units_in(screen, side, heading, ENTRY_MARGIN as int);
    screen::lemma_cut_to_units(m, side, sx, sy);
    assert(m.max_x - m.min_x > screen::UNIT && m.max_y - m.min_y > screen::UNIT);
    let x = sx / 256;
    let y = sy / 256;
    law_an_absolute_record_aims_at_its_place(x, y, desktop);
    lemma_cut_nearby(if side == Side::Top || side == Side::Bottom { sx } else { sy }, heading, place);
    screen::lemma_off_the_row_there_is_no_crossing(screen, side, j, 256 * x, 256 * y);
    (x, y, j)
}

/// The cursor hands focus back exactly if its return edge is configured, was
/// not reached a moment ago, and it stands in the last row or column of its
/// own monitor there with no other monitor beyond it. It goes back as far from
/// the anchor as the cursor is along the edge.
pub proof fn law_focus_goes_back_at_the_return_edge(
    state: InjectorState,
    edge: ReturnEdge,
    side: Side,
    x: i32,
    y: i32,
    screen: ScreenModel,
    now: nat,
    i: int,
)
    requires
        same_side(edge, side),
        -8_000_000 <= x <= 8_000_000,
        -8_000_000 <= y <= 8_000_000,
        screen.laid_out(),
        0 <= i < screen.monitors.len(),
        screen.monitors[i].has(256 * x, 256 * y),
    ensures
        ({
            let m = screen.monitors[i];
            let last = match side {
                Side::Top => 256 * y == m.min_y,
                Side::Bottom => 256 * y + 256 >= m.max_y,
                Side::Left => 256 * x == m.min_x,
                Side::Right => 256 * x + 256 >= m.max_x,
            };
            let blocked = exists|j: int|
                0 <= j < screen.monitors.len() && j != i && screen::covers_beyond(
                    m,
                    #[trigger] screen.monitors[j],
                    side,
                    256 * x,
                    256 * y,
                );
            let quiet = match state.suppressed_until {
                Some(until) => now < until,
                None => false,
            };
            &&& state.return_edge is None ==> state.comes_back(Some((x, y)), screen, now) is None
            &&& state.comes_back(None, screen, now) is None
            &&& state.return_edge == Some(edge) ==> state.comes_back(Some((x, y)), screen, now) == if last && !blocked
                && !quiet {
                Some(
                    256 * (if side == Side::Top || side == Side::Bottom { x } else { y }) - screen.anchor_on(
                        side,
                        state.anchor,
                    ),
                )
            } else {
                None
            }
        }),
{
    screen::law_a_crossing_is_at_the_monitors_own_edge(screen, side, i, 256 * x, 256 * y);
}

/// Once focus went back the edge is not asked about for half a second, and
/// then it is. A look that finds the cursor elsewhere holds nothing back, and
/// without a return edge focus never goes back.
pub proof fn law_focus_goes_back_once_in_half_a_second(
    state: InjectorState,
    cursor: Option<(i32, i32)>,
    screen: ScreenModel,
    asked: nat,
    later: nat,
)
    requires
        asked <= later <= 1_000_000_000_000_000_000,
    ensures
        ({
            let after = state.asked(cursor, screen, asked);
            &&& state.comes_back(cursor, screen, asked) is Some ==> (after.suppressed(later) <==> later < asked
                + 500_000_000)
            &&& !state.suppressed(asked) && state.return_edge is Some && state.comes_back(cursor, screen, asked) is None
                ==> !after.suppressed(later)
            &&& state.suppressed(asked) ==> state.comes_back(cursor, screen, asked) is None && after == state
            &&& state.return_edge is None ==> state.comes_back(cursor, screen, asked) is None && after == state
            &&& after.return_edge == state.return_edge
            &&& after.anchor == state.anchor
            &&& after.scale == state.scale
            &&& after.remainder == state.remainder
        }),
{
}

/// Only a motion leaves anything behind, and that is what its scaling leaves
/// over. A crossing is nothing to inject, nor is a key that no keyboard has.
/// Focus arrives at the edge it goes back by, which is the bottom if none is
/// set.
pub proof fn law_only_a_motion_leaves_anything_behind(
    state: InjectorState,
    event: InputEvent,
    entry: int,
    cursor: Option<(i32, i32)>,
    screen: ScreenModel,
    desktop: Desktop,
)
    ensures
        event !is Mouse ==> state.injected(event) == state,
        state.injected(event).return_edge == state.return_edge,
        state.injected(event).anchor == state.anchor,
        state.injected(event).scale == state.scale,
        state.injected(event).suppressed_until == state.suppressed_until,
        event is EdgeCrossed ==> state.records(event, entry, cursor, screen, desktop).len() == 0,
        event matches InputEvent::Key { usage, pressed } ==> state.records(event, entry, cursor, screen, desktop).len()
            == if keymap::scancode_of(usage) is Some {
            1nat
        } else {
            0
        },
        state.return_edge is None ==> state.entry_side() == Side::Bottom,
        state.return_edge == Some(ReturnEdge::Top) ==> state.entry_side() == Side::Top,
        state.return_edge == Some(ReturnEdge::Bottom) ==> state.entry_side() == Side::Bottom,
        state.return_edge == Some(ReturnEdge::Left) ==> state.entry_side() == Side::Left,
        state.return_edge == Some(ReturnEdge::Right) ==> state.entry_side() == Side::Right,
{
}

} // verus!
