//! The icon in the notification area.

use vstd::prelude::*;

verus! {

/// What the user picked from the menu.
#[derive(Debug, Clone, Copy, PartialEq, Eq, Structural)]
pub enum TrayEvent {
    Start,
    Stop,
    Quit,
}

pub const ID_START: u32 = 1;
pub const ID_STOP: u32 = 2;
pub const ID_QUIT: u32 = 3;

/// The number of a menu's entry.
pub open spec fn number_of(entry: TrayEvent) -> u32 {
    match entry {
        TrayEvent::Start => ID_START,
        TrayEvent::Stop => ID_STOP,
        TrayEvent::Quit => ID_QUIT,
    }
}

/// The entry of a number.
pub open spec fn entry_of(id: u32) -> Option<TrayEvent> {
    if id == ID_START {
        Some(TrayEvent::Start)
    } else if id == ID_STOP {
        Some(TrayEvent::Stop)
    } else if id == ID_QUIT {
        Some(TrayEvent::Quit)
    } else {
        None
    }
}

/// Every entry is picked by its own number, and no other number picks one.
pub proof fn law_an_entry_is_picked_by_its_number(entry: TrayEvent, id: u32)
    ensures
        entry_of(id) == Some(entry) <==> id == number_of(entry),
        entry_of(0) is None,
{
}

/// What the user picked, by the number of the menu's entry.
pub fn picked(id: u32) -> (r: Option<TrayEvent>)
    ensures
        r == entry_of(id),
{
    if id == ID_START {
        Some(TrayEvent::Start)
    } else if id == ID_STOP {
        Some(TrayEvent::Stop)
    } else if id == ID_QUIT {
        Some(TrayEvent::Quit)
    } else {
        None
    }
}

/// Whether an entry of the menu does anything: starting what runs does
/// not, nor does stopping what does not.
pub open spec fn useful(entry: TrayEvent, running: bool) -> bool {
    match entry {
        TrayEvent::Start => !running,
        TrayEvent::Stop => running,
        TrayEvent::Quit => true,
    }
}

/// At any time one can leave, and either start or stop, never both.
pub proof fn law_one_can_always_leave_and_either_start_or_stop(running: bool)
    ensures
        useful(TrayEvent::Quit, running),
        useful(TrayEvent::Stop, running) == running,
        useful(TrayEvent::Start, running) != useful(TrayEvent::Stop, running),
{
}

/// Whether an entry of the menu does anything.
pub fn offered(entry: TrayEvent, running: bool) -> (r: bool)
    ensures
        r == useful(entry, running),
{
    match entry {
        TrayEvent::Start => !running,
        TrayEvent::Stop => running,
        TrayEvent::Quit => true,
    }
}

/// What the icon says when pointed at.
pub fn status_text(running: bool) -> (r: &'static str)
    ensures
        r@ == if running {
            "hop: running"@
        } else {
            "hop: stopped"@
        },
{
    if running {
        "hop: running"
    } else {
        "hop: stopped"
    }
}

/// What asking after a child process gave.
#[derive(Debug, Clone, Copy, PartialEq, Eq, Structural)]
pub enum Child {
    /// None was started.
    Absent,
    /// It ended by itself.
    Exited,
    Alive,
    /// The system would not say.
    Unknown,
}

/// Whether a child process counts as running. One that ended by itself
/// does not. One that cannot be asked does: saying otherwise would leave
/// the user unable to stop it.
pub fn child_is_running(child: Child) -> (r: bool)
    ensures
        r == (child == Child::Alive || child == Child::Unknown),
{
    match child {
        Child::Absent | Child::Exited => false,
        Child::Alive | Child::Unknown => true,
    }
}

/// How many units the icon's text has room for, the zero at its end
/// included.
pub const TIP_UNITS: usize = 128;

/// The icon's text as the system takes it: cut to fit, and with zeros
/// behind it. The system reads up to a zero, so there must be one.
pub fn write_tip(text: &Vec<u16>) -> (r: Vec<u16>)
    ensures
        r@.len() == TIP_UNITS,
        r@.len() == 128,
        r@.last() == 0,
        forall|i: int|
            0 <= i < TIP_UNITS ==> #[trigger] r@[i] == if i < text@.len() && i < TIP_UNITS - 1 {
                text@[i]
            } else {
                0
            },
{
    let mut out: Vec<u16> = Vec::new();
    let mut i: usize = 0;
    while i < TIP_UNITS
        invariant
            i <= TIP_UNITS,
            out@.len() == i,
            forall|j: int|
                0 <= j < i ==> #[trigger] out@[j] == if j < text@.len() && j < TIP_UNITS - 1 {
                    text@[j]
                } else {
                    0
                },
        decreases TIP_UNITS - i,
    {
        if i < text.len() && i < TIP_UNITS - 1 {
            out.push(text[i]);
        } else {
            out.push(0);
        }
        i = i + 1;
    }
    out
}

} // verus!
