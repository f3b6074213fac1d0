//! What the window shows, and what its buttons do.
//!
//! Drawing, the child process and the threads are the caller's.

use std::collections::VecDeque;
use vstd::prelude::*;

use crate::settings::{Settings, SettingsModel};
use crate::text;
use crate::text::{find_text, starts_with, trim};
use crate::update::{UpdateError, Version};

verus! {

/// How many lines of the log are kept: enough to see what happened across
/// a few reconnects.
pub const LOG_LINES: usize = 500;

/// What the engine writes before the state of the link, so that the window
/// reads a state rather than prose.
pub open spec fn status_marker() -> Seq<char> {
    "hop-status:"@
}

/// The state that a line of the log reports, if it reports one: what stands
/// behind the marker, up to the next one.
pub open spec fn status_in(line: Seq<char>) -> Option<Seq<char>> {
    match text::text_from(line, status_marker(), 0) {
        None => None,
        Some(at) => {
            let after = line.skip(at + status_marker().len());
            Some(
                text::trimmed(
                    match text::text_from(after, status_marker(), 0) {
                        None => after,
                        Some(end) => after.take(end),
                    },
                ),
            )
        },
    }
}

/// Everything the window shows that comes from the running engine.
#[derive(Debug)]
pub struct EngineOutput {
    lines: VecDeque<String>,
    status: Option<String>,
}

/// What an [`EngineOutput`] holds.
#[verifier::ext_equal]
pub struct OutputModel {
    pub lines: Seq<String>,
    pub status: Option<Seq<char>>,
}

impl OutputModel {
    /// The engine wrote a line.
    pub open spec fn wrote(self, line: String) -> OutputModel {
        OutputModel {
            lines: if self.lines.len() >= LOG_LINES {
                self.lines.push(line).skip(self.lines.len() + 1 - LOG_LINES)
            } else {
                self.lines.push(line)
            },
            status: match status_in(line@) {
                Some(status) => Some(status),
                None => self.status,
            },
        }
    }

    /// The state to show: that of the newest line that reports one.
    pub open spec fn shown(self) -> Seq<char> {
        match self.status {
            Some(status) => status,
            None => "Stopped"@,
        }
    }
}

impl View for EngineOutput {
    type V = OutputModel;

    closed spec fn view(&self) -> OutputModel {
        OutputModel { lines: self.lines@, status: crate::config::said(self.status) }
    }
}

/// The state that a line reports.
fn reported(line: &str) -> (r: Option<String>)
    ensures
        crate::config::said(r) == status_in(line@),
{
    let marker: &str = "hop-status:";
    match find_text(line, marker) {
        None => None,
        Some(at) => {
            let total: usize = line.unicode_len();
            let after: &str = line.substring_char(at + marker.unicode_len(), total);
            assert(after@ =~= line@.skip(at + status_marker().len()));
            match find_text(after, marker) {
                None => Some(trim(after)),
                Some(end) => {
                    let part: &str = after.substring_char(0, end);
                    assert(part@ =~= after@.take(end as int));
                    Some(trim(part))
                },
            }
        },
    }
}

impl EngineOutput {
    pub fn new() -> (r: EngineOutput)
        ensures
            r@ == (OutputModel { lines: Seq::empty(), status: None }),
    {
        EngineOutput { lines: VecDeque::new(), status: None }
    }

    /// Takes a line that the engine wrote.
    pub fn push_line(&mut self, line: String)
        ensures
            final(self)@ == old(self)@.wrote(line),
    {
        if let Some(status) = reported(line.as_str()) {
            self.status = Some(status);
        }
        let ghost all = self.lines@.push(line);
        let ghost mut gone: int = 0;
        self.lines.push_back(line);
        assert(self.lines@ =~= all.skip(0));
        while self.lines.len() > LOG_LINES
            invariant
                0 <= gone,
                self.lines@ == all.skip(gone),
                self.lines@.len() + gone == all.len(),
                gone == 0 || self.lines@.len() >= LOG_LINES,
                crate::config::said(self.status) == old(self)@.wrote(line).status,
                all == old(self)@.lines.push(line),
            decreases self.lines@.len(),
        {
            let _ = self.lines.pop_front();
            proof {
                gone = gone + 1;
                assert(self.lines@ =~= all.skip(gone));
            }
        }
        assert(all.skip(0) =~= all);
    }

    /// The engine is not running any more.
    pub fn stopped(&mut self)
        ensures
            final(self)@ == (OutputModel { status: Some("Stopped"@), ..old(self)@ }),
    {
        self.status = Some("Stopped".to_owned());
    }

    /// The state to show.
    pub fn status(&self) -> (r: String)
        ensures
            r@ == self@.shown(),
    {
        match &self.status {
            Some(status) => status.clone(),
            None => "Stopped".to_owned(),
        }
    }

    /// The lines of the log, oldest first.
    pub fn lines(&self) -> (r: Vec<String>)
        ensures
            text::views(r@) == text::views(self@.lines),
    {
        let mut out: Vec<String> = Vec::new();
        let mut i: usize = 0;
        assert(text::views(out@) =~= text::views(self.lines@.take(0)));
        while i < self.lines.len()
            invariant
                i <= self.lines@.len(),
                text::views(out@) == text::views(self.lines@.take(i as int)),
            decreases self.lines@.len() - i,
        {
            let ghost before = out@;
            let line: String = self.lines[i].clone();
            out.push(line);
            proof {
                assert(text::views(out@) =~= text::views(before).push(line@));
                assert(text::views(self.lines@.take(i + 1)) =~= text::views(self.lines@.take(i as int)).push(
                    self.lines@[i as int]@,
                ));
            }
            i = i + 1;
        }
        assert(self.lines@.take(i as int) =~= self.lines@);
        out
    }
}

/// However long the engine runs, the log does not grow without bound, and
/// its newest line is always there.
pub proof fn law_the_log_is_bounded(output: OutputModel, line: String)
    requires
        output.lines.len() <= LOG_LINES,
    ensures
        output.wrote(line).lines.len() <= LOG_LINES,
        output.wrote(line).lines.last() == line,
{
}

/// What the coloured dot says.
#[derive(Debug, Clone, Copy, PartialEq, Eq, Structural)]
pub enum Indicator {
    Connected,
    /// Running, but not connected.
    Waiting,
    Stopped,
}

/// What the coloured dot and the line beside it say.
pub fn indicator(status: &str, running: bool) -> (r: (Indicator, String))
    ensures
        text::begins_with(status@, "Connected"@) ==> r.0 == Indicator::Connected && r.1@ == status@,
        !text::begins_with(status@, "Connected"@) && running ==> r.0 == Indicator::Waiting && r.1@ == status@,
        !text::begins_with(status@, "Connected"@) && !running ==> r.0 == Indicator::Stopped && r.1@
            == "Stopped"@,
{
    if starts_with(status, "Connected") {
        (Indicator::Connected, status.to_owned())
    } else if running {
        (Indicator::Waiting, status.to_owned())
    } else {
        (Indicator::Stopped, "Stopped".to_owned())
    }
}

/// A line for the user to read, and whether it reports a failure.
#[derive(Debug)]
pub struct Notice {
    pub text: String,
    pub failure: bool,
}

/// What an optional notice says.
pub open spec fn noticed(notice: Option<Notice>) -> Option<(Seq<char>, bool)> {
    match notice {
        Some(notice) => Some((notice.text@, notice.failure)),
        None => None,
    }
}

/// The bits of one half in single precision.
pub const HALF: u32 = 0x3F00_0000;

/// The window's fields.
#[derive(Debug)]
pub struct HopApp {
    /// What stands in the fields.
    pub settings: Settings,
    /// What was last loaded or saved.
    saved: Settings,
    /// Whether the anchor is set by hand.
    pub anchor_enabled: bool,
    /// Where its slider stands.
    pub anchor_value: u32,
    notice: Option<Notice>,
    autostart: bool,
}

/// What a [`HopApp`] holds.
#[verifier::ext_equal]
pub struct AppModel {
    pub settings: SettingsModel,
    pub saved: SettingsModel,
    pub anchor_enabled: bool,
    pub anchor_value: u32,
    pub notice: Option<(Seq<char>, bool)>,
    pub autostart: bool,
}

impl AppModel {
    /// The window as it opens.
    pub open spec fn opened(settings: SettingsModel, autostart: bool) -> AppModel {
        AppModel {
            settings,
            saved: settings,
            anchor_enabled: settings.anchor is Some,
            anchor_value: match settings.anchor {
                Some(anchor) => anchor,
                None => HALF,
            },
            notice: None,
            autostart,
        }
    }

    /// The settings that would be saved.
    pub open spec fn candidate(self) -> SettingsModel {
        SettingsModel {
            anchor: if self.anchor_enabled {
                Some(self.anchor_value)
            } else {
                None
            },
            ..self.settings
        }
    }

    /// What was last saved is back in the fields.
    pub open spec fn discarded(self) -> AppModel {
        AppModel { autostart: self.autostart, ..AppModel::opened(self.saved, self.autostart) }
    }

    /// The settings were saved.
    pub open spec fn saved_now(self, running: bool) -> AppModel {
        AppModel {
            settings: self.candidate(),
            saved: self.candidate(),
            notice: Some(
                (
                    if running {
                        "Saved. Restarting hop to pick it up."@
                    } else {
                        "Saved."@
                    },
                    false,
                ),
            ),
            ..self
        }
    }
}

impl View for HopApp {
    type V = AppModel;

    closed spec fn view(&self) -> AppModel {
        AppModel {
            settings: self.settings@,
            saved: self.saved@,
            anchor_enabled: self.anchor_enabled,
            anchor_value: self.anchor_value,
            notice: noticed(self.notice),
            autostart: self.autostart,
        }
    }
}

impl HopApp {
    /// The window as it opens.
    pub fn new(settings: Settings, autostart: bool) -> (r: HopApp)
        ensures
            r@ == AppModel::opened(settings@, autostart),
    {
        let saved: Settings = settings.duplicate();
        let anchor_enabled: bool = settings.anchor.is_some();
        let anchor_value: u32 = match settings.anchor {
            Some(anchor) => anchor,
            None => HALF,
        };
        HopApp { settings, saved, anchor_enabled, anchor_value, notice: None, autostart }
    }

    /// The settings that would be saved.
    pub fn candidate(&self) -> (r: Settings)
        ensures
            r@ == self@.candidate(),
    {
        let mut settings: Settings = self.settings.duplicate();
        settings.anchor = if self.anchor_enabled {
            Some(self.anchor_value)
        } else {
            None
        };
        settings
    }

    /// Whether there is anything to save.
    pub fn dirty(&self) -> (r: bool)
        ensures
            r == !self@.candidate().alike(self@.saved),
    {
        !self.candidate().same_as(&self.saved)
    }

    /// Puts what was last saved back into the fields.
    pub fn discard(&mut self)
        ensures
            final(self)@ == old(self)@.discarded(),
    {
        self.settings = self.saved.duplicate();
        self.anchor_enabled = self.saved.anchor.is_some();
        self.anchor_value = match self.saved.anchor {
            Some(anchor) => anchor,
            None => HALF,
        };
        self.notice = None;
    }

    /// Saving came to an end. Says whether the engine is to be restarted:
    /// it reads its settings once, so without that the window would show
    /// values that are not in use.
    pub fn save(&mut self, outcome: Result<(), String>, running: bool) -> (r: bool)
        ensures
            r == (outcome is Ok && running),
            final(self)@ == match outcome {
                Ok(()) => old(self)@.saved_now(running),
                Err(reason) => AppModel {
                    settings: old(self)@.candidate(),
                    notice: Some((reason@, true)),
                    ..old(self)@
                },
            },
    {
        self.settings = self.candidate();
        match outcome {
            Ok(()) => {
                self.saved = self.settings.duplicate();
                self.notice = Some(
                    Notice {
                        text: if running {
                            "Saved. Restarting hop to pick it up.".to_owned()
                        } else {
                            "Saved.".to_owned()
                        },
                        failure: false,
                    },
                );
                running
            },
            Err(reason) => {
                self.notice = Some(Notice { text: reason, failure: true });
                false
            },
        }
    }

    /// The program to start could not be found.
    pub fn not_found(&mut self, reason: String)
        ensures
            final(self)@ == (AppModel {
                notice: Some(("could not find hop: "@ + reason@, true)),
                ..old(self)@
            }),
    {
        self.notice = Some(
            Notice {
                text: "could not find hop: ".to_owned().concat(reason.as_str()),
                failure: true,
            },
        );
    }

    /// Starting the engine came to an end.
    pub fn started(&mut self, outcome: Result<(), String>)
        ensures
            final(self)@ == (AppModel {
                notice: match outcome {
                    Ok(()) => None,
                    Err(reason) => Some(("could not start hop: "@ + reason@, true)),
                },
                ..old(self)@
            }),
    {
        self.notice = match outcome {
            Ok(()) => None,
            Err(reason) => Some(
                Notice {
                    text: "could not start hop: ".to_owned().concat(reason.as_str()),
                    failure: true,
                },
            ),
        };
    }

    /// Starting with Windows was switched on or off.
    pub fn set_autostart(&mut self, wanted: bool, outcome: Result<(), String>)
        ensures
            final(self)@ == match outcome {
                Ok(()) => AppModel { autostart: wanted, ..old(self)@ },
                Err(reason) => AppModel { notice: Some((reason@, true)), ..old(self)@ },
            },
    {
        match outcome {
            Ok(()) => {
                self.autostart = wanted;
            },
            Err(reason) => {
                self.notice = Some(Notice { text: reason, failure: true });
            },
        }
    }

    /// Asking after a newer version came to an end.
    pub fn update_checked(&mut self, outcome: Result<Option<Version>, UpdateError>)
        ensures
            final(self)@.settings == old(self)@.settings,
            final(self)@.saved == old(self)@.saved,
            final(self)@.anchor_enabled == old(self)@.anchor_enabled,
            final(self)@.anchor_value == old(self)@.anchor_value,
            final(self)@.autostart == old(self)@.autostart,
            match outcome {
                Ok(Some(version)) => final(self)@.notice == Some(
                    (
                        "hop "@ + crate::update::written(version)
                            + " is available. Restart hop to install it."@,
                        false,
                    ),
                ),
                Ok(None) => final(self)@.notice == Some(("hop is up to date."@, false)),
                Err(e) => final(self)@.notice matches Some((text, failure)) && text == e.spec_message()
                    && failure,
            },
    {
        self.notice = Some(
            match outcome {
                Ok(Some(version)) => Notice {
                    text: "hop ".to_owned().concat(version.text().as_str()).concat(
                        " is available. Restart hop to install it.",
                    ),
                    failure: false,
                },
                Ok(None) => Notice { text: "hop is up to date.".to_owned(), failure: false },
                Err(e) => Notice { text: e.message(), failure: true },
            },
        );
    }

    /// The line to show, and whether it reports a failure.
    pub fn notice(&self) -> (r: Option<(&str, bool)>)
        ensures
            match r {
                Some((text, failure)) => self@.notice == Some((text@, failure)),
                None => self@.notice is None,
            },
    {
        match &self.notice {
            Some(notice) => Some((notice.text.as_str(), notice.failure)),
            None => None,
        }
    }

    /// Whether it starts with Windows.
    pub fn autostart(&self) -> (r: bool)
        ensures
            r == self@.autostart,
    {
        self.autostart
    }
}

/// Once the settings are discarded there is nothing left to save.
pub proof fn law_discarding_leaves_nothing_to_save(app: AppModel)
    ensures
        app.discarded().candidate() == app.saved,
        app.discarded().saved == app.saved,
{
}

/// The log keeps the newest five hundred lines, in order. A line that reports
/// no state leaves the one that is shown.
pub proof fn law_the_log_keeps_the_newest_lines(output: OutputModel, line: String, i: int)
    requires
        output.lines.len() <= 500,
        0 <= i < output.wrote(line).lines.len(),
    ensures
        ({
            let all = output.lines.push(line);
            let after = output.wrote(line);
            &&& after.lines.len() == if all.len() <= 500 {
                all.len()
            } else {
                500
            }
            &&& after.lines[i] == all[all.len() - after.lines.len() + i]
            &&& status_in(line@) is None ==> after.shown() == output.shown()
            &&& status_in(line@) matches Some(state) ==> after.shown() == state
        }),
        (OutputModel { status: None, ..output }).shown() == "Stopped"@,
{
}

proof fn lemma_text_at(s: Seq<char>, part: Seq<char>, from: int, at: int)
    requires
        0 <= from <= at <= s.len(),
        text::begins_with(s.skip(at), part),
        forall|j: int| from <= j < at ==> !text::begins_with(#[trigger] s.skip(j), part),
    ensures
        text::text_from(s, part, from) == Some(at),
    decreases at - from,
{
    if from < at {
        assert(!text::begins_with(s.skip(from), part));
        lemma_text_at(s, part, from + 1, at);
    }
}

proof fn lemma_no_text(s: Seq<char>, part: Seq<char>, from: int)
    requires
        0 <= from <= s.len() + 1,
        forall|j: int| from <= j <= s.len() ==> !text::begins_with(#[trigger] s.skip(j), part),
    ensures
        text::text_from(s, part, from) is None,
    decreases s.len() + 1 - from,
{
    if from <= s.len() {
        assert(!text::begins_with(s.skip(from), part));
        lemma_no_text(s, part, from + 1);
    }
}

/// A line reports the state that stands behind the first marker in it, without
/// the white space around it. Without a marker it reports none.
pub proof fn law_a_line_reports_what_stands_behind_its_marker(before: Seq<char>, state: Seq<char>)
    requires
        forall|j: int|
            0 <= j < before.len() ==> !text::begins_with(#[trigger] (before + "hop-status:"@ + state).skip(j), "hop-status:"@),
        forall|j: int| 0 <= j <= state.len() ==> !text::begins_with(#[trigger] state.skip(j), "hop-status:"@),
    ensures
        status_in(before + "hop-status:"@ + state) == Some(text::trimmed(state)),
        status_in(state) is None,
{
    let line = before + "hop-status:"@ + state;
    let at = before.len() as int;
    assert(line.skip(at).take("hop-status:"@.len() as int) =~= "hop-status:"@);
    lemma_text_at(line, "hop-status:"@, 0, at);
    assert(line.skip(at + "hop-status:"@.len()) =~= state);
    lemma_no_text(state, "hop-status:"@, 0);
}

/// A window that has just been opened shows what is saved, with the slider of
/// an anchor that is not set in the middle, and has nothing to save. What is
/// saved is what the fields show: an anchor only where it is set by hand.
pub proof fn law_saving_keeps_what_the_fields_show(app: AppModel, settings: SettingsModel, autostart: bool, running: bool)
    ensures
        ({
            let fresh = AppModel::opened(settings, autostart);
            &&& fresh.candidate() == settings
            &&& fresh.saved == settings
            &&& fresh.autostart == autostart
            &&& fresh.notice is None
            &&& settings.anchor is None ==> fresh.anchor_value == 0x3F00_0000
        }),
        app.candidate().server == app.settings.server,
        app.candidate().id == app.settings.id,
        app.candidate().key_file == app.settings.key_file,
        app.candidate().return_edge == app.settings.return_edge,
        app.candidate().mouse_scale == app.settings.mouse_scale,
        app.anchor_enabled ==> app.candidate().anchor == Some(app.anchor_value),
        !app.anchor_enabled ==> app.candidate().anchor is None,
        app.saved_now(running).saved == app.candidate(),
        app.saved_now(running).candidate() == app.candidate(),
        app.saved_now(running).autostart == app.autostart,
        app.discarded().autostart == app.autostart,
        app.discarded().notice is None,
{
}

/// Where another marker follows, the state ends there.
pub proof fn law_a_reported_state_ends_at_the_next_marker(before: Seq<char>, state: Seq<char>, rest: Seq<char>)
    requires
        forall|j: int|
            0 <= j < before.len() ==> !text::begins_with(
                #[trigger] (before + "hop-status:"@ + (state + "hop-status:"@ + rest)).skip(j),
                "hop-status:"@,
            ),
        forall|j: int|
            0 <= j < state.len() ==> !text::begins_with(
                #[trigger] (state + "hop-status:"@ + rest).skip(j),
                "hop-status:"@,
            ),
    ensures
        status_in(before + "hop-status:"@ + (state + "hop-status:"@ + rest)) == Some(text::trimmed(state)),
{
    let marker = "hop-status:"@;
    let behind = state + marker + rest;
    let line = before + marker + behind;
    let at = before.len() as int;
    let end = state.len() as int;
    assert(line.skip(at).take(marker.len() as int) =~= marker);
    lemma_text_at(line, marker, 0, at);
    assert(line.skip(at + marker.len()) =~= behind);
    assert(behind.skip(end).take(marker.len() as int) =~= marker);
    lemma_text_at(behind, marker, 0, end);
    assert(behind.take(end) =~= state);
}

} // verus!
