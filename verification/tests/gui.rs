use hop::gui::{indicator, EngineOutput, HopApp, Indicator, HALF, LOG_LINES};
use hop::settings::Settings;
use hop::update::{UpdateError, Version};

fn settings() -> Settings {
    Settings {
        server: "192.168.1.42:24810".into(),
        id: "pc".into(),
        key_file: "key".into(),
        return_edge: "bottom".into(),
        mouse_scale: 1.0f64.to_bits(),
        anchor: None,
    }
}

#[test]
fn the_state_is_read_out_of_the_log() {
    let mut output = EngineOutput::new();
    assert_eq!(output.status(), "Stopped");
    output.push_line("starting".to_string());
    assert_eq!(output.status(), "Stopped");
    output.push_line("INFO hop-status: Connected to 192.168.1.42".to_string());
    assert_eq!(output.status(), "Connected to 192.168.1.42");
    output.push_line("something else".to_string());
    assert_eq!(output.status(), "Connected to 192.168.1.42");
    output.stopped();
    assert_eq!(output.status(), "Stopped");
    assert_eq!(
        output.lines(),
        ["starting", "INFO hop-status: Connected to 192.168.1.42", "something else"]
    );
}

#[test]
fn the_log_keeps_its_newest_lines() {
    let mut output = EngineOutput::new();
    for i in 0..LOG_LINES + 2 {
        output.push_line(format!("{i}"));
    }
    let lines = output.lines();
    assert_eq!(lines.len(), LOG_LINES);
    assert_eq!(lines[0], "2");
    assert_eq!(lines[LOG_LINES - 1], format!("{}", LOG_LINES + 1));
}

#[test]
fn the_dot_follows_the_state() {
    assert_eq!(
        indicator("Connected to a", true),
        (Indicator::Connected, "Connected to a".to_string())
    );
    assert_eq!(indicator("Connecting", true), (Indicator::Waiting, "Connecting".to_string()));
    assert_eq!(indicator("Connecting", false), (Indicator::Stopped, "Stopped".to_string()));
}

#[test]
fn an_edit_is_noticed_and_can_be_discarded() {
    let mut app = HopApp::new(settings(), false);
    assert!(!app.dirty());
    assert_eq!(app.anchor_value, HALF);
    app.settings.id = "laptop".into();
    app.anchor_enabled = true;
    assert!(app.dirty());
    assert_eq!(app.candidate().anchor, Some(HALF));
    app.discard();
    assert!(!app.dirty());
    assert_eq!(app.settings.id, "pc");
    assert!(!app.anchor_enabled);
}

#[test]
fn saving_restarts_only_what_runs() {
    let mut app = HopApp::new(settings(), false);
    app.settings.id = "laptop".into();
    assert!(!app.save(Err("disk full".to_string()), true));
    assert_eq!(app.notice(), Some(("disk full", true)));
    assert!(app.dirty());
    assert!(app.save(Ok(()), true));
    assert_eq!(app.notice(), Some(("Saved. Restarting hop to pick it up.", false)));
    assert!(!app.dirty());
    assert!(!app.save(Ok(()), false));
    assert_eq!(app.notice(), Some(("Saved.", false)));
}

#[test]
fn what_failed_is_said() {
    let mut app = HopApp::new(settings(), false);
    app.started(Err("no such file".to_string()));
    assert_eq!(app.notice(), Some(("could not start hop: no such file", true)));
    app.not_found("gone".to_string());
    assert_eq!(app.notice(), Some(("could not find hop: gone", true)));
    app.started(Ok(()));
    assert_eq!(app.notice(), None);
    app.set_autostart(true, Err("denied".to_string()));
    assert!(!app.autostart());
    assert_eq!(app.notice(), Some(("denied", true)));
    app.set_autostart(true, Ok(()));
    assert!(app.autostart());
    app.update_checked(Ok(Some(Version::parse("0.2.0").unwrap())));
    assert_eq!(app.notice(), Some(("hop 0.2.0 is available. Restart hop to install it.", false)));
    app.update_checked(Ok(None));
    assert_eq!(app.notice(), Some(("hop is up to date.", false)));
    app.update_checked(Err(UpdateError::Network("down".to_string())));
    assert_eq!(app.notice(), Some(("could not reach GitHub: down", true)));
}
