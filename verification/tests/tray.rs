use hop::windows::autostart::startup_command;
use hop::windows::clipboard::{file_bytes, text_bytes, HEADER_BYTES};
use hop::windows::http::check_part;
use hop::windows::tray::{
    child_is_running, offered, picked, status_text, write_tip, Child, TrayEvent, ID_QUIT, ID_START, ID_STOP, TIP_UNITS,
};

#[test]
fn each_entry_has_its_number() {
    assert_eq!(picked(ID_START), Some(TrayEvent::Start));
    assert_eq!(picked(ID_STOP), Some(TrayEvent::Stop));
    assert_eq!(picked(ID_QUIT), Some(TrayEvent::Quit));
    assert_eq!(picked(0), None);
}

#[test]
fn only_what_would_do_something_is_offered() {
    assert!(offered(TrayEvent::Start, false) && !offered(TrayEvent::Start, true));
    assert!(offered(TrayEvent::Stop, true) && !offered(TrayEvent::Stop, false));
    assert!(offered(TrayEvent::Quit, true) && offered(TrayEvent::Quit, false));
    assert_eq!(status_text(true), "hop: running");
    assert_eq!(status_text(false), "hop: stopped");
}

#[test]
fn a_child_that_cannot_be_asked_counts_as_running() {
    assert!(child_is_running(Child::Alive) && child_is_running(Child::Unknown));
    assert!(!child_is_running(Child::Absent) && !child_is_running(Child::Exited));
}

#[test]
fn the_tip_always_ends_in_a_zero() {
    let short = write_tip(&vec![104, 111, 112]);
    assert_eq!(short.len(), TIP_UNITS);
    assert_eq!(short[..4], [104, 111, 112, 0]);
    let long = write_tip(&vec![7; 500]);
    assert_eq!(long.len(), TIP_UNITS);
    assert_eq!(long[TIP_UNITS - 2], 7);
    assert_eq!(long[TIP_UNITS - 1], 0);
}

#[test]
fn a_reply_is_read_up_to_its_limit() {
    assert_eq!(check_part(90, 10, 100), Ok(()));
    assert_eq!(
        check_part(90, 11, 100),
        Err("the reply is larger than the 100 byte limit".to_string())
    );
    assert!(check_part(usize::MAX, u32::MAX, 100).is_err());
}

#[test]
fn the_startup_command_quotes_its_paths() {
    assert_eq!(
        startup_command("C:\\Program Files\\hop.exe", "C:\\my config.toml"),
        "\"C:\\Program Files\\hop.exe\" gui --config \"C:\\my config.toml\""
    );
}

#[test]
fn text_ends_in_a_zero_on_the_clipboard() {
    assert_eq!(text_bytes(&vec![0x68, 0x263A]), [0x68, 0, 0x3A, 0x26, 0, 0]);
    assert_eq!(text_bytes(&vec![]), [0, 0]);
}

#[test]
fn a_file_is_a_list_of_one_path_on_the_clipboard() {
    let bytes = file_bytes(&vec![0x43, 0x3A]);
    let header = HEADER_BYTES as usize;
    assert_eq!(bytes[..header], [20, 0, 0, 0, 0, 0, 0, 0, 0, 0, 0, 0, 0, 0, 0, 0, 1, 0, 0, 0]);
    assert_eq!(bytes[header..], [0x43, 0, 0x3A, 0, 0, 0, 0, 0]);
}
