use std::path::{Path, PathBuf};

use hop::clipboard::LocalChange;
use hop::config::FilePath;
use hop::filetransfer::{
    safe_file_name, send_local_change, FileError, FileInbox, FileOutcome, FileReceive, CHUNK_BYTES, MAX_FILE_BYTES,
};
use hop::message::Message;

/// A path as the system takes it.
fn on_system(path: FilePath) -> PathBuf {
    Path::new(&path.base).join(path.below.expect("a file"))
}

fn in_stage(name: &str) -> FilePath {
    FilePath { base: "/stage".to_string(), below: Some(name.to_string()) }
}

#[test]
fn plain_names_are_accepted() {
    assert!(safe_file_name("notes.txt").is_ok());
    assert!(safe_file_name("a file with spaces.pdf").is_ok());
    assert!(safe_file_name("caf\u{e9}.txt").is_ok());
}

#[test]
fn path_traversal_is_refused_not_sanitised() {
    for name in [
        "../secret",
        "../../etc/passwd",
        "/etc/passwd",
        "sub/dir.txt",
        "..\\windows\\system32",
        "C:\\Windows\\evil.exe",
        "..",
        ".",
        "",
    ] {
        assert!(
            safe_file_name(name).is_err(),
            "{name:?} should have been refused"
        );
    }
}

#[test]
fn a_name_with_a_null_byte_is_refused() {
    assert!(safe_file_name("evil\0.txt").is_err());
}

#[test]
fn an_oversized_offer_is_refused_before_any_data_arrives() {
    let err = FileReceive::begin("/tmp", "big.bin", MAX_FILE_BYTES + 1).unwrap_err();
    assert!(matches!(err, FileError::TooLarge { .. }));
}

#[test]
fn chunks_accumulate_to_completion() {
    let mut rx = FileReceive::begin("/tmp", "notes.txt", 5).expect("begin");
    assert!(!rx.is_complete());
    rx.chunk(b"hel").expect("chunk");
    rx.chunk(b"lo").expect("chunk");
    assert!(rx.is_complete());
    assert_eq!(rx.into_bytes(), b"hello");
}

#[test]
fn a_peer_cannot_send_more_than_it_offered() {
    let mut rx = FileReceive::begin("/tmp", "small.bin", 2).expect("begin");
    assert_eq!(rx.chunk(b"toolong"), Err(FileError::Overrun));
}

#[test]
fn the_destination_stays_inside_the_staging_directory() {
    let rx = FileReceive::begin("/tmp/stage", "notes.txt", 1).expect("begin");
    assert_eq!(on_system(rx.destination()), Path::new("/tmp/stage/notes.txt"));
    assert!(on_system(rx.destination()).starts_with("/tmp/stage"));
}

#[test]
fn an_incomplete_transfer_is_never_complete() {
    let mut rx = FileReceive::begin("/tmp", "notes.txt", 10).expect("begin");
    rx.chunk(b"partial").expect("chunk");
    assert!(!rx.is_complete());
}

#[test]
fn a_drive_prefix_is_refused() {
    assert!(safe_file_name("C:evil.exe").is_err());
    assert!(safe_file_name("c:").is_err());
    assert_eq!(safe_file_name("1:2"), Ok("1:2"));
}

#[test]
fn an_accepted_name_is_handed_back_unchanged() {
    assert_eq!(safe_file_name("...hidden"), Ok("...hidden"));
    assert_eq!(safe_file_name("a..b"), Ok("a..b"));
}

#[test]
fn the_largest_offer_is_accepted() {
    let rx = FileReceive::begin("/tmp", "big.bin", MAX_FILE_BYTES).expect("begin");
    assert_eq!(rx.expected(), MAX_FILE_BYTES);
    assert_eq!(rx.received(), 0);
}

#[test]
fn an_empty_file_is_complete_at_once() {
    let rx = FileReceive::begin("/tmp", "empty", 0).expect("begin");
    assert!(rx.is_complete());
    assert_eq!(rx.into_bytes(), Vec::<u8>::new());
}

#[test]
fn a_refused_chunk_leaves_nothing_behind() {
    let mut rx = FileReceive::begin("/tmp", "a", 4).expect("begin");
    rx.chunk(b"ab").expect("chunk");
    assert_eq!(rx.chunk(b"cde"), Err(FileError::Overrun));
    assert_eq!(rx.received(), 2);
    rx.chunk(b"cd").expect("chunk");
    assert_eq!(rx.into_bytes(), b"abcd");
}

#[test]
fn every_refusal_has_words() {
    assert_eq!(
        FileError::UnsafeName("../x".to_string()).message(),
        "the peer offered a file name that is not a bare name: \"../x\""
    );
    assert_eq!(
        FileError::UnsafeName("a/\u{1b}[2J\n\"caf\u{e9}".to_string()).message(),
        "the peer offered a file name that is not a bare name: \"a/\\u{1b}[2J\\n\\\"caf\u{e9}\""
    );
    assert_eq!(
        FileError::TooLarge { size: 104857601, max: MAX_FILE_BYTES }.message(),
        "the peer offered 104857601 bytes, over the 104857600 byte limit"
    );
    assert_eq!(FileError::Overrun.message(), "the peer sent more data than it offered");
    assert_eq!(FileError::NoOffer.message(), "received a file chunk without an offer");
}

#[test]
fn copied_text_is_one_message() {
    assert_eq!(
        send_local_change(LocalChange::Text("hi".to_string()), None, None),
        vec![Message::ClipboardText("hi".to_string())]
    );
}

#[test]
fn a_copied_file_is_offered_then_sent_in_chunks() {
    let bytes: Vec<u8> = (0..CHUNK_BYTES + 3).map(|i| i as u8).collect();
    let sent = send_local_change(
        LocalChange::File("/home/me/notes.txt".to_string()),
        Some("notes.txt".to_string()),
        Some(bytes.clone()),
    );
    assert_eq!(
        sent,
        vec![
            Message::FileOffer { name: "notes.txt".to_string(), size: (CHUNK_BYTES + 3) as u64 },
            Message::FileChunk(bytes[..CHUNK_BYTES].to_vec()),
            Message::FileChunk(bytes[CHUNK_BYTES..].to_vec()),
            Message::FileEnd,
        ]
    );
}

#[test]
fn what_cannot_be_read_or_is_too_large_is_not_sent() {
    let path = || LocalChange::File("/home/me/notes.txt".to_string());
    let name = || Some("notes.txt".to_string());
    assert_eq!(send_local_change(path(), name(), None), vec![]);
    assert_eq!(send_local_change(path(), None, Some(vec![1])), vec![]);
    assert_eq!(send_local_change(path(), name(), Some(vec![0; MAX_FILE_BYTES as usize + 1])), vec![]);
}

#[test]
fn a_file_survives_the_crossing() {
    let bytes: Vec<u8> = (0..2 * CHUNK_BYTES + 7).map(|i| (i * 31) as u8).collect();
    let sent = send_local_change(
        LocalChange::File("/home/me/notes.txt".to_string()),
        Some("notes.txt".to_string()),
        Some(bytes.clone()),
    );
    let mut inbox = FileInbox::new();
    let last = sent.len() - 1;
    for (at, message) in sent.into_iter().enumerate() {
        let outcome = inbox.on_message("/stage", message).expect("accepted");
        if at < last {
            assert_eq!(outcome, FileOutcome::Nothing);
        } else {
            assert_eq!(
                outcome,
                FileOutcome::Arrived { destination: in_stage("notes.txt"), bytes: bytes.clone() }
            );
        }
    }
}

#[test]
fn only_a_whole_file_arrives() {
    let offer = || Message::FileOffer { name: "a".to_string(), size: 3 };
    let mut inbox = FileInbox::new();
    inbox.on_message("/stage", offer()).expect("offer");
    inbox.on_message("/stage", Message::FileChunk(vec![1])).expect("chunk");
    assert_eq!(inbox.on_message("/stage", Message::FileEnd), Ok(FileOutcome::Discarded));
    assert_eq!(inbox.on_message("/stage", Message::FileEnd), Ok(FileOutcome::Nothing));

    inbox.on_message("/stage", offer()).expect("offer");
    assert_eq!(inbox.on_message("/stage", Message::FileAbort), Ok(FileOutcome::Discarded));
    assert_eq!(inbox.on_message("/stage", Message::FileAbort), Ok(FileOutcome::Nothing));

    inbox.on_message("/stage", offer()).expect("offer");
    assert_eq!(
        inbox.on_message("/stage", Message::FileChunk(vec![1, 2, 3, 4])),
        Err(FileError::Overrun)
    );
    assert_eq!(
        inbox.on_message("/stage", Message::FileChunk(vec![1])),
        Err(FileError::NoOffer)
    );
}

#[test]
fn a_refused_offer_replaces_what_was_arriving() {
    let mut inbox = FileInbox::new();
    let good = Message::FileOffer { name: "a".to_string(), size: 1 };
    inbox.on_message("/stage", good).expect("offer");
    let bad = Message::FileOffer { name: "../a".to_string(), size: 1 };
    assert_eq!(
        inbox.on_message("/stage", bad),
        Err(FileError::UnsafeName("../a".to_string()))
    );
    let large = Message::FileOffer { name: "a".to_string(), size: MAX_FILE_BYTES + 1 };
    assert_eq!(
        inbox.on_message("/stage", large),
        Err(FileError::TooLarge { size: MAX_FILE_BYTES + 1, max: MAX_FILE_BYTES })
    );
    assert_eq!(
        inbox.on_message("/stage", Message::FileChunk(vec![1])),
        Err(FileError::NoOffer)
    );
}

#[test]
fn other_messages_leave_a_transfer_alone() {
    let mut inbox = FileInbox::new();
    let offer = Message::FileOffer { name: "a".to_string(), size: 1 };
    inbox.on_message("/stage", offer).expect("offer");
    assert_eq!(inbox.on_message("/stage", Message::Heartbeat), Ok(FileOutcome::Nothing));
    inbox.on_message("/stage", Message::FileChunk(vec![9])).expect("chunk");
    assert_eq!(
        inbox.on_message("/stage", Message::FileEnd),
        Ok(FileOutcome::Arrived { destination: in_stage("a"), bytes: vec![9] })
    );
}
