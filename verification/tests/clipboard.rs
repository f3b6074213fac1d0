use hop::clipboard::{
    admit_text, local_change, Clipboard, ClipboardSync, FakeClipboard, LocalChange, MAX_CLIPBOARD_BYTES,
};

#[test]
fn the_first_look_never_reports_a_change() {
    let mut sync = ClipboardSync::new();
    let mut clip = FakeClipboard::new();
    clip.user_copies("copied before hop ran");
    assert_eq!(sync.poll_local_change(&clip), None);
}

#[test]
fn a_local_copy_is_reported_once() {
    let mut sync = ClipboardSync::new();
    let mut clip = FakeClipboard::new();
    sync.poll_local_change(&clip);

    clip.user_copies("hello");
    assert_eq!(sync.poll_local_change(&clip), Some("hello".to_string()));
    assert_eq!(sync.poll_local_change(&clip), None);
}

#[test]
fn applying_the_peers_clipboard_is_never_echoed_back() {
    let mut sync = ClipboardSync::new();
    let mut clip = FakeClipboard::new();
    sync.poll_local_change(&clip);

    sync.apply_remote(&mut clip, "from the peer");
    assert_eq!(clip.get_text(), Some("from the peer".to_string()));
    assert_eq!(
        sync.poll_local_change(&clip),
        None,
        "applying the peer's clipboard must not come back as a local change"
    );
}

#[test]
fn a_local_copy_after_a_remote_apply_still_syncs() {
    let mut sync = ClipboardSync::new();
    let mut clip = FakeClipboard::new();
    sync.poll_local_change(&clip);
    sync.apply_remote(&mut clip, "from the peer");
    assert_eq!(sync.poll_local_change(&clip), None);

    clip.user_copies("something I copied myself");
    assert_eq!(
        sync.poll_local_change(&clip),
        Some("something I copied myself".to_string())
    );
}

#[test]
fn oversized_clipboards_are_skipped_rather_than_truncated() {
    let mut sync = ClipboardSync::new();
    let mut clip = FakeClipboard::new();
    sync.poll_local_change(&clip);

    clip.user_copies(&"x".repeat(MAX_CLIPBOARD_BYTES + 1));
    assert_eq!(sync.poll_local_change(&clip), None);

    clip.user_copies("small again");
    assert_eq!(
        sync.poll_local_change(&clip),
        Some("small again".to_string())
    );
}

#[test]
fn a_non_text_clipboard_is_ignored() {
    let mut sync = ClipboardSync::new();
    let mut clip = FakeClipboard::new();
    sync.poll_local_change(&clip);

    clip.text = None;
    clip.count += 1;
    assert_eq!(sync.poll_local_change(&clip), None);
}

#[test]
fn only_text_that_fits_is_admitted() {
    let largest = "x".repeat(MAX_CLIPBOARD_BYTES);
    assert_eq!(admit_text(Some(largest.clone())), Some(largest));
    assert_eq!(admit_text(Some("x".repeat(MAX_CLIPBOARD_BYTES + 1))), None);
    assert_eq!(admit_text(Some(String::new())), Some(String::new()));
    assert_eq!(admit_text(None), None);
}

#[test]
fn the_limit_counts_bytes_and_not_characters() {
    let wide = "\u{1f600}".repeat(MAX_CLIPBOARD_BYTES / 4);
    assert_eq!(wide.len(), MAX_CLIPBOARD_BYTES);
    assert_eq!(admit_text(Some(wide.clone())), Some(wide));
    assert_eq!(admit_text(Some("\u{1f600}".repeat(MAX_CLIPBOARD_BYTES / 4 + 1))), None);
}

#[test]
fn a_noted_write_is_not_a_change() {
    let mut sync = ClipboardSync::new();
    assert!(!sync.note_count(4));
    sync.note_write(5);
    assert!(!sync.note_count(5));
    assert!(sync.note_count(6));
    assert!(!sync.note_count(6));
}

#[test]
fn exactly_one_copied_file_goes_as_a_file() {
    let paths = |n: usize| ["/a", "/b"][..n].iter().map(|p| p.to_string()).collect::<Vec<String>>();
    let text = || Some("/a".to_string());
    assert_eq!(local_change(&paths(1), text()), Some(LocalChange::File("/a".to_string())));
    assert_eq!(local_change(&paths(1), None), Some(LocalChange::File("/a".to_string())));
    assert_eq!(local_change(&paths(0), text()), Some(LocalChange::Text("/a".to_string())));
    assert_eq!(local_change(&paths(2), text()), Some(LocalChange::Text("/a".to_string())));
    assert_eq!(local_change(&paths(2), None), None);
    assert_eq!(local_change(&paths(0), Some("x".repeat(MAX_CLIPBOARD_BYTES + 1))), None);
}

/// Refuses every text.
struct LockedClipboard {
    count: i64,
}

impl Clipboard for LockedClipboard {
    fn change_count(&self) -> i64 {
        self.count
    }

    fn get_text(&self) -> Option<String> {
        Some("mine".to_string())
    }

    fn set_text(&mut self, _text: &str) -> bool {
        false
    }
}

#[test]
fn a_refused_write_does_not_swallow_a_local_copy() {
    let mut sync = ClipboardSync::new();
    let mut clip = LockedClipboard { count: 1 };
    assert_eq!(sync.poll_local_change(&clip), None);
    clip.count = 2;
    sync.apply_remote(&mut clip, "theirs");
    assert_eq!(sync.poll_local_change(&clip), Some("mine".to_string()));

    let mut unseen = ClipboardSync::new();
    unseen.apply_remote(&mut clip, "theirs");
    assert_eq!(unseen.poll_local_change(&clip), None);
}
