use hop::device::{Capturer, FailingInjector, FakeCapturer, FakeInjector, Injector, InputEvent};
use hop::keys::Usage;

#[test]
fn fake_capturer_yields_events_then_stops() {
    let mut c = FakeCapturer::new(vec![
        InputEvent::EdgeCrossed,
        InputEvent::Key {
            usage: Usage(Usage::C),
            pressed: true,
        },
    ]);
    assert_eq!(c.poll(), Some(InputEvent::EdgeCrossed));
    assert_eq!(
        c.poll(),
        Some(InputEvent::Key {
            usage: Usage(Usage::C),
            pressed: true
        })
    );
    assert_eq!(c.poll(), None);
}

#[test]
fn fake_injector_records_in_order() {
    let mut i = FakeInjector::new();
    i.inject(&InputEvent::Mouse { dx: 1, dy: 2 }).unwrap();
    i.inject(&InputEvent::Key {
        usage: Usage(Usage::A),
        pressed: true,
    })
    .unwrap();
    assert_eq!(
        i.injected(),
        vec![
            InputEvent::Mouse { dx: 1, dy: 2 },
            InputEvent::Key {
                usage: Usage(Usage::A),
                pressed: true
            },
        ]
    );
}

#[test]
fn a_failing_injector_says_why_and_records_nothing() {
    let mut i = FailingInjector::new();
    let error = i.inject(&InputEvent::EdgeCrossed).unwrap_err();
    assert!(error.message().starts_with("the platform rejected the event: "));
}
