use push_to_talk::bindings::{resolve_bindings, HotkeySpec, KeySelector, KeymapEntry,
    ModifierMapEntry};
use push_to_talk::interpreter::{
    Action, EventKind, KeyEvent, KeyEventInterpreter, StreamEvent, DEFAULT_UNMUTE_DELAY_MS,
    SETTLE_DELAY_MS,
};
use push_to_talk::mask::{ModifierMask, MOD_3, MOD_CONTROL};

fn interpreter(push_bits: u8, toggle: Option<u8>, code: u8) -> KeyEventInterpreter {
    let keymap: Vec<KeymapEntry> = Vec::new();
    let modmap: Vec<ModifierMapEntry> = Vec::new();
    let push = HotkeySpec {
        modifiers: ModifierMask::from_bits(push_bits),
        key: KeySelector::Code(code),
    };
    let toggle = toggle.map(|bits| HotkeySpec {
        modifiers: ModifierMask::from_bits(bits),
        key: KeySelector::Code(code),
    });
    let resolved = resolve_bindings(push, toggle, &keymap, &modmap).unwrap();
    KeyEventInterpreter::new(resolved.press, resolved.release)
}

fn press(bits: u8, code: u8, time: u32) -> KeyEvent {
    KeyEvent {
        kind: EventKind::Press,
        modifiers: ModifierMask::from_bits(bits),
        code,
        time,
    }
}

fn release(bits: u8, code: u8, time: u32) -> KeyEvent {
    KeyEvent {
        kind: EventKind::Release,
        modifiers: ModifierMask::from_bits(bits),
        code,
        time,
    }
}

#[test]
fn push_scenario_unmutes_on_press_and_mutes_on_release() {
    // Push binding: modifiers {mod3}, keycode 62, unmute delay 150 ms.
    let mut interp = interpreter(MOD_3, None, 62);
    assert_eq!(DEFAULT_UNMUTE_DELAY_MS, 150);
    assert!(!interp.desired);

    // Press at t=0: the caller sleeps the delay, then capture goes on.
    let r = interp.step(press(MOD_3, 62, 0), None);
    assert_eq!(r.action, Action::UnmuteWithDelay);
    assert!(!r.discarded);
    assert!(interp.desired);

    // Release at t=400 ms: capture goes off immediately.
    let r = interp.step(release(MOD_3, 62, 400), None);
    assert_eq!(r.action, Action::MuteImmediately);
    assert!(!r.discarded);
    assert!(!interp.desired);
}

#[test]
fn toggle_scenario_full_cycle_from_unmuted() {
    // Toggle binding: modifiers {mod3, control}, keycode 62, starting
    // state Unmuted.
    let bits = MOD_3 | MOD_CONTROL;
    let mut interp = interpreter(MOD_CONTROL, Some(bits), 63);
    interp.desired = true;

    // Press: mute immediately, latch set.
    let r = interp.step(press(bits, 63, 10), None);
    assert_eq!(r.action, Action::MuteImmediately);
    assert!(!interp.desired);
    assert!(interp.latch);

    // Matching release: remains muted, latch cleared.
    let r = interp.step(release(bits, 63, 20), None);
    assert_eq!(r.action, Action::Nothing);
    assert!(!interp.desired);
    assert!(!interp.latch);

    // Second press: no-op, already muted.
    let r = interp.step(press(bits, 63, 30), None);
    assert_eq!(r.action, Action::Nothing);
    assert!(!interp.desired);
    assert!(!interp.latch);

    // Second release: unmute.
    let r = interp.step(release(bits, 63, 40), None);
    assert_eq!(r.action, Action::UnmuteWithDelay);
    assert!(interp.desired);
    assert!(!interp.latch);
}

#[test]
fn toggle_cycle_flips_desired_exactly_once_per_cycle() {
    let bits = MOD_3;
    let mut interp = interpreter(MOD_CONTROL, Some(bits), 62);
    let mut t: u32 = 0;
    // Four full cycles from Muted: each flips the desired state once.
    for cycle in 0..4u32 {
        let before = interp.desired;
        interp.step(press(bits, 62, t), None);
        interp.step(release(bits, 62, t + 1), None);
        t += 2;
        assert_eq!(interp.desired, !before, "cycle {cycle}");
        assert!(!interp.latch);
    }
    assert_eq!(interp.desired, false);
}

#[test]
fn spurious_repeat_is_fully_discarded() {
    // A release peeked together with a press of identical keycode and
    // identical timestamp triggers no role at all.
    let mut interp = interpreter(MOD_3, None, 62);
    interp.step(press(MOD_3, 62, 0), None);
    assert!(interp.desired);

    let r = interp.step(release(MOD_3, 62, 500), Some(press(MOD_3, 62, 500)));
    assert!(r.discarded);
    assert_eq!(r.action, Action::Nothing);
    assert!(interp.desired, "the spurious release must not mute");
}

#[test]
fn differing_timestamp_defeats_the_debounce() {
    let mut interp = interpreter(MOD_3, None, 62);
    interp.step(press(MOD_3, 62, 0), None);
    let r = interp.step(release(MOD_3, 62, 500), Some(press(MOD_3, 62, 501)));
    assert!(!r.discarded);
    assert_eq!(r.action, Action::MuteImmediately);
    assert!(!interp.desired);
}

#[test]
fn differing_keycode_defeats_the_debounce() {
    let mut interp = interpreter(MOD_3, None, 62);
    interp.step(press(MOD_3, 62, 0), None);
    let r = interp.step(release(MOD_3, 62, 500), Some(press(MOD_3, 63, 500)));
    assert!(!r.discarded);
    assert_eq!(r.action, Action::MuteImmediately);
}

#[test]
fn press_followed_by_peeked_release_is_not_debounced() {
    // The rule fires only for a release whose peeked follower is a press.
    let mut interp = interpreter(MOD_3, None, 62);
    let r = interp.step(press(MOD_3, 62, 100), Some(release(MOD_3, 62, 100)));
    assert!(!r.discarded);
    assert_eq!(r.action, Action::UnmuteWithDelay);
    assert!(interp.desired);
}

#[test]
fn unmatched_events_are_no_ops() {
    let mut interp = interpreter(MOD_3, None, 62);
    let r = interp.step(press(0, 62, 0), None);
    assert_eq!(r.action, Action::Nothing);
    let r = interp.step(press(MOD_3, 61, 0), None);
    assert_eq!(r.action, Action::Nothing);
    assert!(!interp.desired);
}

#[test]
fn holding_the_push_key_unmutes_only_once_per_press() {
    let mut interp = interpreter(MOD_3, None, 62);
    let r = interp.step(press(MOD_3, 62, 0), None);
    assert_eq!(r.action, Action::UnmuteWithDelay);
    // However long the key is held, nothing else happens until the release.
    let r = interp.step(release(MOD_3, 62, 30_000), None);
    assert_eq!(r.action, Action::MuteImmediately);
    assert!(!interp.desired);
}

#[test]
fn unsupported_stream_events_are_fatal() {
    assert!(StreamEvent::Unsupported.is_fatal());
    assert!(!StreamEvent::Ignorable.is_fatal());
    let ev = KeyEvent {
        kind: EventKind::Press,
        modifiers: ModifierMask::from_bits(0),
        code: 1,
        time: 0,
    };
    assert!(!StreamEvent::Key(ev).is_fatal());
}

#[test]
fn settle_delay_is_a_short_fixed_wait() {
    assert!(SETTLE_DELAY_MS >= 10 && SETTLE_DELAY_MS < 100);
}
