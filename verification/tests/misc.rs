use gpui_primitives::cursor_blink::{BlinkTimer, CursorBlink, BLINK_INTERVAL_MS};
use gpui_primitives::decoration::DecorationDisplay;
use gpui_primitives::display_text::{map_chars, marked_text_runs, resolve_display_text};
use gpui_primitives::text_transforms::password;

#[test]
fn password_hides_every_char() {
    assert_eq!(password('a'), '*');
    assert_eq!(password('\u{e9}'), '*');
}

#[test]
fn display_text_uses_placeholder_only_for_empty_placeholder_line() {
    let none: Option<&fn(char) -> char> = None;
    assert_eq!(resolve_display_text("", true, "Type here", none), (String::from("Type here"), true));
    assert_eq!(resolve_display_text("", false, "Type here", none), (String::new(), false));
    assert_eq!(resolve_display_text("abc", true, "Type here", none), (String::from("abc"), false));
    let hide = |c: char| password(c);
    assert_eq!(resolve_display_text("secret", false, "", Some(&hide)), (String::from("******"), false));
    assert_eq!(map_chars("ab", &|c: char| c.to_ascii_uppercase()), "AB");
}

#[test]
fn cursor_blink_starts_visible_and_toggles() {
    let mut blink = CursorBlink::new();
    assert!(blink.visible());
    let epoch = blink.start().epoch;
    assert!(blink.visible());
    assert!(blink.blink(epoch).is_some());
    assert!(!blink.visible());
    assert!(blink.blink(epoch).is_some());
    assert!(blink.visible());
}

#[test]
fn cursor_blink_ignores_stale_timers() {
    let mut blink = CursorBlink::new();
    let old = blink.start().epoch;
    let new = blink.reset().epoch;
    assert_ne!(old, new);
    assert!(blink.blink(old).is_none());
    assert!(blink.visible());
    assert!(blink.blink(new).is_some());
    assert!(!blink.visible());
    blink.stop();
    assert!(blink.visible());
    assert!(blink.blink(new).is_none());
}

#[test]
fn composition_splits_the_text_runs() {
    assert_eq!(marked_text_runs(5, &None), vec![(5, false)]);
    assert_eq!(marked_text_runs(0, &None), vec![(0, false)]);
    assert_eq!(marked_text_runs(10, &Some(2..5)), vec![(2, false), (3, true), (5, false)]);
    assert_eq!(marked_text_runs(5, &Some(0..5)), vec![(5, true)]);
    assert_eq!(marked_text_runs(5, &Some(5..5)), vec![(5, false)]);
}

#[test]
fn decorations_affect_layout_by_default() {
    assert_eq!(DecorationDisplay::default(), DecorationDisplay::Block);
    assert_ne!(DecorationDisplay::Overlay, DecorationDisplay::Block);
}

#[test]
fn cursor_blink_parity_over_a_sequence() {
    let mut blink = CursorBlink::new();
    let epoch = blink.start().epoch;
    for i in 0..5 {
        assert!(blink.blink(epoch).is_some());
        assert_eq!(blink.visible(), i % 2 == 1);
    }
    let stale = epoch;
    let epoch = blink.reset().epoch;
    assert!(blink.visible());
    assert!(blink.blink(stale).is_none());
    assert!(blink.blink(epoch).is_some());
    assert!(!blink.visible());
}

#[test]
fn cursor_blink_timers_are_due_after_the_blink_interval() {
    assert_eq!(BLINK_INTERVAL_MS, 530);
    let mut blink = CursorBlink::new();
    let timer = blink.start();
    assert_eq!(timer, BlinkTimer { epoch: 1, delay_ms: 530 });
    assert_eq!(blink.blink(1), Some(BlinkTimer { epoch: 1, delay_ms: 530 }));
    let timer = blink.reset();
    assert_eq!(timer, BlinkTimer { epoch: 2, delay_ms: 530 });
    assert_eq!(blink.blink(1), None);
}
