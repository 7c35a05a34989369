use pexand::sentinel::injector::{
    Keystroke, BACKSPACE_DELAY_MS, DEFAULT_DELAY_MS, MEDIUM_TEXT_THRESHOLD, SHORT_TEXT_THRESHOLD,
};
use pexand::sentinel::Injector;

#[test]
fn test_injector_creation() {
    let injector = Injector::new();
    assert_eq!(injector.delay_ms, DEFAULT_DELAY_MS);
    assert_eq!(injector.backspace_delay_ms, BACKSPACE_DELAY_MS);
}

#[test]
fn test_injector_with_delay() {
    let injector = Injector::with_delay(20);
    assert_eq!(injector.delay_ms, 20);
}

#[test]
fn test_set_delay() {
    let mut injector = Injector::new();
    injector.set_delay(15);
    assert_eq!(injector.delay_ms, 15);

    injector.set_backspace_delay(5);
    assert_eq!(injector.backspace_delay_ms, 5);
}

#[test]
fn test_adaptive_delays() {
    let injector = Injector::new();

    let short_text = "hi";
    assert!(short_text.chars().count() < SHORT_TEXT_THRESHOLD);

    let medium_text = "a".repeat(100);
    assert!(medium_text.chars().count() >= SHORT_TEXT_THRESHOLD);
    assert!(medium_text.chars().count() < MEDIUM_TEXT_THRESHOLD);

    let long_text = "a".repeat(250);
    assert!(long_text.chars().count() >= MEDIUM_TEXT_THRESHOLD);

    assert_eq!(injector.get_delay(), DEFAULT_DELAY_MS);
}

#[test]
fn typing_delay_follows_text_length() {
    let injector = Injector::with_delay(7);
    assert_eq!(injector.typing_delay(2), 0);
    assert_eq!(injector.typing_delay(49), 0);
    assert_eq!(injector.typing_delay(50), 1);
    assert_eq!(injector.typing_delay(199), 1);
    assert_eq!(injector.typing_delay(200), 7);
    assert_eq!(injector.typing_delay(250), 7);
}

#[test]
fn backspace_pause_never_exceeds_one_millisecond() {
    assert_eq!(Injector::with_delay(20).backspace_delay_ms, 1);
    assert_eq!(Injector::with_delay(0).backspace_delay_ms, 0);
}

#[test]
fn line_breaks_become_return_keystrokes() {
    let keys = Injector::keystrokes("a\nb");
    assert_eq!(
        keys,
        vec![Keystroke::Text('a'), Keystroke::Return, Keystroke::Text('b')]
    );
}

#[test]
fn default_injector_uses_default_timing() {
    let injector = Injector::default();
    assert_eq!(injector.get_delay(), 2);
    assert_eq!(injector.backspace_delay_ms, 1);
}
