use pexand::sentinel::sentinel::{
    delete_count, handle_key_press, is_current_app_blacklisted, is_delimiter, is_expansion_allowed,
    plan_expansion,
    key_to_char, KeyCode,
};
use pexand::sentinel::{Buffer, Trie};

#[test]
fn test_key_to_char() {
    assert_eq!(key_to_char(KeyCode::KeyA), Some('a'));
    assert_eq!(key_to_char(KeyCode::Space), Some(' '));
    assert_eq!(key_to_char(KeyCode::SemiColon), Some(';'));
    assert_eq!(key_to_char(KeyCode::Escape), None);
}

#[test]
fn keys_map_to_their_characters() {
    assert_eq!(key_to_char(KeyCode::KeyZ), Some('z'));
    assert_eq!(key_to_char(KeyCode::Num0), Some('0'));
    assert_eq!(key_to_char(KeyCode::Num9), Some('9'));
    assert_eq!(key_to_char(KeyCode::BackSlash), Some('\\'));
    assert_eq!(key_to_char(KeyCode::Quote), Some('\''));
    assert_eq!(key_to_char(KeyCode::BackQuote), Some('`'));
    assert_eq!(key_to_char(KeyCode::Return), None);
    assert_eq!(key_to_char(KeyCode::Tab), None);
    assert_eq!(key_to_char(KeyCode::Other), None);
}

#[test]
fn delimiters_are_the_word_ending_keys() {
    for k in [
        KeyCode::Space,
        KeyCode::Return,
        KeyCode::Tab,
        KeyCode::Comma,
        KeyCode::Dot,
        KeyCode::SemiColon,
        KeyCode::Slash,
        KeyCode::BackSlash,
    ] {
        assert!(is_delimiter(k));
    }
    assert!(!is_delimiter(KeyCode::KeyA));
    assert!(!is_delimiter(KeyCode::Minus));
    assert!(!is_delimiter(KeyCode::Escape));
}

fn type_keys(keys: &[KeyCode], buffer: &mut Buffer, trie: &Trie) -> Option<String> {
    let mut last = None;
    for k in keys {
        last = handle_key_press(*k, buffer, trie);
    }
    last
}

#[test]
fn typing_a_trigger_and_space_asks_for_expansion() {
    let mut trie = Trie::new();
    trie.insert(";name");
    let mut buffer = Buffer::new(50);
    let keys = [
        KeyCode::SemiColon,
        KeyCode::KeyN,
        KeyCode::KeyA,
        KeyCode::KeyM,
        KeyCode::KeyE,
        KeyCode::Space,
    ];
    assert_eq!(type_keys(&keys, &mut buffer, &trie), Some(";name".to_string()));
    assert_eq!(buffer.as_string(), ";name ");
}

#[test]
fn no_expansion_before_the_delimiter() {
    let mut trie = Trie::new();
    trie.insert(";name");
    let mut buffer = Buffer::new(50);
    let keys = [
        KeyCode::SemiColon,
        KeyCode::KeyN,
        KeyCode::KeyA,
        KeyCode::KeyM,
        KeyCode::KeyE,
    ];
    assert_eq!(type_keys(&keys, &mut buffer, &trie), None);
}

#[test]
fn return_key_searches_without_typing() {
    let mut trie = Trie::new();
    trie.insert(";ab");
    let mut buffer = Buffer::new(50);
    let keys = [KeyCode::SemiColon, KeyCode::KeyA, KeyCode::KeyB, KeyCode::Return];
    assert_eq!(type_keys(&keys, &mut buffer, &trie), Some(";ab".to_string()));
    assert_eq!(buffer.as_string(), ";ab");
}

#[test]
fn non_typing_keys_leave_the_buffer() {
    let trie = Trie::new();
    let mut buffer = Buffer::new(5);
    buffer.push('x');
    assert_eq!(handle_key_press(KeyCode::Escape, &mut buffer, &trie), None);
    assert_eq!(buffer.as_string(), "x");
}

#[test]
fn delete_count_counts_bytes_and_the_delimiter() {
    assert_eq!(delete_count(";name", true), 6);
    assert_eq!(delete_count(";name", false), 5);
    assert_eq!(delete_count(";é", false), 3);
}

#[test]
fn blacklist_ignores_case() {
    let block = vec!["Notepad.EXE".to_string(), "cmd.exe".to_string()];
    assert!(is_current_app_blacklisted(Some("notepad.exe"), &block));
    assert!(is_current_app_blacklisted(Some("CMD.EXE"), &block));
    assert!(!is_current_app_blacklisted(Some("chrome.exe"), &block));
    assert!(!is_current_app_blacklisted(None, &block));
    assert!(!is_current_app_blacklisted(Some("cmd.exe"), &[]));
}

#[test]
fn whitelist_limits_expansion_when_not_empty() {
    let only = vec!["Notepad.exe".to_string()];
    let block = vec!["cmd.exe".to_string()];
    assert!(is_expansion_allowed(Some("notepad.EXE"), &only, &block));
    assert!(!is_expansion_allowed(Some("chrome.exe"), &only, &block));
    assert!(is_expansion_allowed(Some("chrome.exe"), &[], &block));
    assert!(!is_expansion_allowed(Some("CMD.exe"), &[], &block));
    assert!(is_expansion_allowed(None, &only, &block));
}

#[test]
fn expansion_removes_trigger_and_delimiter_then_types_the_body() {

    let plan = plan_expansion(";name", "Neo Anderson", &None).unwrap();
    assert_eq!(plan.backspaces, 6);
    assert_eq!(plan.text, "Neo Anderson");
    let plan = plan_expansion(";c", "[{{clipboard}}]", &Some("x".to_string())).unwrap();
    assert_eq!(plan.backspaces, 3);
    assert_eq!(plan.text, "[x]");
    assert!(plan_expansion(";d", "{{date:%Q}}", &None).is_none());
}
