use pexand::db::Snippet;
use pexand::sentinel::variables::uses_clipboard;
use pexand::settings::{app_list_from_json, app_list_to_json};

#[test]
fn application_lists_are_read_from_json() {
    assert_eq!(
        app_list_from_json("[\"notepad.exe\", \"cmd.exe\"]"),
        vec!["notepad.exe".to_string(), "cmd.exe".to_string()]
    );
    assert_eq!(app_list_from_json("[]"), Vec::<String>::new());
}

#[test]
fn unreadable_settings_give_no_application() {
    assert!(app_list_from_json("not json").is_empty());
    assert!(app_list_from_json("[1, 2]").is_empty());
    assert!(app_list_from_json("").is_empty());
}

#[test]
fn written_lists_read_back() {
    let apps = vec!["a.exe".to_string(), "b \"x\".exe".to_string()];
    let text = app_list_to_json(&apps);
    assert_eq!(app_list_from_json(&text), apps);
    assert!(text.contains('\n'));
}

#[test]
fn lists_are_written_one_string_per_line() {
    assert_eq!(app_list_to_json(&vec![]), "[]");
    assert_eq!(
        app_list_to_json(&vec!["a.exe".to_string(), "b.exe".to_string()]),
        "[\n  \"a.exe\",\n  \"b.exe\"\n]"
    );
    assert_eq!(
        app_list_to_json(&vec!["q\"\\\n\t\u{1}\u{1f}é/".to_string()]),
        "[\n  \"q\\\"\\\\\\n\\t\\u0001\\u001fé/\"\n]"
    );
}

#[test]
fn clipboard_is_needed_only_for_its_variable() {
    assert!(uses_clipboard("paste: {{clipboard}}"));
    assert!(!uses_clipboard("date {{date}} and {{clipboard:x}}"));
    assert!(!uses_clipboard("open {{clipboard"));
}

#[test]
fn timestamps_can_be_given() {
    let s = Snippet::new_at(";a".to_string(), "b".to_string(), 42);
    assert_eq!((s.created_at, s.updated_at), (42, 42));
    let t = Snippet::with_label_at(";a".to_string(), Some("l".to_string()), "b".to_string(), 7);
    assert_eq!((t.created_at, t.updated_at), (7, 7));
    assert_eq!(t.label, Some("l".to_string()));
    let mut u = t.clone();
    u.touch_at(9);
    assert_eq!((u.created_at, u.updated_at), (7, 9));
}
