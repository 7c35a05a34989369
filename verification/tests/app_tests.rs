use fuzzy_matcher::skim::SkimMatcherV2;
use fuzzy_matcher::FuzzyMatcher;
use pexand::db::Snippet;
use pexand::ui::app::{
    import_write, Command, FocusedField, Key, KeyEvent, NamedKey, SnippetWrite, ViewMode, WidgetId,
};
use pexand::ui::preview::{body_preview, trigger_display};
use pexand::ui::search::search_snippets;
use pexand::ui::{Message, PexandApp, UiExternalMessage};

fn sample() -> Vec<Snippet> {
    vec![
        Snippet::new(";date".to_string(), "{{date:%Y-%m-%d}}".to_string()),
        Snippet::new(";email".to_string(), "neo@matrix.com".to_string()),
        Snippet::new(";name".to_string(), "Neo Anderson".to_string()),
    ]
}

fn app() -> PexandApp {
    PexandApp::new(sample(), vec![], vec![])
}

fn press(app: &mut PexandApp, key: NamedKey) -> Command {
    app.update(Message::KeyPressed(KeyEvent::KeyPressed {
        key: Key::Named(key),
        control: false,
    }))
}

fn ctrl(app: &mut PexandApp, c: &str) -> Command {
    app.update(Message::KeyPressed(KeyEvent::KeyPressed {
        key: Key::Character(c.to_string()),
        control: true,
    }))
}

fn shown_triggers(app: &PexandApp) -> Vec<String> {
    app.filtered_snippets.iter().map(|(_, s)| s.trigger.clone()).collect()
}

#[test]
fn window_starts_on_the_full_list() {
    let a = app();
    assert_eq!(shown_triggers(&a), vec![";date", ";email", ";name"]);
    let idx: Vec<usize> = a.filtered_snippets.iter().map(|(i, _)| *i).collect();
    assert_eq!(idx, vec![0, 1, 2]);
    assert_eq!(a.view_mode, ViewMode::List);
    assert_eq!(a.focused_field, FocusedField::Search);
    assert!(a.window_minimized);
}

#[test]
fn search_finds_text_in_bodies() {
    let mut a = app();
    let cmd = a.update(Message::SearchChanged("matrix".to_string()));
    assert!(matches!(cmd, Command::NoOp));
    assert_eq!(shown_triggers(&a), vec![";email"]);
    a.update(Message::SearchChanged(String::new()));
    assert_eq!(shown_triggers(&a).len(), 3);
}

#[test]
fn search_ranks_by_score_then_by_order() {
    let snippets = sample();
    let query = "neo";
    let m = SkimMatcherV2::default().ignore_case();
    let score = |s: &Snippet| {
        let t = m.fuzzy_match(&s.trigger, query).unwrap_or(0);
        let b = m.fuzzy_match(&s.body, query).unwrap_or(0);
        t.max(b)
    };
    let mut expected: Vec<(usize, i64)> = snippets
        .iter()
        .enumerate()
        .map(|(i, s)| (i, score(s)))
        .filter(|p| p.1 > 0)
        .collect();
    expected.sort_by(|a, b| b.1.cmp(&a.1));
    let got: Vec<usize> = search_snippets(&snippets, query).iter().map(|p| p.0).collect();
    let want: Vec<usize> = expected.iter().map(|p| p.0).collect();
    assert_eq!(got, want);
    assert!(got.contains(&1) && got.contains(&2));
    assert!(!got.contains(&0));
}

#[test]
fn selection_goes_back_to_the_top_when_the_list_shrinks() {
    let mut a = app();
    a.update(Message::SnippetSelected(2));
    a.update(Message::SearchChanged("matrix".to_string()));
    assert_eq!(a.selected_index, 0);
}

#[test]
fn keyboard_navigation_and_editing() {
    let mut a = app();
    assert!(matches!(a.update(Message::TabPressed), Command::NoOp));
    assert_eq!(a.focused_field, FocusedField::List);
    press(&mut a, NamedKey::ArrowDown);
    press(&mut a, NamedKey::ArrowDown);
    press(&mut a, NamedKey::ArrowDown);
    assert_eq!(a.selected_index, 2);
    press(&mut a, NamedKey::ArrowUp);
    assert_eq!(a.selected_index, 1);
    press(&mut a, NamedKey::Enter);
    assert_eq!(a.view_mode, ViewMode::Editor);
    assert_eq!(a.focused_field, FocusedField::EditorTrigger);
    let e = a.editor_state.as_ref().unwrap();
    assert_eq!(e.trigger, ";email");
    assert_eq!(e.label, "");
    assert_eq!(e.body, "neo@matrix.com");
    assert_eq!(e.editing_index, Some(1));

    let cmd = press(&mut a, NamedKey::Tab);
    assert!(matches!(cmd, Command::Focus(WidgetId::LabelInput)));
    assert_eq!(a.focused_field, FocusedField::EditorLabel);
}

#[test]
fn save_writes_exactly_what_the_editor_holds() {
    let mut a = app();
    a.update(Message::EditSnippet(2));
    a.update(Message::LabelChanged("Full name".to_string()));
    a.update(Message::BodyChanged("Thomas Anderson".to_string()));
    let cmd = ctrl(&mut a, "s");
    match cmd {
        Command::Save(SnippetWrite::Update(s)) => {
            assert_eq!(s.trigger, ";name");
            assert_eq!(s.label, Some("Full name".to_string()));
            assert_eq!(s.body, "Thomas Anderson");
            assert_eq!(s.usage_count, 0);
            assert_eq!(s.created_at, a.snippets[2].created_at);
        }
        _ => panic!("expected an update"),
    }
    assert_eq!(a.view_mode, ViewMode::Editor);
    let mut stored = sample();
    stored[2].body = "Thomas Anderson".to_string();
    a.finish_save(stored);
    assert_eq!(a.view_mode, ViewMode::List);
    assert!(a.editor_state.is_none());
    assert_eq!(a.focused_field, FocusedField::Search);
    assert_eq!(a.filtered_snippets[2].1.body, "Thomas Anderson");
}

#[test]
fn new_snippet_is_created_without_a_label() {
    let mut a = app();
    let cmd = a.update(Message::NewSnippet);
    assert!(matches!(cmd, Command::Focus(WidgetId::TriggerInput)));
    assert!(matches!(a.update(Message::SaveSnippet), Command::NoOp));
    a.update(Message::TriggerChanged(";sig".to_string()));
    a.update(Message::BodyChanged("Best regards".to_string()));
    match a.update(Message::SaveSnippet) {
        Command::Save(SnippetWrite::Create(s)) => {
            assert_eq!(s.trigger, ";sig");
            assert_eq!(s.label, None);
            assert_eq!(s.body, "Best regards");
        }
        _ => panic!("expected a creation"),
    }
}

#[test]
fn saving_a_vanished_snippet_only_reloads() {
    let mut a = app();
    a.update(Message::EditSnippet(0));
    a.reload_snippets(vec![]);
    assert!(matches!(
        a.update(Message::SaveSnippet),
        Command::Save(SnippetWrite::Unchanged)
    ));
}

#[test]
fn escape_discards_edits_and_then_hides() {
    let mut a = app();
    a.update(Message::EditSnippet(0));
    a.update(Message::BodyChanged("changed".to_string()));
    assert!(matches!(press(&mut a, NamedKey::Escape), Command::NoOp));
    assert_eq!(a.view_mode, ViewMode::List);
    assert!(a.editor_state.is_none());
    assert_eq!(a.snippets[0].body, "{{date:%Y-%m-%d}}");
    a.window_minimized = false;
    assert!(matches!(press(&mut a, NamedKey::Escape), Command::HideWindow));
    assert!(a.window_minimized);
}

#[test]
fn delete_names_the_snippet_of_the_row() {
    let mut a = app();
    a.update(Message::SearchChanged("matrix".to_string()));
    match a.update(Message::DeleteSnippet(0)) {
        Command::Delete(t) => assert_eq!(t, ";email"),
        _ => panic!("expected a delete"),
    }
    assert!(matches!(a.update(Message::DeleteSnippet(5)), Command::NoOp));
}

#[test]
fn application_lists_refuse_blanks_and_duplicates() {
    let mut a = app();
    a.update(Message::TriggerAppInputChanged("notepad.exe".to_string()));
    assert!(matches!(
        a.update(Message::AddTriggerApp("notepad.exe".to_string())),
        Command::SaveTriggerApps
    ));
    assert_eq!(a.trigger_apps, vec!["notepad.exe".to_string()]);
    assert_eq!(a.trigger_app_input, "");
    assert!(matches!(
        a.update(Message::AddTriggerApp("notepad.exe".to_string())),
        Command::NoOp
    ));
    assert!(matches!(
        a.update(Message::AddTriggerApp(" \t ".to_string())),
        Command::NoOp
    ));
    assert!(matches!(
        a.update(Message::AddBlockApp("cmd.exe".to_string())),
        Command::SaveBlockApps
    ));
    assert!(matches!(a.update(Message::RemoveBlockApp(3)), Command::NoOp));
    assert!(matches!(
        a.update(Message::RemoveBlockApp(0)),
        Command::SaveBlockApps
    ));
    assert!(a.block_apps.is_empty());
}

#[test]
fn outside_requests_show_and_hide_the_window() {
    let mut a = app();
    assert!(matches!(
        a.update(Message::External(UiExternalMessage::Show)),
        Command::ShowWindow
    ));
    assert!(!a.window_minimized);
    assert!(matches!(
        a.update(Message::External(UiExternalMessage::Hide)),
        Command::HideWindow
    ));
    assert!(a.window_minimized);
    assert!(matches!(
        a.update(Message::External(UiExternalMessage::Exit)),
        Command::Exit
    ));
}

#[test]
fn pages_open_and_close() {
    let mut a = app();
    a.update(Message::ShowHelp);
    assert_eq!(a.view_mode, ViewMode::Help);
    a.update(Message::CloseHelp);
    assert_eq!(a.view_mode, ViewMode::List);
    let cmd = a.update(Message::ShowSettings);
    assert!(matches!(cmd, Command::Focus(WidgetId::SettingsTriggerAppInput)));
    assert_eq!(a.focused_field, FocusedField::SettingsTriggerApp);
    let cmd = a.update(Message::TabPressed);
    assert!(matches!(cmd, Command::Focus(WidgetId::SettingsBlockAppInput)));
    a.update(Message::CloseSettings);
    assert_eq!(a.view_mode, ViewMode::List);
    ctrl(&mut a, "N");
    assert_eq!(a.view_mode, ViewMode::Editor);
}

#[test]
fn previews_show_the_first_line() {
    assert_eq!(body_preview("short"), "short");
    assert_eq!(body_preview(""), "");
    assert_eq!(body_preview("line1\nline2"), "line1...");
    assert_eq!(body_preview("abc\r\ndef"), "abc...");
    assert_eq!(body_preview("abc\n"), "abc");
    assert_eq!(body_preview(&"a".repeat(70)), "a".repeat(60) + "...");
    assert_eq!(body_preview(&"é".repeat(40)), "é".repeat(40) + "...");
}

#[test]
fn rows_show_the_trigger_and_label() {
    let plain = Snippet::new(";a".to_string(), "b".to_string());
    assert_eq!(trigger_display(&plain), ";a");
    let labelled = Snippet::with_label(";a".to_string(), Some("Alpha".to_string()), "b".to_string());
    assert_eq!(trigger_display(&labelled), ";a - Alpha");
}

#[test]
fn control_f_focuses_the_search() {
    let mut a = app();
    a.update(Message::TabPressed);
    assert_eq!(a.focused_field, FocusedField::List);
    let cmd = ctrl(&mut a, "f");
    assert!(matches!(cmd, Command::Focus(WidgetId::SearchInput)));
    assert_eq!(a.focused_field, FocusedField::Search);
}

#[test]
fn import_updates_stored_triggers_and_adds_new_ones() {
    let s = Snippet::new(";x".to_string(), "y".to_string());
    assert!(matches!(import_write(s.clone(), true), SnippetWrite::Update(t) if t == s));
    assert!(matches!(import_write(s.clone(), false), SnippetWrite::Create(t) if t == s));
}

#[test]
fn self_recursive_snippets_are_not_saved() {
    let mut a = app();
    a.update(Message::NewSnippet);
    a.update(Message::TriggerChanged(";loop".to_string()));
    a.update(Message::BodyChanged("This is ;loop".to_string()));
    assert!(matches!(a.update(Message::SaveSnippet), Command::NoOp));
    assert_eq!(a.view_mode, ViewMode::Editor);

    a.update(Message::EditSnippet(2));
    a.update(Message::BodyChanged("I am ;name".to_string()));
    assert!(matches!(a.update(Message::SaveSnippet), Command::NoOp));
}

#[test]
fn indirect_cycles_are_not_saved() {
    let stored = vec![Snippet::new(";b".to_string(), "see ;a".to_string())];
    let mut a = PexandApp::new(stored, vec![], vec![]);
    a.update(Message::NewSnippet);
    a.update(Message::TriggerChanged(";a".to_string()));
    a.update(Message::BodyChanged("x ;b".to_string()));
    assert!(matches!(a.update(Message::SaveSnippet), Command::NoOp));
    a.update(Message::BodyChanged("x ;c".to_string()));
    assert!(matches!(
        a.update(Message::SaveSnippet),
        Command::Save(SnippetWrite::Create(_))
    ));
}

#[test]
fn search_ignores_case() {
    let mut a = app();
    a.update(Message::SearchChanged("Matrix".to_string()));
    assert_eq!(shown_triggers(&a), vec![";email"]);
    let found: Vec<usize> = search_snippets(&sample(), "NEO").iter().map(|p| p.0).collect();
    assert!(found.contains(&1) && found.contains(&2));
}
