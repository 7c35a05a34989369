use pexand::db::{Bootstrapper, Snippet};

#[test]
fn test_new_snippet() {
    let snippet = Snippet::new(";name".to_string(), "John Doe".to_string());
    assert_eq!(snippet.trigger, ";name");
    assert_eq!(snippet.body, "John Doe");
    assert_eq!(snippet.label, None);
    assert_eq!(snippet.usage_count, 0);
    assert!(snippet.created_at > 0);
    assert!(snippet.updated_at > 0);
    assert_eq!(snippet.created_at, snippet.updated_at);
}

#[test]
fn test_with_label() {
    let snippet = Snippet::with_label(
        ";email".to_string(),
        Some("Email address".to_string()),
        "john@example.com".to_string(),
    );
    assert_eq!(snippet.trigger, ";email");
    assert_eq!(snippet.label, Some("Email address".to_string()));
    assert_eq!(snippet.body, "john@example.com");
}

#[test]
fn test_validate_empty_trigger() {
    let snippet = Snippet::new("".to_string(), "body".to_string());
    assert!(snippet.validate().is_err());
    assert_eq!(snippet.validate().unwrap_err(), "Trigger cannot be empty");
}

#[test]
fn test_validate_empty_body() {
    let snippet = Snippet::new(";trigger".to_string(), "".to_string());
    assert!(snippet.validate().is_err());
    assert_eq!(snippet.validate().unwrap_err(), "Body cannot be empty");
}

#[test]
fn test_validate_valid_snippet() {
    let snippet = Snippet::new(";trigger".to_string(), "body".to_string());
    assert!(snippet.validate().is_ok());
}

#[test]
fn test_touch_updates_timestamp() {
    let mut snippet = Snippet::new(";test".to_string(), "test body".to_string());
    let original_updated_at = snippet.updated_at;
    snippet.touch();
    assert!(snippet.updated_at >= original_updated_at);
    assert_eq!(snippet.trigger, ";test");
    assert_eq!(snippet.body, "test body");
    assert_eq!(snippet.created_at, original_updated_at);
}

#[test]
fn validate_reports_trigger_before_body() {
    let snippet = Snippet::new("".to_string(), "".to_string());
    assert_eq!(snippet.validate().unwrap_err(), "Trigger cannot be empty");
}

#[test]
fn clone_keeps_every_field() {
    let snippet = Snippet::with_label(";a".to_string(), Some("l".to_string()), "b".to_string());
    let copy = snippet.clone();
    assert_eq!(copy.trigger, snippet.trigger);
    assert_eq!(copy.label, snippet.label);
    assert_eq!(copy.body, snippet.body);
    assert_eq!(copy.usage_count, snippet.usage_count);
    assert_eq!(copy.created_at, snippet.created_at);
    assert_eq!(copy.updated_at, snippet.updated_at);
}

#[test]
fn default_snippets_are_the_documented_examples() {
    let defaults = Bootstrapper::default_snippets();
    assert_eq!(defaults.len(), 3);
    assert_eq!(defaults[0].trigger, ";name");
    assert_eq!(defaults[0].body, "Neo Anderson");
    assert_eq!(defaults[1].trigger, ";email");
    assert_eq!(defaults[1].body, "neo@matrix.com");
    assert_eq!(defaults[2].trigger, ";date");
    assert_eq!(defaults[2].body, "{{date:%Y-%m-%d}}");
    for s in &defaults {
        assert_eq!(s.label, None);
        assert_eq!(s.usage_count, 0);
        assert!(s.validate().is_ok());
    }
}

#[test]
fn seed_plan_only_for_an_empty_database() {
    assert_eq!(Bootstrapper::seed_plan(true).len(), 3);
    assert!(Bootstrapper::seed_plan(false).is_empty());
}
