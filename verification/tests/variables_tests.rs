use pexand::sentinel::variables::{
    contains_recursion, date_formats, detect_recursion_chain, expand_with_dates,
};
use pexand::sentinel::VariableParser;

#[test]
fn test_parse_no_variables() {
    let mut parser = VariableParser::new();
    let result = parser.parse("Hello World", &None).unwrap();
    assert_eq!(result, "Hello World");
}

#[test]
fn test_parse_date_default() {
    let mut parser = VariableParser::new();
    let result = parser.parse("Today is {{date}}", &None).unwrap();
    assert!(result.starts_with("Today is "));
    assert!(result.len() > "Today is ".len());
}

#[test]
fn test_parse_date_custom_format() {
    let mut parser = VariableParser::new();
    let result = parser.parse("Date: {{date:%B %d, %Y}}", &None).unwrap();
    assert!(result.starts_with("Date: "));
    assert!(result.contains(","));
}

#[test]
fn test_parse_multiple_variables() {
    let mut parser = VariableParser::new();
    let result = parser
        .parse("Date: {{date:%Y-%m-%d}}, same: {{date:%Y-%m-%d}}", &None)
        .unwrap();
    assert!(result.contains("Date: "));
    assert!(result.contains(", same: "));
}

#[test]
fn test_parse_unknown_variable() {
    let mut parser = VariableParser::new();
    let result = parser.parse("Unknown: {{unknown}}", &None).unwrap();
    assert_eq!(result, "Unknown: {{unknown}}");
}

#[test]
fn test_contains_recursion_simple() {
    assert!(contains_recursion(";name", "My name is ;name"));
    assert!(!contains_recursion(";name", "My name is John"));
}

#[test]
fn test_detect_recursion_direct() {
    let snippets = vec![(";name".to_string(), "I am ;name".to_string())];

    let chain = detect_recursion_chain(";name", "I am ;name", &snippets);
    assert!(chain.is_some());
}

#[test]
fn test_detect_recursion_indirect() {
    let snippets = vec![
        (";a".to_string(), "This is ;b".to_string()),
        (";b".to_string(), "That is ;a".to_string()),
    ];

    let chain = detect_recursion_chain(";a", "This is ;b", &snippets);
    assert!(chain.is_some());
}

#[test]
fn test_no_recursion() {
    let snippets = vec![
        (";name".to_string(), "John".to_string()),
        (";email".to_string(), "john@example.com".to_string()),
    ];

    let chain = detect_recursion_chain(";name", "John", &snippets);
    assert!(chain.is_none());
}

#[test]
fn indirect_chain_lists_the_triggers_in_order() {
    let snippets = vec![
        (";a".to_string(), "This is ;b".to_string()),
        (";b".to_string(), "That is ;a".to_string()),
    ];
    let chain = detect_recursion_chain(";a", "This is ;b", &snippets).unwrap();
    assert_eq!(chain, vec![";a".to_string(), ";b".to_string(), ";a".to_string()]);
}

#[test]
fn direct_chain_repeats_the_trigger() {
    let snippets = vec![(";name".to_string(), "I am ;name".to_string())];
    let chain = detect_recursion_chain(";name", "I am ;name", &snippets).unwrap();
    assert_eq!(chain, vec![";name".to_string(), ";name".to_string()]);
}

#[test]
fn clipboard_variable_takes_the_clipboard_text() {
    let mut parser = VariableParser::new();
    let clip = Some("pasted".to_string());
    assert_eq!(parser.parse("[{{clipboard}}]", &clip).unwrap(), "[pasted]");
}

#[test]
fn unreadable_clipboard_keeps_the_variable() {
    let mut parser = VariableParser::new();
    assert_eq!(parser.parse("[{{clipboard}}]", &None).unwrap(), "[{{clipboard}}]");
}

#[test]
fn cursor_variable_expands_to_nothing() {
    let mut parser = VariableParser::new();
    assert_eq!(parser.parse("a{{cursor}}b", &None).unwrap(), "ab");
}

#[test]
fn unclosed_braces_are_kept() {
    let mut parser = VariableParser::new();
    assert_eq!(parser.parse("open {{date", &None).unwrap(), "open {{date");
}

#[test]
fn named_format_on_another_variable_is_unknown() {
    let mut parser = VariableParser::new();
    assert_eq!(parser.parse("{{time:%H}}", &None).unwrap(), "{{time:%H}}");
}

#[test]
fn default_date_has_the_iso_shape() {
    let mut parser = VariableParser::new();
    let result = parser.parse("{{date}}", &None).unwrap();
    let bytes = result.as_bytes();
    assert_eq!(bytes.len(), 10);
    assert_eq!(bytes[4], b'-');
    assert_eq!(bytes[7], b'-');
}

#[test]
fn invalid_date_format_is_refused_before_parsing() {
    let mut parser = VariableParser::new();
    assert!(parser.try_parse("{{date:%Q}}", &None).is_none());
    let ok = parser.try_parse("plain", &None);
    assert_eq!(ok, Some(Ok("plain".to_string())));
}

#[test]
fn first_chain_in_snippet_order_is_reported() {
    let snippets = vec![
        (";a".to_string(), "x ;c".to_string()),
        (";b".to_string(), "y ;a".to_string()),
        (";c".to_string(), "z ;a".to_string()),
    ];
    let chain = detect_recursion_chain(";a", "see ;c ;b", &snippets).unwrap();
    assert_eq!(chain, vec![";a".to_string(), ";b".to_string(), ";a".to_string()]);
}

#[test]
fn date_formats_lists_the_formats_in_order() {
    let f = date_formats("Date: {{date:%B %d, %Y}}, {{clipboard}} and {{date}} {{time:%H}}");
    assert_eq!(f, vec!["%B %d, %Y".to_string(), "%Y-%m-%d".to_string()]);
    assert!(date_formats("no dates {{date").is_empty());
}

#[test]
fn dates_go_to_their_variables_in_order() {
    let dates = vec!["X".to_string(), "Y".to_string()];
    let clip = Some("C".to_string());
    assert_eq!(
        expand_with_dates("a {{date}} b {{date:%Y}} {{clipboard}}{{cursor}} {{x}}", &dates, &clip),
        "a X b Y C {{x}}"
    );
}
