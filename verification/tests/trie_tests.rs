use pexand::sentinel::Trie;

#[test]
fn test_insert_and_search() {
    let mut trie = Trie::new();
    trie.insert(";name");
    trie.insert(";email");
    trie.insert(";date");

    assert!(trie.search(";name"));
    assert!(trie.search(";email"));
    assert!(trie.search(";date"));
    assert!(!trie.search(";unknown"));
    assert!(!trie.search(";nam"));
}

#[test]
fn test_starts_with() {
    let mut trie = Trie::new();
    trie.insert(";name");
    trie.insert(";namespace");

    assert!(trie.starts_with(";"));
    assert!(trie.starts_with(";n"));
    assert!(trie.starts_with(";na"));
    assert!(trie.starts_with(";nam"));
    assert!(trie.starts_with(";name"));
    assert!(trie.starts_with(";names"));
    assert!(!trie.starts_with(";x"));
}

#[test]
fn test_find_matching_trigger() {
    let mut trie = Trie::new();
    trie.insert(";name");
    trie.insert(";email");

    assert_eq!(
        trie.find_matching_trigger("hello ;name"),
        Some(";name".to_string())
    );
    assert_eq!(
        trie.find_matching_trigger(";email and more"),
        Some(";email".to_string())
    );
    assert_eq!(trie.find_matching_trigger("hello world"), None);
    assert_eq!(trie.find_matching_trigger("hello ;nam"), None);
}

#[test]
fn test_load_triggers() {
    let mut trie = Trie::new();
    let triggers = vec![
        ";name".to_string(),
        ";email".to_string(),
        ";phone".to_string(),
    ];

    trie.load_triggers(&triggers);

    assert!(trie.search(";name"));
    assert!(trie.search(";email"));
    assert!(trie.search(";phone"));
}

#[test]
fn test_clear() {
    let mut trie = Trie::new();
    trie.insert(";name");
    trie.insert(";email");

    assert!(trie.search(";name"));

    trie.clear();

    assert!(!trie.search(";name"));
    assert!(!trie.search(";email"));
}

#[test]
fn test_overlapping_triggers() {
    let mut trie = Trie::new();
    trie.insert(";n");
    trie.insert(";name");

    let result = trie.find_matching_trigger("test ;name here");
    assert_eq!(result, Some(";name".to_string()));
}

#[test]
fn test_empty_trie() {
    let trie = Trie::new();
    assert!(!trie.search(";anything"));
    assert_eq!(trie.find_matching_trigger("test ;name"), None);
}

#[test]
fn test_performance_with_long_buffer() {
    let mut trie = Trie::new();
    trie.insert(";test");

    let long_text = "a".repeat(90) + " ;test";
    assert_eq!(
        trie.find_matching_trigger(&long_text),
        Some(";test".to_string())
    );

    let long_text_start = ";test ".to_string() + &"b".repeat(90);
    assert_eq!(
        trie.find_matching_trigger(&long_text_start),
        Some(";test".to_string())
    );
}

#[test]
fn test_max_trigger_length_tracking() {
    let mut trie = Trie::new();
    assert_eq!(trie.max_trigger_length(), 0);

    trie.insert(";a");
    assert_eq!(trie.max_trigger_length(), 2);

    trie.insert(";longer");
    assert_eq!(trie.max_trigger_length(), 7);

    trie.insert(";x");
    assert_eq!(trie.max_trigger_length(), 7);

    trie.clear();
    assert_eq!(trie.max_trigger_length(), 0);
}

#[test]
fn inserted_trigger_is_found_and_others_stay() {
    let mut trie = Trie::new();
    trie.insert(";a");
    trie.insert(";b");
    assert!(trie.search(";a"));
    assert!(trie.search(";b"));
    assert!(!trie.search(";"));
}

#[test]
fn leftmost_of_equal_length_matches_wins() {
    let mut trie = Trie::new();
    trie.insert(";ab");
    trie.insert(";cd");
    assert_eq!(trie.find_matching_trigger("x ;cd ;ab"), Some(";cd".to_string()));
}

#[test]
fn multibyte_triggers_are_found() {
    let mut trie = Trie::new();
    trie.insert(";café");
    assert!(trie.search(";café"));
    assert!(trie.starts_with(";caf"));
    assert_eq!(trie.find_matching_trigger("un ;café "), Some(";café".to_string()));
}

#[test]
fn empty_prefix_needs_a_stored_trigger() {
    let mut trie = Trie::new();
    assert!(!trie.starts_with(""));
    trie.insert(";a");
    assert!(trie.starts_with(""));
    trie.clear();
    assert!(!trie.starts_with(""));
    trie.insert("");
    assert!(trie.starts_with(""));
}

#[test]
fn inserting_again_keeps_the_longest_length() {
    let mut trie = Trie::new();
    trie.insert(";abc");
    trie.insert(";abc");
    assert_eq!(trie.max_trigger_length(), 4);
}
