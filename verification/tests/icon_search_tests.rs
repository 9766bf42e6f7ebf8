use openit::icon_search::{contains_text, search_icons};

fn names() -> Vec<String> {
    vec!["document-open".to_string(), "folder".to_string(), "document-save".to_string(), "gimp".to_string()]
}

#[test]
fn short_phrases_clear_the_results() {
    assert_eq!(search_icons(&names(), ""), None);
    assert_eq!(search_icons(&names(), "do"), None);
    assert_eq!(search_icons(&names(), "é"), None);
}

#[test]
fn longer_phrases_keep_matching_names_in_order() {
    assert_eq!(
        search_icons(&names(), "doc"),
        Some(vec!["document-open".to_string(), "document-save".to_string()])
    );
    assert_eq!(search_icons(&names(), "save"), Some(vec!["document-save".to_string()]));
    assert_eq!(search_icons(&names(), "xyz"), Some(Vec::new()));
    assert_eq!(search_icons(&names(), "éé"), Some(Vec::new()));
}

#[test]
fn contains_text_finds_infixes() {
    assert!(contains_text("document-open", "ment-o"));
    assert!(contains_text("abc", ""));
    assert!(contains_text("", ""));
    assert!(!contains_text("ab", "abc"));
    assert!(!contains_text("folder", "fold3"));
}
