use openit::regex_handlers::{
    application_from_regex, first_is_regex_handler, RegexHandlerDefinition, RegexHandlerStore,
};

fn def(exec: &str, regexes: &[&str], priority: i32, notes: Option<&str>) -> RegexHandlerDefinition {
    RegexHandlerDefinition {
        exec_line: exec.to_string(),
        regexes: regexes.iter().map(|s| s.to_string()).collect(),
        terminal: false,
        priority,
        notes: notes.map(|s| s.to_string()),
    }
}

#[test]
fn test_load_empty_when_missing() {
    let store = RegexHandlerStore::empty();
    assert!(store.is_empty());
}

#[test]
fn test_load_and_match_handler() {
    let store = RegexHandlerStore::from_definitions(vec![def(
        "xdg-open %u",
        &["https://.*"],
        5,
        Some("Open HTTPS URLs"),
    )])
    .unwrap();
    assert_eq!(store.len(), 1);
    assert_eq!(store.handlers().len(), 1);

    let handler = store.find_handler("https://example.com").unwrap();
    assert_eq!(handler.exec_line, "xdg-open %u");
    assert_eq!(handler.priority, 5);
    assert_eq!(handler.notes.as_deref(), Some("Open HTTPS URLs"));
    assert_eq!(handler.patterns().len(), 1);
    assert!(!handler.terminal);
    assert!(handler.matches("https://example.com"));
    assert!(!handler.matches("http://example.com"));
}

#[test]
fn test_invalid_regex_returns_error() {
    let err = RegexHandlerStore::from_definitions(vec![def("xdg-open %u", &["[invalid"], 0, None)])
        .unwrap_err();
    assert!(err.message().contains("Failed to compile regex"));
    assert_eq!(err.message(), "Failed to compile regex `[invalid` for handler `xdg-open %u`");
}

#[test]
fn handlers_sorted_by_priority_stably() {
    let store = RegexHandlerStore::from_definitions(vec![
        def("a", &["https://.*"], 1, None),
        def("b", &["https://youtu\\.be/.*"], 10, None),
        def("c", &["x"], 1, None),
    ])
    .unwrap();
    let order: Vec<&str> = store.handlers().iter().map(|h| h.exec_line.as_str()).collect();
    assert_eq!(order, vec!["b", "a", "c"]);
    assert_eq!(store.find_handler("https://youtu.be/dQw4w9WgXcQ").unwrap().exec_line, "b");
    assert_eq!(store.find_handler("https://example.com").unwrap().exec_line, "a");
    assert!(store.find_handler("ftp://nothing").is_none());
}

#[test]
fn regex_application_entry() {
    let store = RegexHandlerStore::from_definitions(vec![
        def("vlc %u", &["https://a", "https://b"], -3, None),
        def("mpv %u", &[], 2, Some("Video")),
    ])
    .unwrap();
    let hs = store.handlers();
    let video = application_from_regex(&hs[0]);
    assert_eq!(video.name, "Video");
    assert_eq!(video.comment.as_deref(), Some("Regex handler -> mpv %u"));
    assert_eq!(video.desktop_file, "regex-handler-2.desktop");
    assert_eq!(video.xdg_priority, 2);
    let vlc = application_from_regex(&hs[1]);
    assert_eq!(vlc.name, "Regex handler (prio -3)");
    assert_eq!(vlc.comment.as_deref(), Some("Regex handler -> vlc %u [https://a, https://b]"));
    assert_eq!(vlc.desktop_file, "regex-handler--3.desktop");
    assert!(first_is_regex_handler(&[vlc]));
    assert!(!first_is_regex_handler(&[]));
}

#[test]
fn default_definition_is_empty() {
    let d = RegexHandlerDefinition::default();
    assert!(d.exec_line.is_empty());
    assert!(d.regexes.is_empty());
    assert_eq!(d.priority, 0);
}
