use openit::mimeapps::{DesktopList, MimeApps};

#[test]
fn parse_and_write_round_trip() {
    let input = r#"[Default Applications]
text/plain=helix.desktop;vim.desktop;

[Added Associations]
text/plain=code.desktop;
"#;

    let apps = MimeApps::parse(input);
    let output_str = apps.serialize();
    assert!(output_str.contains("text/plain=helix.desktop;vim.desktop;"));
    assert!(output_str.contains("text/plain=code.desktop;"));
}

#[test]
fn wildcard_resolution_without_expand_keeps_pattern() {
    let mut apps = MimeApps::default();
    apps.set_handler("text/*", vec!["helix.desktop".into()], false);

    assert!(apps.handlers_for("text/*").is_some());
}

#[test]
fn wildcard_resolution_with_expand_matches_existing_keys() {
    let mut apps = MimeApps::default();
    apps.set_handler("text/plain", vec!["helix.desktop".into()], false);
    apps.add_handler("text/*", "code.desktop".into(), true);

    let handlers = apps.handlers_for("text/plain").unwrap();
    assert!(handlers.contains("code.desktop"));
}

#[test]
fn remove_handler_cleans_up_entries() {
    let mut apps = MimeApps::default();
    apps.set_handler("text/plain", vec!["helix.desktop".into()], false);
    apps.remove_handler("text/plain", Some("helix.desktop"), false);

    assert!(apps.handlers_for("text/plain").is_none());
}

#[test]
fn add_handler_twice_keeps_one() {
    let mut apps = MimeApps::new();
    apps.add_handler("text/plain", "code.desktop".into(), false);
    apps.add_handler("text/plain", "code.desktop".into(), false);
    let handlers = apps.handlers_for("text/plain").unwrap();
    assert_eq!(handlers.iter(), &["code.desktop".to_string()]);
}

#[test]
fn set_then_add_appends_after_default() {
    let mut apps = MimeApps::new();
    apps.set_handler("text/plain", vec!["helix.desktop".into()], false);
    apps.add_handler("text/plain", "code.desktop".into(), false);
    let text = apps.serialize();
    assert!(text.contains("text/plain=helix.desktop;code.desktop;"));
}

#[test]
fn unset_removes_whole_entry() {
    let mut apps = MimeApps::parse("[Default Applications]\ntext/plain=a.desktop;b.desktop;\n");
    apps.remove_handler("text/plain", None, false);
    assert!(apps.handlers_for("text/plain").is_none());
    assert!(apps.serialize().trim().is_empty());
}

#[test]
fn serialize_then_parse_gives_same_handlers() {
    let mut apps = MimeApps::new();
    apps.set_handler("image/png", vec!["viewer.desktop".into(), "editor.desktop".into()], false);
    apps.set_handler("text/plain", vec!["helix.desktop".into()], false);
    let reparsed = MimeApps::parse(&apps.serialize());
    assert_eq!(
        reparsed.handlers_for("image/png").unwrap().iter(),
        &["viewer.desktop".to_string(), "editor.desktop".to_string()]
    );
    assert_eq!(
        reparsed.handlers_for("text/plain").unwrap().iter(),
        &["helix.desktop".to_string()]
    );
}

#[test]
fn desktop_list_operations() {
    let mut list = DesktopList::new();
    assert!(list.is_empty());
    list.push_back("a.desktop".to_string());
    list.extend(vec!["b.desktop".to_string(), "a.desktop".to_string()]);
    assert!(list.contains("b.desktop"));
    list.dedup();
    assert_eq!(list.iter(), &["a.desktop".to_string(), "b.desktop".to_string()]);
    list.retain(|h| h != "a.desktop");
    assert_eq!(list.iter(), &["b.desktop".to_string()]);
    list.clear();
    assert!(list.is_empty());
}

#[test]
fn default_apps_and_added_associations_accessors() {
    let apps = MimeApps::parse(
        "[Default Applications]\ntext/plain=a.desktop;\n[Added Associations]\nimage/png=b.desktop;\n",
    );
    assert_eq!(apps.default_apps().len(), 1);
    assert_eq!(apps.added_associations().len(), 1);
    assert!(apps.added_associations().contains_key("image/png"));
}

#[test]
fn contains_follows_list_edits() {
    let mut list = DesktopList::new();
    assert!(!list.contains("h.desktop"));
    list.push_back("h.desktop".to_string());
    assert!(list.contains("h.desktop"));
    list.extend(vec!["x.desktop".to_string()]);
    assert!(list.contains("h.desktop") && list.contains("x.desktop"));
    list.retain(|s| s != "h.desktop");
    assert!(!list.contains("h.desktop"));
    assert!(list.contains("x.desktop"));
    list.clear();
    assert!(!list.contains("x.desktop"));
}
