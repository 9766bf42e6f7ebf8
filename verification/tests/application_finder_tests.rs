use openit::application_finder::{ApplicationEntry, ApplicationFinder};
use openit::cache::MemoryCache;
use openit::desktop_parser::{DesktopAction, DesktopEntry, DesktopFile};
use openit::mime_associations::MimeAssociations;
use openit::strmap::StrMap;

fn create_test_desktop_entry(name: &str, mime_types: Vec<&str>) -> DesktopEntry {
    let mut entry = DesktopEntry::default();
    entry.name = name.to_string();
    entry.exec_line = format!("{} %F", name.to_lowercase());
    entry.comment = Some(format!("Test application {}", name));
    entry.icon = Some(format!("{}-icon", name.to_lowercase()));
    entry.mime_types = mime_types.iter().map(|s| s.to_string()).collect();
    entry
}

fn create_test_desktop_file(entry: DesktopEntry) -> DesktopFile {
    DesktopFile { main_entry: Some(entry), actions: StrMap::new() }
}

fn associations_for(mime: &str, ids: &[&str]) -> MimeAssociations {
    let mut map: StrMap<Vec<String>> = StrMap::new();
    map.insert(mime.to_string(), ids.iter().map(|s| s.to_string()).collect());
    MimeAssociations::with_associations(map)
}

fn edit_action() -> DesktopAction {
    DesktopAction {
        name: "Edit Image".to_string(),
        exec_line: "imageviewer --edit %F".to_string(),
        icon: Some("edit-icon".to_string()),
    }
}

#[test]
fn test_new_application_finder() {
    let cache = MemoryCache::new();
    let associations = MimeAssociations::new();
    let finder = ApplicationFinder::new(cache, associations);

    assert!(finder.desktop_cache().is_empty());
}

#[test]
fn test_find_for_mime_empty_cache() {
    let finder = ApplicationFinder::new(MemoryCache::new(), MimeAssociations::new());
    let apps = finder.find_for_mime("text/plain", false);
    assert!(apps.is_empty());
}

#[test]
fn test_find_for_mime_with_matching_app() {
    let mut cache = MemoryCache::new();
    let entry = create_test_desktop_entry("TextEditor", vec!["text/plain", "text/html"]);
    cache.insert(
        "/usr/share/applications/texteditor.desktop".to_string(),
        create_test_desktop_file(entry),
    );

    let finder = ApplicationFinder::new(cache, MimeAssociations::new());

    let apps = finder.find_for_mime("text/plain", false);
    assert_eq!(apps.len(), 1);
    assert_eq!(apps[0].name, "TextEditor");
    assert_eq!(apps[0].exec_line, "texteditor %F");
    assert!(!apps[0].is_xdg);
    assert!(!apps[0].is_default);
    assert_eq!(apps[0].xdg_priority, -1);
}

#[test]
fn test_find_for_mime_with_xdg_associations() {
    let mut cache = MemoryCache::new();
    let entry = create_test_desktop_entry("XDGEditor", vec!["text/plain"]);
    cache.insert(
        "/usr/share/applications/xdgeditor.desktop".to_string(),
        create_test_desktop_file(entry),
    );

    let associations = associations_for("text/plain", &["xdgeditor.desktop"]);
    let finder = ApplicationFinder::new(cache, associations);

    let apps = finder.find_for_mime("text/plain", false);
    assert_eq!(apps.len(), 1);
    assert_eq!(apps[0].name, "XDGEditor");
    assert!(apps[0].is_xdg);
    assert!(apps[0].is_default);
    assert_eq!(apps[0].xdg_priority, 0);
}

#[test]
fn test_find_for_mime_with_actions() {
    let mut cache = MemoryCache::new();
    let entry = create_test_desktop_entry("ImageViewer", vec!["image/png"]);
    let mut actions: StrMap<DesktopAction> = StrMap::new();
    actions.insert("edit".to_string(), edit_action());
    let desktop_file = DesktopFile { main_entry: Some(entry), actions };
    cache.insert("/usr/share/applications/imageviewer.desktop".to_string(), desktop_file);

    let finder = ApplicationFinder::new(cache, MimeAssociations::new());

    let apps = finder.find_for_mime("image/png", true);
    assert_eq!(apps.len(), 2);

    assert_eq!(apps[0].name, "ImageViewer");
    assert!(apps[0].action_id.is_none());

    assert_eq!(apps[1].name, "ImageViewer - Edit Image");
    assert_eq!(apps[1].action_id, Some("edit".to_string()));
    assert_eq!(apps[1].exec_line, "imageviewer --edit %F");
}

#[test]
fn test_find_for_mime_without_actions() {
    let mut cache = MemoryCache::new();
    let entry = create_test_desktop_entry("ImageViewer", vec!["image/png"]);
    let mut actions: StrMap<DesktopAction> = StrMap::new();
    actions.insert("edit".to_string(), edit_action());
    let desktop_file = DesktopFile { main_entry: Some(entry), actions };
    cache.insert("/usr/share/applications/imageviewer.desktop".to_string(), desktop_file);

    let finder = ApplicationFinder::new(cache, MimeAssociations::new());

    let apps = finder.find_for_mime("image/png", false);
    assert_eq!(apps.len(), 1);
    assert_eq!(apps[0].name, "ImageViewer");
    assert!(apps[0].action_id.is_none());
}

#[test]
fn application_finder_test_find_desktop_file_exact_match() {
    let mut cache = MemoryCache::new();
    let entry = create_test_desktop_entry("TestApp", vec!["text/plain"]);
    let path = "/usr/share/applications/testapp.desktop".to_string();
    cache.insert(path.clone(), create_test_desktop_file(entry));

    let finder = ApplicationFinder::new(cache, MimeAssociations::new());

    let result = finder.find_desktop_file("testapp.desktop");
    assert!(result.is_some());
    let (found_path, _) = result.unwrap();
    assert_eq!(found_path, &path);
}

#[test]
fn test_find_desktop_file_suffix_match() {
    let mut cache = MemoryCache::new();
    let entry = create_test_desktop_entry("TestApp", vec!["text/plain"]);
    let path = "/usr/share/applications/org.example.testapp.desktop".to_string();
    cache.insert(path.clone(), create_test_desktop_file(entry));

    let finder = ApplicationFinder::new(cache, MimeAssociations::new());

    let result = finder.find_desktop_file("applications/org.example.testapp.desktop");
    assert!(result.is_some());
    let (found_path, _) = result.unwrap();
    assert_eq!(found_path, &path);
}

#[test]
fn test_find_desktop_file_not_found() {
    let finder = ApplicationFinder::new(MemoryCache::new(), MimeAssociations::new());

    let result = finder.find_desktop_file("nonexistent.desktop");
    assert!(result.is_none());
}

#[test]
fn test_find_for_mime_deduplication() {
    let mut cache = MemoryCache::new();
    let entry = create_test_desktop_entry("DuplicateApp", vec!["text/plain"]);
    cache.insert(
        "/usr/share/applications/duplicateapp.desktop".to_string(),
        create_test_desktop_file(entry),
    );

    let associations = associations_for("text/plain", &["duplicateapp.desktop"]);
    let finder = ApplicationFinder::new(cache, associations);

    let apps = finder.find_for_mime("text/plain", false);
    assert_eq!(apps.len(), 1);
    assert_eq!(apps[0].name, "DuplicateApp");
    assert!(apps[0].is_xdg);
}

#[test]
fn test_find_for_mime_multiple_xdg_priorities() {
    let mut cache = MemoryCache::new();
    let entry1 = create_test_desktop_entry("FirstApp", vec!["text/plain"]);
    let entry2 = create_test_desktop_entry("SecondApp", vec!["text/plain"]);
    cache.insert(
        "/usr/share/applications/firstapp.desktop".to_string(),
        create_test_desktop_file(entry1),
    );
    cache.insert(
        "/usr/share/applications/secondapp.desktop".to_string(),
        create_test_desktop_file(entry2),
    );

    let associations =
        associations_for("text/plain", &["firstapp.desktop", "secondapp.desktop"]);
    let finder = ApplicationFinder::new(cache, associations);

    let apps = finder.find_for_mime("text/plain", false);
    assert_eq!(apps.len(), 2);

    let first_app = apps.iter().find(|a| a.name == "FirstApp").unwrap();
    assert!(first_app.is_default);
    assert_eq!(first_app.xdg_priority, 0);

    let second_app = apps.iter().find(|a| a.name == "SecondApp").unwrap();
    assert!(!second_app.is_default);
    assert_eq!(second_app.xdg_priority, 1);
}

#[test]
fn test_find_for_mime_no_matching_mime_type() {
    let mut cache = MemoryCache::new();
    let entry = create_test_desktop_entry("TextEditor", vec!["text/plain"]);
    cache.insert(
        "/usr/share/applications/texteditor.desktop".to_string(),
        create_test_desktop_file(entry),
    );

    let finder = ApplicationFinder::new(cache, MimeAssociations::new());

    let apps = finder.find_for_mime("image/png", false);
    assert!(apps.is_empty());
}

#[test]
fn test_application_entry_from_desktop_entry() {
    let entry = create_test_desktop_entry("FromEntry", vec!["text/plain"]);
    let path = "/usr/share/applications/fromentry.desktop".to_string();

    let app = ApplicationEntry::from_desktop_entry(&entry, path.clone());

    assert_eq!(app.name, "FromEntry");
    assert_eq!(app.exec_line, "fromentry %F");
    assert_eq!(app.desktop_file, path);
    assert_eq!(app.comment, Some("Test application FromEntry".to_string()));
    assert_eq!(app.icon, Some("fromentry-icon".to_string()));
    assert!(!app.is_xdg);
    assert_eq!(app.xdg_priority, -1);
}

#[test]
fn test_application_entry_from_desktop_action() {
    let entry = create_test_desktop_entry("ActionApp", vec!["image/png"]);
    let action = DesktopAction {
        name: "Edit Image".to_string(),
        exec_line: "actionapp --edit %F".to_string(),
        icon: Some("edit-icon".to_string()),
    };
    let path = "/usr/share/applications/actionapp.desktop".to_string();

    let app = ApplicationEntry::from_desktop_action(&entry, "edit", &action, path.clone());

    assert_eq!(app.name, "ActionApp - Edit Image");
    assert_eq!(app.exec_line, "actionapp --edit %F");
    assert_eq!(app.desktop_file, path);
    assert_eq!(app.comment, Some("Action: Edit Image".to_string()));
    assert_eq!(app.icon, Some("edit-icon".to_string()));
    assert_eq!(app.action_id, Some("edit".to_string()));
    assert!(!app.is_xdg);
}

#[test]
fn test_application_entry_with_xdg() {
    let entry = create_test_desktop_entry("XDGApp", vec!["text/plain"]);
    let path = "/usr/share/applications/xdgapp.desktop".to_string();

    let app = ApplicationEntry::from_desktop_entry(&entry, path).with_xdg(2, false);

    assert!(app.is_xdg);
    assert!(!app.is_default);
    assert_eq!(app.xdg_priority, 2);
}

#[test]
fn test_application_entry_with_xdg_default() {
    let entry = create_test_desktop_entry("DefaultApp", vec!["text/plain"]);
    let path = "/usr/share/applications/defaultapp.desktop".to_string();

    let app = ApplicationEntry::from_desktop_entry(&entry, path).with_xdg(0, true);

    assert!(app.is_xdg);
    assert!(app.is_default);
    assert_eq!(app.xdg_priority, 0);
}

#[test]
fn test_application_entry_as_available_resets_flags() {
    let entry = create_test_desktop_entry("ResetApp", vec!["text/plain"]);
    let path = "/usr/share/applications/resetapp.desktop".to_string();

    let app = ApplicationEntry::from_desktop_entry(&entry, path)
        .with_xdg(3, true)
        .as_available();

    assert!(!app.is_xdg);
    assert!(!app.is_default);
    assert_eq!(app.xdg_priority, -1);
}

#[test]
fn action_without_icon_takes_entry_icon() {
    let entry = create_test_desktop_entry("IconApp", vec!["text/plain"]);
    let action = DesktopAction {
        name: "Print".to_string(),
        exec_line: "iconapp --print".to_string(),
        icon: None,
    };
    let app = ApplicationEntry::from_desktop_action(&entry, "print", &action, "p".to_string());
    assert_eq!(app.icon, Some("iconapp-icon".to_string()));
}

#[test]
fn xdg_association_to_unknown_id_is_skipped() {
    let mut cache = MemoryCache::new();
    cache.insert(
        "/apps/b.desktop".to_string(),
        create_test_desktop_file(create_test_desktop_entry("B", vec!["text/plain"])),
    );
    let associations = associations_for("text/plain", &["missing.desktop", "b.desktop"]);
    let finder = ApplicationFinder::new(cache, associations);
    let apps = finder.find_for_mime("text/plain", false);
    assert_eq!(apps.len(), 1);
    assert_eq!(apps[0].name, "B");
    assert!(apps[0].is_xdg);
    assert!(!apps[0].is_default);
    assert_eq!(apps[0].xdg_priority, 1);
}

#[test]
fn xdg_actions_keep_priority_but_not_default() {
    let mut cache = MemoryCache::new();
    let mut actions: StrMap<DesktopAction> = StrMap::new();
    actions.insert("edit".to_string(), edit_action());
    cache.insert(
        "/apps/viewer.desktop".to_string(),
        DesktopFile {
            main_entry: Some(create_test_desktop_entry("Viewer", vec!["image/png"])),
            actions,
        },
    );
    let finder = ApplicationFinder::new(cache, associations_for("image/png", &["viewer.desktop"]));
    let apps = finder.find_for_mime("image/png", true);
    assert_eq!(apps.len(), 2);
    assert!(apps[0].is_default);
    assert!(apps[1].is_xdg);
    assert!(!apps[1].is_default);
    assert_eq!(apps[1].xdg_priority, 0);
}

#[test]
fn desktop_id_of_path() {
    assert_eq!(openit::application_finder::desktop_id_of("/usr/share/applications/a.desktop"), "a.desktop");
    assert_eq!(openit::application_finder::desktop_id_of("/usr/share/applications/"), "applications");
    assert_eq!(openit::application_finder::desktop_id_of("/"), "");
}
