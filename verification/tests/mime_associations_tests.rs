use openit::mime_associations::MimeAssociations;
use openit::strmap::StrMap;

fn strings(items: &[&str]) -> Vec<String> {
    items.iter().map(|s| s.to_string()).collect()
}

#[test]
fn test_parse_mimeapps_file_default_applications() {
    let mut associations: StrMap<Vec<String>> = StrMap::new();
    let content = r"[Default Applications]
text/plain=editor.desktop;notepad.desktop;
image/png=viewer.desktop;
image/*=imgcat.desktop;

[Added Associations]
text/plain=extra-editor.desktop;";

    MimeAssociations::parse_mimeapps_file(content, &mut associations);

    let text_apps = associations.get("text/plain").unwrap();
    assert_eq!(
        text_apps,
        &vec!["editor.desktop", "notepad.desktop", "extra-editor.desktop"]
    );

    let image_apps = associations.get("image/png").unwrap();
    assert_eq!(image_apps, &vec!["viewer.desktop"]);
    assert_eq!(associations.get("image/*").unwrap(), &vec!["imgcat.desktop"]);
}

#[test]
fn test_parse_mimeapps_file_added_associations_only() {
    let mut associations: StrMap<Vec<String>> = StrMap::new();
    let content = r"[Added Associations]
text/html=browser.desktop;editor.desktop;
application/pdf=reader.desktop;";

    MimeAssociations::parse_mimeapps_file(content, &mut associations);

    let html_apps = associations.get("text/html").unwrap();
    assert_eq!(html_apps, &vec!["browser.desktop", "editor.desktop"]);

    let pdf_apps = associations.get("application/pdf").unwrap();
    assert_eq!(pdf_apps, &vec!["reader.desktop"]);
}

#[test]
fn test_parse_mimeapps_file_empty_entries() {
    let mut associations: StrMap<Vec<String>> = StrMap::new();
    let content = r"[Default Applications]
text/plain=editor.desktop;;notepad.desktop;
image/jpeg=;";

    MimeAssociations::parse_mimeapps_file(content, &mut associations);

    let text_apps = associations.get("text/plain").unwrap();
    assert_eq!(text_apps, &vec!["editor.desktop", "notepad.desktop"]);

    assert!(!associations.contains_key("image/jpeg"));
}

#[test]
fn test_parse_mimeapps_file_with_comments() {
    let mut associations: StrMap<Vec<String>> = StrMap::new();
    let content = r" This is a comment
[Default Applications]
# Another comment
text/plain=editor.desktop;
# Comment in the middle
image/png=viewer.desktop;";

    MimeAssociations::parse_mimeapps_file(content, &mut associations);

    assert_eq!(associations.get("text/plain").unwrap(), &vec!["editor.desktop"]);
    assert_eq!(associations.get("image/png").unwrap(), &vec!["viewer.desktop"]);
}

#[test]
fn test_get_associations_existing() {
    let mut associations: StrMap<Vec<String>> = StrMap::new();
    associations.insert("text/plain".to_string(), vec!["editor.desktop".to_string()]);

    let mime_assoc = MimeAssociations::with_associations(associations);

    let apps = mime_assoc.get_associations("text/plain");
    assert_eq!(apps, vec!["editor.desktop"]);
}

#[test]
fn test_get_associations_non_existing() {
    let associations: StrMap<Vec<String>> = StrMap::new();
    let mime_assoc = MimeAssociations::with_associations(associations);

    let apps = mime_assoc.get_associations("application/unknown");
    assert!(apps.is_empty());
}

#[test]
fn test_get_associations_with_wildcard_fallback() {
    let mut associations: StrMap<Vec<String>> = StrMap::new();
    associations.insert("image/*".to_string(), vec!["imgcat.desktop".to_string()]);
    associations.insert("image/jpeg".to_string(), vec!["viewer.desktop".to_string()]);

    let mime_assoc = MimeAssociations::with_associations(associations);

    let apps = mime_assoc.get_associations("image/jpeg");
    assert_eq!(
        apps,
        vec!["viewer.desktop".to_string(), "imgcat.desktop".to_string()]
    );
}

#[test]
fn test_load_from_multiple_files() {
    // The first file is the most important: its default replaces the others'.
    let files = strings(&[
        "[Default Applications]\ntext/plain=user.desktop;\n",
        "[Default Applications]\ntext/plain=system.desktop;\nimage/png=viewer.desktop;\n",
    ]);
    let assoc = MimeAssociations::from_file_contents(&files);
    assert_eq!(assoc.get_associations("text/plain"), vec!["user.desktop"]);
    assert_eq!(assoc.get_associations("image/png"), vec!["viewer.desktop"]);
}

#[test]
fn get_associations_has_no_duplicates() {
    let mut associations: StrMap<Vec<String>> = StrMap::new();
    associations.insert(
        "image/png".to_string(),
        strings(&["a.desktop", "b.desktop", "a.desktop"]),
    );
    associations.insert("image/*".to_string(), strings(&["b.desktop", "c.desktop"]));
    let assoc = MimeAssociations::with_associations(associations);
    assert_eq!(
        assoc.get_associations("image/png"),
        vec!["a.desktop", "b.desktop", "c.desktop"]
    );
}

#[test]
fn parse_mimeapps_file_ignores_other_sections() {
    let mut associations: StrMap<Vec<String>> = StrMap::new();
    let content = "[Removed Associations]\ntext/plain=gone.desktop;\n";
    MimeAssociations::parse_mimeapps_file(content, &mut associations);
    assert!(associations.is_empty());
}

#[test]
fn new_has_no_associations() {
    let assoc = MimeAssociations::new();
    assert!(assoc.get_associations("text/plain").is_empty());
    let assoc = MimeAssociations::default();
    assert!(assoc.get_associations("text/plain").is_empty());
}
