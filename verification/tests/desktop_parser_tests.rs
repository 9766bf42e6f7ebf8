use openit::desktop_parser::{DesktopError, DesktopFile};
use openit::strmap::StrMap;

#[test]
fn test_parse_simple_desktop_file() {
    let content = r"[Desktop Entry]
Name=Test App
Exec=testapp %F
Comment=A test application
Icon=test-icon
MimeType=text/plain;text/html;
Terminal=false
NoDisplay=false";

    let desktop_file = DesktopFile::parse_contents(content).unwrap();
    let entry = desktop_file.main_entry.unwrap();

    assert_eq!(entry.name, "Test App");
    assert_eq!(entry.exec_line, "testapp %F");
    assert_eq!(entry.comment, Some("A test application".to_string()));
    assert_eq!(entry.icon, Some("test-icon".to_string()));
    assert_eq!(entry.mime_types, vec!["text/plain", "text/html"]);
    assert!(!entry.terminal);
    assert!(!entry.no_display);
    assert!(entry.categories.is_empty());
}

#[test]
fn test_parse_desktop_file_with_actions() {
    let content = r"[Desktop Entry]
Name=Image Viewer
Exec=viewer %f
Icon=viewer
MimeType=image/png;image/jpeg;
Actions=edit;print;

[Desktop Action edit]
Name=Edit Image
Exec=viewer --edit %f
Icon=edit-icon

[Desktop Action print]
Name=Print Image
Exec=viewer --print %f";

    let desktop_file = DesktopFile::parse_contents(content).unwrap();

    let entry = desktop_file.main_entry.as_ref().unwrap();
    assert_eq!(entry.name, "Image Viewer");
    assert_eq!(entry.mime_types, vec!["image/png", "image/jpeg"]);

    assert_eq!(desktop_file.actions.len(), 2);

    let edit_action = desktop_file.actions.get("edit").unwrap();
    assert_eq!(edit_action.name, "Edit Image");
    assert_eq!(edit_action.exec_line, "viewer --edit %f");
    assert_eq!(edit_action.icon, Some("edit-icon".to_string()));

    let print_action = desktop_file.actions.get("print").unwrap();
    assert_eq!(print_action.name, "Print Image");
    assert_eq!(print_action.exec_line, "viewer --print %f");
    assert_eq!(print_action.icon, None);
}

#[test]
fn test_parse_desktop_file_with_categories() {
    let content = r"[Desktop Entry]
Name=Terminal App
Exec=terminal --new
Categories=Utility;TerminalEmulator;System;
Terminal=false";

    let desktop_file = DesktopFile::parse_contents(content).unwrap();
    let entry = desktop_file.main_entry.unwrap();

    assert_eq!(entry.categories, vec!["Utility", "TerminalEmulator", "System"]);
}

#[test]
fn test_parse_desktop_file_with_no_display() {
    let content = r"[Desktop Entry]
Name=Hidden App
Exec=hidden
NoDisplay=true";

    let desktop_file = DesktopFile::parse_contents(content).unwrap();
    let entry = desktop_file.main_entry.unwrap();

    assert!(entry.no_display);
}

#[test]
fn test_parse_desktop_file_missing_required_fields() {
    let content = r"[Desktop Entry]
Comment=Missing name and exec";

    let result = DesktopFile::parse_contents(content);
    assert!(result.is_err());
    assert_eq!(result.unwrap_err(), DesktopError::MissingName);
}

#[test]
fn test_parse_empty_desktop_file() {
    let content = "";

    let desktop_file = DesktopFile::parse_contents(content).unwrap();
    assert!(desktop_file.main_entry.is_none());
    assert!(desktop_file.actions.is_empty());
}

#[test]
fn test_parse_desktop_file_with_comments() {
    let content = r" This is a comment
[Desktop Entry]
# Another comment
Name=Test App
Exec=test
# Comment in the middle
Icon=test-icon";

    let desktop_file = DesktopFile::parse_contents(content).unwrap();
    let entry = desktop_file.main_entry.unwrap();

    assert_eq!(entry.name, "Test App");
    assert_eq!(entry.exec_line, "test");
    assert_eq!(entry.icon, Some("test-icon".to_string()));
}

#[test]
fn test_parse_desktop_file_with_hidden() {
    let content = r"[Desktop Entry]
Name=Hidden App
Exec=hidden
Hidden=true";

    let desktop_file = DesktopFile::parse_contents(content).unwrap();
    let entry = desktop_file.main_entry.unwrap();

    assert!(entry.hidden);
}

#[test]
fn test_parse_desktop_file_with_terminal() {
    let content = r"[Desktop Entry]
Name=Terminal App
Exec=terminal-app
Terminal=true";

    let desktop_file = DesktopFile::parse_contents(content).unwrap();
    let entry = desktop_file.main_entry.unwrap();

    assert!(entry.terminal);
}

#[test]
fn test_parse_desktop_file_action_without_exec() {
    let content = r"[Desktop Entry]
Name=App
Exec=app
Actions=broken;

[Desktop Action broken]
Name=Broken Action";

    let desktop_file = DesktopFile::parse_contents(content).unwrap();

    assert!(desktop_file.main_entry.is_some());
    assert!(!desktop_file.actions.contains_key("broken"));
}

#[test]
fn test_parse_desktop_file_with_equals_in_value() {
    let content = r"[Desktop Entry]
Name=Test App
Exec=test --option=value
Comment=Test=Application
Icon=test-icon";

    let desktop_file = DesktopFile::parse_contents(content).unwrap();
    let entry = desktop_file.main_entry.unwrap();

    assert_eq!(entry.name, "Test App");
    assert_eq!(entry.exec_line, "test --option=value");
    assert_eq!(entry.comment, Some("Test=Application".to_string()));
}

#[test]
fn test_build_desktop_action_missing_name() {
    let mut fields: StrMap<String> = StrMap::new();
    fields.insert("Exec".to_string(), "test".to_string());

    let result = DesktopFile::build_desktop_action(&fields);
    assert!(result.is_err());
    assert!(result.unwrap_err().message().contains("Missing Name field"));
}

#[test]
fn test_parse_desktop_file_with_multiple_sections() {
    let content = r"[Desktop Entry]
Name=Multi Section App
Exec=app

[Desktop Action one]
Name=Action One
Exec=app --one

[Some Other Section]
Key=Value

[Desktop Action two]
Name=Action Two
Exec=app --two";

    let desktop_file = DesktopFile::parse_contents(content).unwrap();

    assert!(desktop_file.main_entry.is_some());
    assert_eq!(desktop_file.main_entry.as_ref().unwrap().name, "Multi Section App");

    assert_eq!(desktop_file.actions.len(), 2);
    assert!(desktop_file.actions.contains_key("one"));
    assert!(desktop_file.actions.contains_key("two"));
}

#[test]
fn test_parse_desktop_file_last_section_is_action() {
    let content = r"[Desktop Entry]
Name=App
Exec=app

[Desktop Action last]
Name=Last Action
Exec=app --last";

    let desktop_file = DesktopFile::parse_contents(content).unwrap();

    assert_eq!(desktop_file.actions.len(), 1);
    assert!(desktop_file.actions.contains_key("last"));
}

#[test]
fn test_parse_desktop_file_with_recognized_keys() {
    let content = r"[Desktop Entry]
Type=Application
Version=1.2
Name=Full Featured App
GenericName=Full App
NoDisplay=true
Comment=Full featured application
Icon=full-app
Hidden=true
OnlyShowIn=GNOME;KDE;
NotShowIn=XFCE;
DBusActivatable=true
TryExec=/usr/bin/full
Exec=full %F
Path=/opt/full
Terminal=true
MimeType=text/plain;text/html;
Categories=Utility;Office;
Implements=org.example.Full;org.example.Advanced;
Keywords=full;featured;app;
StartupNotify=true
StartupWMClass=FullAppClass
URL=https://example.com
PrefersNonDefaultGPU=true
SingleMainWindow=true
Actions=Edit;View;

[Desktop Action Edit]
Name=Edit Document
Exec=full --edit %F

[Desktop Action View]
Name=View Document
Exec=full --view %F";

    let desktop_file = DesktopFile::parse_contents(content).unwrap();
    let entry = desktop_file.main_entry.unwrap();

    assert_eq!(entry.entry_type, "Application");
    assert_eq!(entry.version.as_deref(), Some("1.2"));
    assert_eq!(entry.generic_name.as_deref(), Some("Full App"));
    assert!(entry.no_display);
    assert_eq!(entry.comment.as_deref(), Some("Full featured application"));
    assert_eq!(entry.icon.as_deref(), Some("full-app"));
    assert!(entry.hidden);
    assert_eq!(entry.only_show_in, vec!["GNOME", "KDE"]);
    assert_eq!(entry.not_show_in, vec!["XFCE"]);
    assert!(entry.dbus_activatable);
    assert_eq!(entry.try_exec.as_deref(), Some("/usr/bin/full"));
    assert_eq!(entry.path.as_deref(), Some("/opt/full"));
    assert!(entry.terminal);
    assert_eq!(entry.mime_types, vec!["text/plain", "text/html"]);
    assert_eq!(entry.categories, vec!["Utility", "Office"]);
    assert_eq!(entry.implements, vec!["org.example.Full", "org.example.Advanced"]);
    assert_eq!(entry.keywords, vec!["full", "featured", "app"]);
    assert!(entry.startup_notify);
    assert_eq!(entry.startup_wm_class.as_deref(), Some("FullAppClass"));
    assert_eq!(entry.url.as_deref(), Some("https://example.com"));
    assert!(entry.prefers_non_default_gpu);
    assert!(entry.single_main_window);
    assert_eq!(entry.actions, vec!["Edit", "View"]);

    assert_eq!(desktop_file.actions.len(), 2);
    assert!(desktop_file.actions.contains_key("Edit"));
    assert!(desktop_file.actions.contains_key("View"));
}

#[test]
fn missing_exec_is_an_error() {
    let result = DesktopFile::parse_contents("[Desktop Entry]\nName=App\nExec=   \n");
    assert_eq!(result.unwrap_err(), DesktopError::MissingExec);
}

#[test]
fn build_desktop_action_missing_exec() {
    let mut fields: StrMap<String> = StrMap::new();
    fields.insert("Name".to_string(), "Edit".to_string());
    let err = DesktopFile::build_desktop_action(&fields).unwrap_err();
    assert_eq!(err, DesktopError::MissingActionExec);
    assert_eq!(err.message(), "Missing Exec field in action");
}

#[test]
fn type_defaults_to_application_and_bools_are_case_insensitive() {
    let f = DesktopFile::parse_contents("[Desktop Entry]\nName=A\nExec=a\nTerminal= TRUE \n").unwrap();
    let e = f.main_entry.unwrap();
    assert_eq!(e.entry_type, "Application");
    assert!(e.terminal);
}

#[test]
fn parse_helpers() {
    let yes = "True".to_string();
    assert!(DesktopFile::parse_bool(Some(&yes)));
    assert!(!DesktopFile::parse_bool(None));
    let list = " a ; ;b;".to_string();
    assert_eq!(DesktopFile::parse_list(Some(&list)), vec!["a", "b"]);
    let blank = "   ".to_string();
    assert_eq!(DesktopFile::parse_optional_string(Some(&blank)), None);
    let padded = "  x ".to_string();
    assert_eq!(DesktopFile::parse_optional_string(Some(&padded)), Some("x".to_string()));
}
