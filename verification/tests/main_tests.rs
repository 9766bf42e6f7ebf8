use openit::application_finder::ApplicationFinder;
use openit::cache::MemoryCache;
use openit::desktop_parser::DesktopFile;
use openit::executor::ApplicationExecutor;
use openit::mime_associations::MimeAssociations;
use openit::target::LaunchTarget;

#[test]
fn test_execute_application_command_parsing() {
    let test_cases = vec![
        ("app %f %u", "app"),
        ("app %F %U", "app"),
        ("app %i %c %k", "app"),
        ("app %%", "app %"),
        ("  app %f  ", "app"),
    ];

    for (input, expected) in test_cases {
        let exec = input.to_string();
        let clean_exec = exec
            .replace("%u", "")
            .replace("%U", "")
            .replace("%f", "")
            .replace("%F", "")
            .replace("%i", "")
            .replace("%c", "")
            .replace("%k", "")
            .replace("%%", "%")
            .trim()
            .to_string();

        assert_eq!(clean_exec, expected, "Failed for input: {input}");
    }
}

#[test]
fn test_clean_exec_command() {
    let target = LaunchTarget::File("/tmp/test.txt".to_string());
    let test_cases = vec![
        ("app %f", "app"),
        ("app %F %u", "app"),
        ("app %%", "app"),
        ("app %i %c %k", "app"),
        ("  app %f  ", "app"),
    ];

    for (input, expected_command) in test_cases {
        let command = ApplicationExecutor::prepare_command(input, &target)
            .unwrap_or_else(|e| panic!("Command preparation failed for {input}: {}", e.message()));
        assert_eq!(command.first().unwrap(), expected_command, "Failed for input: {input}");

        if input.contains("%%") {
            assert!(
                command.iter().any(|arg| arg == "%"),
                "Expected literal % in args for input: {input}"
            );
        }
    }
}

#[test]
fn main_test_find_desktop_file_exact_match() {
    let desktop_content = "[Desktop Entry]\nName=Test\nExec=test";
    let file_path = "/tmp/apps/test.desktop".to_string();

    let mut cache = MemoryCache::new();
    let desktop_file = DesktopFile::parse_contents(desktop_content).unwrap();
    cache.insert(file_path, desktop_file);

    let application_finder = ApplicationFinder::new(cache, MimeAssociations::default());

    let result = application_finder.find_desktop_file("test.desktop");
    assert!(result.is_some());
}

#[test]
fn test_get_applications_for_mime_with_actions() {
    let desktop_content = r"[Desktop Entry]
Name=Test App
Exec=testapp %F
MimeType=text/plain;
Actions=edit;print;

[Desktop Action edit]
Name=Edit
Exec=testapp --edit %F

[Desktop Action print]
Name=Print
Exec=testapp --print %F";

    let mut cache = MemoryCache::new();
    let desktop_file = DesktopFile::parse_contents(desktop_content).unwrap();
    cache.insert("/tmp/apps/test.desktop".to_string(), desktop_file);

    let application_finder = ApplicationFinder::new(cache, MimeAssociations::default());

    let apps = application_finder.find_for_mime("text/plain", true);

    assert_eq!(apps.len(), 3);

    assert_eq!(apps[0].name, "Test App");
    assert!(apps[0].action_id.is_none());

    let action_names: Vec<&str> = apps[1..].iter().map(|a| a.name.as_str()).collect();
    assert!(action_names.contains(&"Test App - Edit"));
    assert!(action_names.contains(&"Test App - Print"));

    let edit_action = apps.iter().find(|a| a.action_id == Some("edit".to_string())).unwrap();
    assert_eq!(edit_action.name, "Test App - Edit");

    let print_action = apps.iter().find(|a| a.action_id == Some("print".to_string())).unwrap();
    assert_eq!(print_action.name, "Test App - Print");
}

#[test]
fn test_get_applications_for_mime_with_xdg_associations() {
    let mut cache = MemoryCache::new();
    let desktop_file =
        DesktopFile::parse_contents("[Desktop Entry]\nName=Editor\nExec=editor %F\nMimeType=text/plain;\n")
            .unwrap();
    cache.insert("/tmp/apps/editor.desktop".to_string(), desktop_file);
    let associations = MimeAssociations::from_file_contents(&vec![
        "[Default Applications]\ntext/plain=editor.desktop;\n".to_string(),
    ]);
    let finder = ApplicationFinder::new(cache, associations);
    let apps = finder.find_for_mime("text/plain", false);
    assert_eq!(apps.len(), 1);
    assert!(apps[0].is_xdg);
    assert!(apps[0].is_default);
}

#[test]
fn test_get_applications_with_duplicate_desktop_ids() {
    // Two directories holding a file of the same id: it is offered once.
    let mut cache = MemoryCache::new();
    let content = "[Desktop Entry]\nName=Dup\nExec=dup %F\nMimeType=text/plain;\n";
    cache.insert("/a/apps/dup.desktop".to_string(), DesktopFile::parse_contents(content).unwrap());
    cache.insert("/b/apps/dup.desktop".to_string(), DesktopFile::parse_contents(content).unwrap());
    let finder = ApplicationFinder::new(cache, MimeAssociations::default());
    let apps = finder.find_for_mime("text/plain", false);
    assert_eq!(apps.len(), 1);
    assert_eq!(apps[0].desktop_file, "/a/apps/dup.desktop");
}
