use openit::application_finder::ApplicationEntry;
use openit::executor::{ApplicationExecutor, ExecError};
use openit::target::LaunchTarget;

fn create_test_application(exec: &str) -> ApplicationEntry {
    ApplicationEntry {
        name: "Test App".to_string(),
        exec_line: exec.to_string(),
        desktop_file: "/usr/share/applications/testapp.desktop".to_string(),
        comment: Some("Test application".to_string()),
        icon: Some("testapp-icon".to_string()),
        is_xdg: false,
        xdg_priority: -1,
        is_default: false,
        action_id: None,
    }
}

fn file(path: &str) -> LaunchTarget {
    LaunchTarget::File(path.to_string())
}

#[test]
fn test_new_executor() {
    let _executor = ApplicationExecutor::new();
}

#[test]
fn test_default_executor() {
    let _executor = ApplicationExecutor::default();
}

#[test]
fn test_prepare_command_basic() {
    let result = ApplicationExecutor::prepare_command("texteditor %f", &file("/home/user/test.txt")).unwrap();
    assert_eq!(result, vec!["texteditor", "/home/user/test.txt"]);
}

#[test]
fn test_prepare_command_with_args() {
    let result =
        ApplicationExecutor::prepare_command("editor --readonly %f", &file("/home/user/test.txt")).unwrap();
    assert_eq!(result, vec!["editor", "--readonly", "/home/user/test.txt"]);
}

#[test]
fn test_prepare_command_clean_placeholders() {
    let target = file("/home/user/test.txt");
    let test_cases = vec![
        ("app %f", vec!["app", "/home/user/test.txt"]),
        ("app %F", vec!["app", "/home/user/test.txt"]),
        ("app %u", vec!["app", "/home/user/test.txt"]),
        ("app %U", vec!["app", "/home/user/test.txt"]),
        ("app %i", vec!["app", "/home/user/test.txt"]),
        ("app %c", vec!["app", "/home/user/test.txt"]),
        ("app %k", vec!["app", "/home/user/test.txt"]),
        ("app %%", vec!["app", "%", "/home/user/test.txt"]),
    ];

    for (input, expected) in test_cases {
        let result = ApplicationExecutor::prepare_command(input, &target).unwrap();
        assert_eq!(result, expected, "Failed for input: {}", input);
    }
}

#[test]
fn test_prepare_command_multiple_placeholders() {
    let result = ApplicationExecutor::prepare_command("app %f %u %F", &file("/home/user/test.txt")).unwrap();
    assert_eq!(result, vec!["app", "/home/user/test.txt"]);
}

#[test]
fn test_prepare_command_empty_after_cleaning() {
    let result = ApplicationExecutor::prepare_command("   %f %F   ", &file("/home/user/test.txt"));
    assert!(result.is_err());
    assert_eq!(result.unwrap_err().message(), "Empty exec command");
}

#[test]
fn test_prepare_command_with_whitespace() {
    let result =
        ApplicationExecutor::prepare_command("  editor   --flag   %f  ", &file("/home/user/test.txt")).unwrap();
    assert_eq!(result, vec!["editor", "--flag", "/home/user/test.txt"]);
}

#[test]
fn test_prepare_command_complex_path() {
    let result =
        ApplicationExecutor::prepare_command("editor %f", &file("/home/user/Documents/My File.txt")).unwrap();
    assert_eq!(result, vec!["editor", "/home/user/Documents/My File.txt"]);
}

#[test]
fn test_prepare_command_no_placeholders() {
    let result = ApplicationExecutor::prepare_command("simple-editor", &file("/home/user/test.txt")).unwrap();
    assert_eq!(result, vec!["simple-editor", "/home/user/test.txt"]);
}

#[test]
fn test_execute_command_preparation() {
    let app = create_test_application("echo %f");
    let prepared = ApplicationExecutor::prepare_command(&app.exec_line, &file("/tmp/test.txt")).unwrap();
    assert_eq!(prepared, vec!["echo", "/tmp/test.txt"]);
}

#[test]
fn test_prepare_command_with_quotes() {
    let result = ApplicationExecutor::prepare_command(
        "editor --title=\"My Editor\" %f",
        &file("/home/user/test.txt"),
    )
    .unwrap();
    assert_eq!(result, vec!["editor", "--title=My Editor", "/home/user/test.txt"]);
}

#[test]
fn test_prepare_command_edge_cases() {
    let target = file("/test.txt");

    let result = ApplicationExecutor::prepare_command("   %f   %F   ", &target);
    assert!(result.is_err());

    let result = ApplicationExecutor::prepare_command("app", &target).unwrap();
    assert_eq!(result, vec!["app", "/test.txt"]);

    let result = ApplicationExecutor::prepare_command("app %%f", &target).unwrap();
    assert_eq!(result, vec!["app", "/test.txt"]);
}

#[test]
fn test_prepare_command_with_uri_target() {
    let target = LaunchTarget::Uri("https://example.com/".to_string());
    let result = ApplicationExecutor::prepare_command("browser %u", &target).unwrap();
    assert_eq!(result, vec!["browser", "https://example.com/"]);
}

#[test]
fn test_command_parts_ordering() {
    let result = ApplicationExecutor::prepare_command(
        "viewer --fullscreen --page=1 %f",
        &file("/home/user/document.pdf"),
    )
    .unwrap();
    assert_eq!(result, vec!["viewer", "--fullscreen", "--page=1", "/home/user/document.pdf"]);
}

#[test]
fn test_build_command_with_launch_prefix() {
    let executor = ApplicationExecutor::with_launch_prefix(Some("flatpak run".into()));
    let app = create_test_application("code %f");
    let result = executor.build_command(&app, &file("/home/user/test.txt"), None).unwrap();
    assert_eq!(result, vec!["flatpak", "run", "code", "/home/user/test.txt"]);
}

#[test]
fn test_build_command_ignores_empty_prefix() {
    let executor = ApplicationExecutor::with_launch_prefix(Some("   ".into()));
    let app = create_test_application("app %f");
    let result = executor.build_command(&app, &file("/home/user/test.txt"), None).unwrap();
    assert_eq!(result, vec!["app", "/home/user/test.txt"]);
}

#[test]
fn test_build_command_invalid_prefix_errors() {
    let executor = ApplicationExecutor::with_launch_prefix(Some("\"unterminated".into()));
    let app = create_test_application("app %f");
    let result = executor.build_command(&app, &file("/home/user/test.txt"), None);
    assert!(result.unwrap_err().message().contains("Failed to parse app launch prefix"));
}

#[test]
fn test_build_command_with_terminal_launcher_and_args() {
    let executor = ApplicationExecutor::with_options(None, Some("-e".into()));
    let app = create_test_application("code %f");
    let terminal_launcher = vec!["foot".to_string()];
    let result = executor
        .build_command(&app, &file("/home/user/test.txt"), Some(terminal_launcher))
        .unwrap();
    assert_eq!(result, vec!["foot", "-e", "code", "/home/user/test.txt"]);
}

#[test]
fn test_build_command_with_terminal_launcher_no_args() {
    let executor = ApplicationExecutor::with_options(None, Some(String::new()));
    let app = create_test_application("nvim %f");
    let terminal_launcher = vec!["kitty".to_string(), "--single-instance".to_string()];
    let result = executor
        .build_command(&app, &file("/home/user/test.txt"), Some(terminal_launcher))
        .unwrap();
    assert_eq!(result, vec!["kitty", "--single-instance", "nvim", "/home/user/test.txt"]);
}

#[test]
fn unterminated_exec_is_a_parse_error() {
    let err = ApplicationExecutor::prepare_command("app \"open", &file("/x")).unwrap_err();
    assert!(matches!(err, ExecError::ParseExec));
    assert_eq!(err.message(), "Failed to parse exec command: missing closing quote");
}

#[test]
fn unterminated_terminal_args_are_an_error() {
    let executor = ApplicationExecutor::with_options(None, Some("'-e".into()));
    let app = create_test_application("nvim %f");
    let err = executor.build_command(&app, &file("/x"), Some(vec!["foot".to_string()])).unwrap_err();
    assert_eq!(err.message(), "Failed to parse terminal exec args `'-e`: missing closing quote");
}

#[test]
fn clean_exec_word_examples() {
    assert_eq!(openit::executor::clean_exec_word("%%f"), "");
    assert_eq!(openit::executor::clean_exec_word("100%%"), "100%");
    assert_eq!(openit::executor::clean_exec_word("--file=%f"), "--file=");
    assert_eq!(openit::executor::clean_exec_word("%U%u"), "");
}

#[test]
fn test_execute_with_empty_exec() {
    let app = create_test_application("   %f %F   ");
    let target = LaunchTarget::File("/home/user/test.txt".to_string());

    let executor = ApplicationExecutor::new();
    let result = executor.build_command(&app, &target, None);
    assert!(result.is_err());
    assert_eq!(result.unwrap_err().message(), "Empty exec command");
}

#[test]
fn blank_exec_line_has_no_words() {
    match ApplicationExecutor::base_command_parts(" \t\n ") {
        Err(e) => assert_eq!(e.message(), "Empty exec command"),
        Ok(parts) => panic!("expected no command, got {parts:?}"),
    }
}
