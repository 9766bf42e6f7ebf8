use openit::application_finder::ApplicationEntry;
use openit::config::SelectorSettings;
use openit::selector::{SelectorError, SelectorRunner};

fn test_app(name: &str) -> ApplicationEntry {
    ApplicationEntry {
        name: name.to_string(),
        exec_line: format!("{name} %F"),
        desktop_file: format!("{name}.desktop"),
        comment: None,
        icon: None,
        is_xdg: false,
        xdg_priority: -1,
        is_default: false,
        action_id: None,
    }
}

#[test]
fn test_selector_runner_selects_second_entry() {
    let runner = SelectorRunner::new();
    let apps = vec![test_app("First"), test_app("Second")];
    assert_eq!(runner.resolve_selection(&apps, true, "Second\n").unwrap(), Some(1));
}

#[test]
fn test_selector_runner_handles_cancellation() {
    let runner = SelectorRunner::new();
    let apps = vec![test_app("First")];
    assert_eq!(runner.resolve_selection(&apps, false, "").unwrap(), None);
    assert_eq!(runner.resolve_selection(&apps, true, "  \n").unwrap(), None);
}

#[test]
fn test_selector_runner_appends_term_exec_args() {
    let runner = SelectorRunner::new();
    let settings = SelectorSettings {
        enable_selector: true,
        selector: " rofi -dmenu ".to_string(),
        term_exec_args: Some("-e 'sh -c'".to_string()),
        expand_wildcards: false,
    };
    let apps = vec![test_app("First")];
    let parts = runner.command_parts(&settings, &apps).unwrap().unwrap();
    assert_eq!(parts, vec!["rofi", "-dmenu", "-e", "sh -c"]);
}

#[test]
fn test_selector_runner_rejects_unknown_selection() {
    let runner = SelectorRunner::new();
    let apps = vec![test_app("First"), test_app("Second")];
    let err = runner.resolve_selection(&apps, true, "Third").unwrap_err();
    assert_eq!(
        err.message(),
        "Selector returned unknown selection `Third` (expected one of [First, Second])"
    );
}

#[test]
fn empty_selector_command_is_refused() {
    let runner = SelectorRunner::new();
    let mut settings = SelectorSettings::default();
    settings.selector = "   ".to_string();
    let apps = vec![test_app("First")];
    assert!(matches!(runner.command_parts(&settings, &apps), Err(SelectorError::EmptyCommand)));
    assert!(runner.command_parts(&settings, &[]).unwrap().is_none());
}

#[test]
fn blank_terminal_arguments_are_ignored() {
    let runner = SelectorRunner::new();
    let settings = SelectorSettings {
        enable_selector: true,
        selector: "dmenu".to_string(),
        term_exec_args: Some("  ".to_string()),
        expand_wildcards: false,
    };
    let parts = runner.command_parts(&settings, &[test_app("A")]).unwrap().unwrap();
    assert_eq!(parts, vec!["dmenu"]);
}

#[test]
fn unterminated_selector_command_is_a_parse_error() {
    let runner = SelectorRunner::new();
    let mut settings = SelectorSettings::default();
    settings.selector = "rofi '-dmenu".to_string();
    let err = runner.command_parts(&settings, &[test_app("A")]).unwrap_err();
    assert_eq!(err.message(), "Failed to parse selector command: missing closing quote");
}

#[test]
fn input_text_lists_names() {
    let apps = vec![test_app("First"), test_app("Second")];
    assert_eq!(SelectorRunner::input_text(&apps), "First\nSecond\n");
}
