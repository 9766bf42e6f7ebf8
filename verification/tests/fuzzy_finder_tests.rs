use openit::application_finder::ApplicationEntry;
use openit::config::Config;
use openit::fuzzy_finder::{parse_index, FuzzyFinderRunner};
use openit::template::TemplateEngine;

fn create_test_application() -> ApplicationEntry {
    ApplicationEntry {
        name: "Test App".to_string(),
        exec_line: "testapp %F".to_string(),
        desktop_file: "/usr/share/applications/testapp.desktop".to_string(),
        comment: Some("Test application".to_string()),
        icon: Some("testapp-icon".to_string()),
        is_xdg: true,
        xdg_priority: 0,
        is_default: true,
        action_id: None,
    }
}

fn second_application() -> ApplicationEntry {
    ApplicationEntry {
        name: "Second App".to_string(),
        exec_line: "secondapp %F".to_string(),
        desktop_file: "/usr/share/applications/secondapp.desktop".to_string(),
        comment: Some("Second test application".to_string()),
        icon: None,
        is_xdg: false,
        xdg_priority: -1,
        is_default: false,
        action_id: None,
    }
}

#[test]
fn test_new_fuzzy_finder_runner() {
    let config = Config::default();
    let runner = FuzzyFinderRunner::new(config);

    assert!(runner.config.get_selector_profile("fzf").is_some());
    assert!(runner.config.get_selector_profile("fuzzel").is_some());
}

#[test]
fn test_run_with_invalid_fuzzer() {
    let runner = FuzzyFinderRunner::new(Config::default());
    let applications = vec![create_test_application()];
    let result = runner.prepare(&applications, "test.txt", "nonexistent");
    assert!(result.is_err());
    assert!(result
        .unwrap_err()
        .message()
        .contains("No configuration found for fuzzy finder"));
}

#[test]
fn test_run_command_construction() {
    let config = Config::default();
    let runner = FuzzyFinderRunner::new(config);

    let fuzzer_config = runner.config.get_selector_profile("fzf").unwrap();

    let mut template_engine = TemplateEngine::new();
    template_engine.set("file", "test.txt");

    let prompt = template_engine.render(runner.config.get_prompt_template(fuzzer_config));
    assert!(prompt.contains("test.txt"));

    let header = runner.config.get_header_template(fuzzer_config);
    assert!(!header.is_empty());

    template_engine.set("prompt", &prompt).set("header", header);

    let substituted_args = template_engine.render_args(&fuzzer_config.args);
    assert!(!substituted_args.is_empty());

    let prompt_arg_found = substituted_args.iter().any(|arg| arg.contains("test.txt"));
    assert!(prompt_arg_found);
}

#[test]
fn test_entry_display_generation() {
    let runner = FuzzyFinderRunner::new(Config::default());
    let app = create_test_application();
    let fuzzer_config = runner.config.get_selector_profile("fzf").unwrap();

    let display = runner.entry_display(fuzzer_config, &app);

    assert!(display.contains("Test App"));
    assert!(display.contains("Test application"));
    assert!(!display.is_empty());
    assert_eq!(display, "★  Test App - Test application");
}

#[test]
fn test_fuzzel_index_parsing() {
    let selected = "2";
    let parsed: Option<usize> = parse_index(selected);
    assert_eq!(parsed, Some(2));

    let invalid = "not_a_number";
    let parsed: Option<usize> = parse_index(invalid);
    assert_eq!(parsed, None);
}

#[test]
fn test_entry_matching_logic() {
    let runner = FuzzyFinderRunner::new(Config::default());
    let applications = vec![create_test_application(), second_application()];
    let fuzzer_config = runner.config.get_selector_profile("fzf").unwrap();

    let displays: Vec<String> =
        applications.iter().map(|app| runner.entry_display(fuzzer_config, app)).collect();

    let selected = format!("{}\n", displays[0]);
    let found_index = runner.resolve_selection(fuzzer_config, &applications, true, &selected);
    assert_eq!(found_index, Some(0));
}

#[test]
fn test_different_marker_types() {
    let runner = FuzzyFinderRunner::new(Config::default());
    let fuzzer_config = runner.config.get_selector_profile("fzf").unwrap();

    let default_marker = runner.config.get_marker(fuzzer_config, "default");
    let xdg_marker = runner.config.get_marker(fuzzer_config, "xdg");
    let available_marker = runner.config.get_marker(fuzzer_config, "available");

    assert_ne!(default_marker, xdg_marker);
    assert_ne!(default_marker, available_marker);
    assert_ne!(xdg_marker, available_marker);

    assert!(!default_marker.is_empty());
    assert!(!xdg_marker.is_empty());
    assert!(!available_marker.is_empty());
}

#[test]
fn test_template_substitution_in_args() {
    let runner = FuzzyFinderRunner::new(Config::default());
    let fuzzer_config = runner.config.get_selector_profile("fzf").unwrap();

    let mut template_engine = TemplateEngine::new();
    template_engine
        .set("file", "test.txt")
        .set("prompt", "Open 'test.txt' with: ")
        .set("header", "Available applications");

    let substituted_args = template_engine.render_args(&fuzzer_config.args);

    let has_prompt = substituted_args.iter().any(|arg| arg.contains("test.txt"));
    assert!(has_prompt);

    let has_header = substituted_args.iter().any(|arg| arg.contains("Available"));
    assert!(has_header);
}

#[test]
fn prepare_renders_arguments_and_entries() {
    let runner = FuzzyFinderRunner::new(Config::default());
    let applications = vec![create_test_application(), second_application()];
    let inv = runner.prepare(&applications, "notes.txt", "fzf").unwrap();
    assert_eq!(inv.command, "fzf");
    assert_eq!(inv.args[1], "Open 'notes.txt' with: ");
    assert_eq!(inv.args[4], "--header=★=Default ▶=XDG Associated  =Available");
    assert_eq!(inv.entries, vec!["★  Test App - Test application", "   Second App - Second test application"]);
    assert!(inv.env.is_empty());
}

#[test]
fn fuzzel_index_output_is_read_as_index() {
    let runner = FuzzyFinderRunner::new(Config::default());
    let fuzzel = runner.config.get_selector_profile("fuzzel").unwrap();
    let applications = vec![create_test_application(), second_application()];
    assert_eq!(runner.resolve_selection(fuzzel, &applications, true, " 1\n"), Some(1));
    assert_eq!(runner.resolve_selection(fuzzel, &applications, true, "x"), None);
    assert_eq!(runner.resolve_selection(fuzzel, &applications, false, "1"), None);
}

#[test]
fn parse_index_follows_usize_parsing() {
    assert_eq!(parse_index("+7"), Some(7));
    assert_eq!(parse_index(""), None);
    assert_eq!(parse_index("+"), None);
    assert_eq!(parse_index("-1"), None);
    assert_eq!(parse_index("99999999999999999999999"), None);
    assert_eq!(parse_index("18446744073709551615"), Some(usize::MAX));
}

#[test]
fn unknown_selection_gives_none() {
    let runner = FuzzyFinderRunner::new(Config::default());
    let fzf = runner.config.get_selector_profile("fzf").unwrap();
    let applications = vec![create_test_application()];
    assert_eq!(runner.resolve_selection(fzf, &applications, true, "nothing"), None);
}
