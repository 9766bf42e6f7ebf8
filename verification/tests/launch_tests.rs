use openit::application_finder::{ApplicationEntry, ApplicationFinder};
use openit::cache::MemoryCache;
use openit::cli::SelectorKind;
use openit::commands::{GetCommand, ListCommand};
use openit::config::Config;
use openit::desktop_parser::{DesktopEntry, DesktopFile};
use openit::fuzzy_finder::{FinderError, FuzzyFinderRunner};
use openit::launch::{
    applications_for_target, first_step, open_single_directly, selector_plan, terminal_launcher,
    LaunchError, LaunchStep, SelectorPlan,
};
use openit::mime_associations::MimeAssociations;
use openit::mimeapps::MimeApps;
use openit::regex_handlers::{RegexHandlerDefinition, RegexHandlerStore};
use openit::strmap::StrMap;
use openit::target::{classify_target, mime_for_target, LaunchTarget, TargetSource};

fn entry(name: &str, exec: &str, mimes: &[&str], categories: &[&str], terminal: bool) -> DesktopFile {
    let mut e = DesktopEntry::default();
    e.name = name.to_string();
    e.exec_line = exec.to_string();
    e.mime_types = mimes.iter().map(|s| s.to_string()).collect();
    e.categories = categories.iter().map(|s| s.to_string()).collect();
    e.terminal = terminal;
    DesktopFile { main_entry: Some(e), actions: StrMap::new() }
}

fn finder(files: Vec<(&str, DesktopFile)>, assoc: Option<(&str, &[&str])>) -> ApplicationFinder {
    let mut cache = MemoryCache::new();
    for (path, file) in files {
        cache.insert(path.to_string(), file);
    }
    let associations = match assoc {
        Some((mime, ids)) => {
            let mut map: StrMap<Vec<String>> = StrMap::new();
            map.insert(mime.to_string(), ids.iter().map(|s| s.to_string()).collect());
            MimeAssociations::with_associations(map)
        }
        None => MimeAssociations::new(),
    };
    ApplicationFinder::new(cache, associations)
}

fn app(name: &str, desktop_file: &str) -> ApplicationEntry {
    ApplicationEntry {
        name: name.to_string(),
        exec_line: format!("{} %F", name.to_lowercase()),
        desktop_file: desktop_file.to_string(),
        comment: None,
        icon: None,
        is_xdg: false,
        xdg_priority: -1,
        is_default: false,
        action_id: None,
    }
}

fn store_for(pattern: &str, exec: &str) -> RegexHandlerStore {
    let mut def = RegexHandlerDefinition::default();
    def.exec_line = exec.to_string();
    def.regexes = vec![pattern.to_string()];
    def.priority = 5;
    match RegexHandlerStore::from_definitions(vec![def]) {
        Ok(store) => store,
        Err(_) => panic!("pattern compiles"),
    }
}

#[test]
fn first_step_decisions() {
    assert_eq!(first_step(true, true, false, 3), LaunchStep::PrintJson);
    assert_eq!(first_step(false, false, true, 3), LaunchStep::PrintJson);
    assert_eq!(first_step(false, false, false, 3), LaunchStep::LaunchFirst);
    assert_eq!(first_step(false, true, true, 1), LaunchStep::LaunchFirst);
    assert_eq!(first_step(false, true, true, 2), LaunchStep::Choose);
}

#[test]
fn single_application_opens_directly() {
    let one = vec![app("Alpha", "alpha.desktop")];
    assert!(open_single_directly(&one, true));
    assert!(!open_single_directly(&one, false));
    let regex = vec![app("Handler", "regex-handler-5.desktop")];
    assert!(open_single_directly(&regex, false));
    let two = vec![app("Alpha", "alpha.desktop"), app("Beta", "beta.desktop")];
    assert!(!open_single_directly(&two, true));
}

#[test]
fn applications_for_target_puts_regex_handler_first() {
    let f = finder(vec![("/apps/viewer.desktop", entry("Viewer", "viewer %f", &["text/plain"], &[], false))], None);
    let store = store_for("^https://example", "browser %u");
    let target = LaunchTarget::Uri("https://example.com".to_string());
    let apps = applications_for_target(&f, &store, &target, "x-scheme-handler/https", false).unwrap();
    assert_eq!(apps.len(), 1);
    assert_eq!(apps[0].desktop_file, "regex-handler-5.desktop");
    assert_eq!(apps[0].exec_line, "browser %u");

    let file = LaunchTarget::File("/tmp/notes.txt".to_string());
    let apps = applications_for_target(&f, &store, &file, "text/plain", false).unwrap();
    assert_eq!(apps.len(), 1);
    assert_eq!(apps[0].name, "Viewer");
}

#[test]
fn applications_for_target_without_any_is_an_error() {
    let f = finder(vec![], None);
    let store = RegexHandlerStore::empty();
    let target = LaunchTarget::File("/tmp/a.bin".to_string());
    match applications_for_target(&f, &store, &target, "application/x-thing", false) {
        Err(e) => {
            assert!(matches!(e, LaunchError::NoApplications(_)));
            assert_eq!(e.message(), "No applications found for MIME type: application/x-thing");
        }
        Ok(_) => panic!("expected an error"),
    }
    assert_eq!(LaunchError::NoTarget.message(), "No target provided");
}

#[test]
fn terminal_launcher_prefers_terminal_handler() {
    let f = finder(
        vec![
            ("/apps/kitty.desktop", entry("Kitty", "kitty --single %U", &["x-scheme-handler/terminal"], &[], false)),
            ("/apps/xterm.desktop", entry("XTerm", "xterm", &[], &["System", "TerminalEmulator"], false)),
        ],
        None,
    );
    assert_eq!(terminal_launcher(&f).unwrap(), vec!["kitty".to_string(), "--single".to_string()]);
}

#[test]
fn terminal_launcher_falls_back_to_category() {
    let f = finder(
        vec![
            ("/apps/top.desktop", entry("Top", "top", &[], &["TerminalEmulator"], true)),
            ("/apps/xterm.desktop", entry("XTerm", "xterm -fa Mono", &[], &["System", "TerminalEmulator"], false)),
        ],
        None,
    );
    let emulators = f.find_terminal_emulators();
    assert_eq!(emulators.len(), 2);
    assert!(f.requires_terminal(&emulators[0]));
    assert!(!f.requires_terminal(&emulators[1]));
    assert_eq!(
        terminal_launcher(&f).unwrap(),
        vec!["xterm".to_string(), "-fa".to_string(), "Mono".to_string()]
    );
}

#[test]
fn terminal_launcher_without_terminal_fails() {
    let f = finder(vec![("/apps/viewer.desktop", entry("Viewer", "viewer", &["text/plain"], &[], false))], None);
    match terminal_launcher(&f) {
        Err(e) => assert!(e.message().starts_with("No terminal emulator found.")),
        Ok(_) => panic!("expected an error"),
    }
}

#[test]
fn selector_plan_choices() {
    let config = Config::default();
    let named_profile = SelectorKind::Named("fzf".to_string());
    assert!(matches!(selector_plan(&named_profile, false, &config), SelectorPlan::Fuzzy(n) if n == "fzf"));
    match selector_plan(&named_profile, true, &config) {
        SelectorPlan::Selector(s) => assert_eq!(s.selector, config.selector.selector),
        SelectorPlan::Fuzzy(_) => panic!("a given command wins"),
    }
    match selector_plan(&SelectorKind::Named("dmenu -l 10".to_string()), false, &config) {
        SelectorPlan::Selector(s) => {
            assert_eq!(s.selector, "dmenu -l 10");
            assert_eq!(s.term_exec_args, config.selector.term_exec_args);
        }
        SelectorPlan::Fuzzy(_) => panic!("no such profile"),
    }
    match selector_plan(&SelectorKind::Auto, false, &config) {
        SelectorPlan::Selector(s) => assert_eq!(s.selector, config.selector.selector),
        SelectorPlan::Fuzzy(_) => panic!("auto runs the configured selector"),
    }
}

#[test]
fn detect_available_prefers_fzf() {
    let runner = FuzzyFinderRunner::new(Config::default());
    assert_eq!(runner.detect_available(true, true).unwrap(), "fzf");
    assert_eq!(runner.detect_available(false, true).unwrap(), "fuzzel");
    match runner.detect_available(false, false) {
        Err(e) => {
            assert!(matches!(e, FinderError::NoneAvailable));
            assert_eq!(e.message(), "No fuzzy finder found. Install fzf or fuzzel.");
        }
        Ok(_) => panic!("nothing is installed"),
    }
}

#[test]
fn wildcard_query_lists_matching_types_once() {
    let f = finder(
        vec![
            ("/apps/a.desktop", entry("A", "a", &["image/png", "text/plain"], &[], false)),
            ("/apps/b.desktop", entry("B", "b", &["image/jpeg", "image/png"], &[], false)),
        ],
        None,
    );
    assert_eq!(f.all_mime_types(), vec!["image/png", "text/plain", "image/jpeg"]);
    assert_eq!(GetCommand::matching_mime_types(&f, "image/*"), vec!["image/png", "image/jpeg"]);
    assert!(GetCommand::matching_mime_types(&f, "video/*").is_empty());
}

#[test]
fn app_label_marks_defaults_and_actions() {
    let mut a = app("Viewer", "viewer.desktop");
    assert_eq!(GetCommand::app_label(&a), "  Viewer");
    a.is_xdg = true;
    assert_eq!(GetCommand::app_label(&a), "\u{25b6} Viewer");
    a.is_default = true;
    a.action_id = Some("edit".to_string());
    assert_eq!(GetCommand::app_label(&a), "\u{2605} Viewer [action: edit]");
}

#[test]
fn list_text_lines_join_handlers() {
    let apps = MimeApps::parse("[Default Applications]\ntext/plain=a.desktop;b.desktop;\nimage/png=c.desktop;\n");
    assert_eq!(
        ListCommand::text_lines(&apps),
        vec!["image/png: c.desktop".to_string(), "text/plain: a.desktop; b.desktop".to_string()]
    );
}

#[test]
fn test_detect_available_with_fzf() {
    let config = Config::default();
    let runner = FuzzyFinderRunner::new(config);

    let result = runner.detect_available(which::which("fzf").is_ok(), which::which("fuzzel").is_ok());

    match result {
        Ok(name) => {
            assert!(name == "fzf" || name == "fuzzel");
        }
        Err(e) => {
            assert!(e.message().contains("No fuzzy finder found"));
        }
    }
}

#[test]
fn resolve_terminal_launcher_prefers_scheme_handler() {
    let mut terminal_entry = DesktopEntry::default();
    terminal_entry.name = "Terminal".to_string();
    terminal_entry.exec_line = "foot".to_string();
    terminal_entry.mime_types = vec!["x-scheme-handler/terminal".to_string()];
    terminal_entry.categories = vec!["TerminalEmulator".to_string()];
    let terminal_file = DesktopFile { main_entry: Some(terminal_entry), actions: StrMap::new() };
    let f = finder(
        vec![("/usr/share/applications/terminal.desktop", terminal_file)],
        Some(("x-scheme-handler/terminal", &["terminal.desktop"])),
    );

    let launcher = terminal_launcher(&f).unwrap();
    assert_eq!(launcher, vec!["foot"]);
}

#[test]
fn resolve_terminal_launcher_falls_back_to_category() {
    let mut terminal_entry = DesktopEntry::default();
    terminal_entry.name = "Kitty".to_string();
    terminal_entry.exec_line = "kitty --single-instance".to_string();
    terminal_entry.categories = vec!["Utility".to_string(), "TerminalEmulator".to_string()];
    let terminal_file = DesktopFile { main_entry: Some(terminal_entry), actions: StrMap::new() };
    let f = finder(vec![("/usr/share/applications/kitty.desktop", terminal_file)], None);

    let launcher = terminal_launcher(&f).unwrap();
    assert_eq!(launcher, vec!["kitty", "--single-instance"]);
}

#[test]
fn resolve_terminal_launcher_errors_without_terminal() {
    let f = ApplicationFinder::new(MemoryCache::new(), MimeAssociations::default());

    let result = terminal_launcher(&f);
    assert!(result.is_err());
}

#[test]
fn resolve_launch_target_with_uri() {
    let source = classify_target("https://example.com").unwrap();
    let target = match source {
        TargetSource::Uri(uri) => LaunchTarget::Uri(uri),
        other => panic!("expected a URI, got {other:?}"),
    };
    assert!(matches!(target, LaunchTarget::Uri(_)));
    assert_eq!(mime_for_target(&target, false), "x-scheme-handler/https");
}

#[test]
fn classify_target_reads_file_uris_and_paths() {
    assert_eq!(
        classify_target("file:///tmp/some%20file.txt").unwrap(),
        TargetSource::FileUri("/tmp/some file.txt".to_string())
    );
    assert_eq!(classify_target("notes/todo.txt").unwrap(), TargetSource::Path("notes/todo.txt".to_string()));
    assert_eq!(
        classify_target("https://example.com/a b").unwrap(),
        TargetSource::Uri("https://example.com/a%20b".to_string())
    );
    match classify_target("file://remote-host/share/x.txt") {
        Err(e) => assert_eq!(e.message(), "Invalid file URI: file://remote-host/share/x.txt"),
        Ok(other) => panic!("expected an error, got {other:?}"),
    }
}

#[test]
fn applications_for_mime_empty() {
    let f = ApplicationFinder::new(MemoryCache::new(), MimeAssociations::default());
    let apps = f.find_for_mime("application/unknown", false);
    assert!(apps.is_empty());
}

#[test]
fn wildcard_results_group_types_with_applications() {
    let f = finder(
        vec![
            ("/apps/a.desktop", entry("A", "a", &["image/png", "text/plain"], &[], false)),
            ("/apps/b.desktop", entry("B", "b", &["image/png"], &[], false)),
        ],
        Some(("image/jpeg", &["c.desktop"])),
    );
    let groups = GetCommand::wildcard_results(&f, "image/*", false);
    assert_eq!(groups.len(), 1);
    assert_eq!(groups[0].0, "image/png");
    let names: Vec<String> = groups[0].1.iter().map(|a| a.name.clone()).collect();
    assert_eq!(names, vec!["A".to_string(), "B".to_string()]);
    assert!(GetCommand::wildcard_results(&f, "video/*", false).is_empty());
}

#[test]
fn parsed_entries_read_back_after_writing() {
    let text = "[Default Applications]\n=x.desktop;\ntext/plain = a.desktop ; b.desktop;a.desktop\n\n[Added Associations]\nimage/png=c.desktop;\n";
    let apps = MimeApps::parse(text);
    let written = apps.serialize();
    assert!(written.contains("=x.desktop;"));
    let again = MimeApps::parse(&written);
    assert_eq!(again.serialize(), written);
    assert_eq!(again.handlers_for("").unwrap().iter().to_vec(), vec!["x.desktop".to_string()]);
    assert_eq!(
        again.handlers_for("text/plain").unwrap().iter().to_vec(),
        vec!["a.desktop".to_string(), "b.desktop".to_string()]
    );
}
