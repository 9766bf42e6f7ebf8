use openit::cli::{OpenArgs, SelectorKind};
use openit::target::{mime_for_target, LaunchTarget};

fn open_args(target: Option<&str>) -> OpenArgs {
    OpenArgs {
        target: target.map(|t| t.to_string()),
        selector: SelectorKind::Auto,
        json: false,
        actions: false,
        clear_cache: false,
        verbose: false,
        build_info: false,
        generate_config: false,
        config: None,
        auto_open_single: false,
        enable_selector: None,
        selector_command: None,
        term_exec_args: None,
    }
}

#[test]
fn selector_kind_parse() {
    assert_eq!(SelectorKind::parse(" AUTO ").unwrap(), SelectorKind::Auto);
    assert_eq!(SelectorKind::parse("Fzf").unwrap(), SelectorKind::Named("fzf".to_string()));
    assert_eq!(SelectorKind::parse("fuzzel").unwrap(), SelectorKind::Named("fuzzel".to_string()));
    assert_eq!(SelectorKind::parse(" Rofi ").unwrap(), SelectorKind::Named("Rofi".to_string()));
    assert_eq!(SelectorKind::parse("  ").unwrap_err(), "Selector value cannot be empty");
}

#[test]
fn open_args_validation() {
    assert!(open_args(None).validate().is_err());
    assert!(open_args(Some("file.txt")).validate().is_ok());
    let mut args = open_args(None);
    args.clear_cache = true;
    assert!(args.validate().is_ok());
    assert_eq!(open_args(Some("x")).get_target(), Some("x"));
    assert_eq!(open_args(None).get_target(), None);
}

#[test]
fn launch_target_labels_and_mime() {
    let f = LaunchTarget::File("/home/u/notes.txt".to_string());
    assert_eq!(f.display_name(), "notes.txt");
    assert_eq!(f.as_command_argument(), "/home/u/notes.txt");
    assert_eq!(f.as_path(), Some("/home/u/notes.txt"));
    assert_eq!(mime_for_target(&f, false), "text/plain");
    assert_eq!(mime_for_target(&f, true), "inode/directory");
    let u = LaunchTarget::Uri("https://example.com/".to_string());
    assert_eq!(u.display_name(), "https://example.com/");
    assert_eq!(u.as_path(), None);
    assert_eq!(mime_for_target(&u, false), "x-scheme-handler/https");
}
