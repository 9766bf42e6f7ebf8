use openit::config::{Config, SelectorProfile};
use openit::strmap::StrMap;

#[test]
fn test_default_config() {
    let config = Config::default();

    assert!(config.selector.enable_selector);
    assert_eq!(config.selector.selector, "rofi -dmenu -i -p 'Open With: '");
    assert!(config.selector_profiles.contains_key("fzf"));
    assert!(config.selector_profiles.contains_key("fuzzel"));

    let fzf_config = config.get_selector_profile("fzf").unwrap();
    assert_eq!(fzf_config.command, "fzf");
    assert!(fzf_config.args.contains(&"--reverse".to_string()));
}

#[test]
fn test_add_custom_fuzzy_finder() {
    let mut config = Config::default();

    let custom_config = SelectorProfile {
        command: "custom-fuzzy".to_string(),
        args: vec!["--custom-arg".to_string()],
        env: StrMap::new(),
        entry_template: "{marker} {name}{comment}".to_string(),
        marker_default: None,
        marker_xdg: None,
        marker_available: None,
        prompt_template: None,
        header_template: None,
    };

    config.selector_profiles.insert("custom".to_string(), custom_config);

    assert!(config.selector_profiles.contains_key("custom"));
    assert_eq!(config.selector_profiles.len(), 3);
}

#[test]
fn markers_fall_back_to_configuration() {
    let config = Config::default();
    let fzf = config.get_selector_profile("fzf").unwrap();
    assert_eq!(config.get_marker(fzf, "default"), "★ ");
    assert_eq!(config.get_marker(fzf, "xdg"), "▶ ");
    assert_eq!(config.get_marker(fzf, "available"), "  ");
    assert_eq!(config.get_marker(fzf, "other"), "  ");
    let fuzzel = config.get_selector_profile("fuzzel").unwrap();
    assert_eq!(config.get_marker(fuzzel, "default"), "★");
    assert_eq!(config.get_marker(fuzzel, "available"), "   ");
    assert_eq!(config.get_prompt_template(fzf), "Open '{file}' with: ");
    assert_eq!(config.get_header_template(fzf), "★=Default ▶=XDG Associated  =Available");
}

#[test]
fn default_selector_profile_is_empty() {
    let p = SelectorProfile::default();
    assert!(p.command.is_empty());
    assert!(p.args.is_empty());
    assert!(p.marker_default.is_none());
}
