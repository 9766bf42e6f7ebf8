use openit::paths::path_key_of;
use openit::xdg::{
    config_dirs, data_dirs, desktop_dir_candidates, desktop_environment_names, home_dir, join,
    mimeapps_list_candidates,
};

#[test]
fn test_get_desktop_environment_names() {
    let names = desktop_environment_names("GNOME:GTK");
    assert_eq!(names, vec!["gnome", "gtk"]);
}

#[test]
fn test_get_desktop_environment_names_empty() {
    let names = desktop_environment_names("");
    assert!(names.is_empty());
}

#[test]
fn test_get_desktop_environment_names_single() {
    let names = desktop_environment_names("KDE");
    assert_eq!(names, vec!["kde"]);
}

#[test]
fn test_get_mimeapps_list_files_exists() {
    let envs = desktop_environment_names("GNOME");
    let files = mimeapps_list_candidates(
        "/home/u/.config",
        &config_dirs(None),
        "/home/u/.local/share",
        &data_dirs(None),
        &envs,
    );
    assert!(!files.is_empty());
    assert_eq!(files[0], "/home/u/.config/gnome-mimeapps.list");
    assert_eq!(files[1], "/home/u/.config/mimeapps.list");
}

#[test]
fn test_lazy_statics_initialization() {
    let data_home = home_dir(None, Some("/home/u"), ".local/share");
    let config_home = home_dir(None, Some("/home/u"), ".config");
    assert_eq!(data_home, "/home/u/.local/share");
    assert_eq!(config_home, "/home/u/.config");

    assert!(!data_dirs(None).is_empty());
    assert!(!config_dirs(None).is_empty());
}

#[test]
fn test_xdg_env_vars_fallback() {
    let dirs = data_dirs(None);
    assert!(!dirs.is_empty());
    assert!(dirs.iter().all(|p| p.starts_with('/')), "XDG_DATA_DIRS entries should be absolute paths: {dirs:?}");
    assert_eq!(dirs, vec!["/usr/local/share", "/usr/share"]);

    assert!(!config_dirs(None).is_empty());
    assert_eq!(config_dirs(None), vec!["/etc/xdg"]);
}

#[test]
fn test_lazy_static_initialization_with_no_home() {
    assert_eq!(home_dir(None, None, ".local/share"), "/tmp");
    assert_eq!(home_dir(Some("/data"), None, ".local/share"), "/data");
}

#[test]
fn test_get_mimeapps_list_files_all_paths() {
    let envs = desktop_environment_names("GNOME:GTK");
    let files = mimeapps_list_candidates(
        "/cfg",
        &config_dirs(Some("/etc/xdg")),
        "/data",
        &data_dirs(Some("/usr/share")),
        &envs,
    );
    assert_eq!(
        files,
        vec![
            "/cfg/gnome-mimeapps.list",
            "/cfg/gtk-mimeapps.list",
            "/cfg/mimeapps.list",
            "/etc/xdg/gnome-mimeapps.list",
            "/etc/xdg/gtk-mimeapps.list",
            "/etc/xdg/mimeapps.list",
            "/data/applications/gnome-mimeapps.list",
            "/data/applications/gtk-mimeapps.list",
            "/data/applications/mimeapps.list",
            "/usr/share/applications/gnome-mimeapps.list",
            "/usr/share/applications/gtk-mimeapps.list",
            "/usr/share/applications/mimeapps.list",
        ]
    );
}

#[test]
fn test_get_desktop_file_paths_deduplication() {
    let dirs = desktop_dir_candidates(
        "/usr/share",
        &data_dirs(Some("/usr/share::/usr/local/share:/usr/share")),
        Some("/home/u"),
    );
    assert_eq!(
        dirs,
        vec![
            "/usr/share/applications",
            "/usr/local/share/applications",
            "/var/lib/flatpak/exports/share/applications",
            "/home/u/.local/share/flatpak/exports/share/applications",
        ]
    );
}

#[test]
fn join_follows_path_rules() {
    assert_eq!(join("/a", "b"), "/a/b");
    assert_eq!(join("/a/", "b"), "/a/b");
    assert_eq!(join("/a", "/b"), "/b");
    assert_eq!(join("", "b"), "b");
}

#[test]
fn desktop_dirs_equal_as_paths_are_listed_once() {
    let dirs = desktop_dir_candidates(
        "/usr/share/.",
        &vec!["/usr//share".to_string(), "/opt/apps/".to_string(), "/opt/apps".to_string()],
        None,
    );
    assert_eq!(
        dirs,
        vec![
            "/usr/share/./applications",
            "/opt/apps/applications",
            "/var/lib/flatpak/exports/share/applications",
        ]
    );
}

#[test]
fn path_keys_follow_path_components() {

    assert_eq!(path_key_of("/usr//share/./applications/"), "/usr/share/applications");
    assert_eq!(path_key_of("./a//b/."), "./a/b");
    assert_eq!(path_key_of("a/./b"), "a/b");
    assert_eq!(path_key_of("/"), "/");
    assert_eq!(path_key_of(""), "");
    assert_eq!(path_key_of("/a/../b"), "/a/../b");
    assert_eq!(path_key_of(".hidden/x"), ".hidden/x");
}
