use openit::application_finder::ApplicationFinder;
use openit::cache::MemoryCache;
use openit::cli::{EditArgs, RemoveArgs, UnsetArgs};
use openit::commands::{
    normalize_mime_input, AddCommand, CommandContext, CommandError, MimeError, RemoveCommand,
    SetCommand, UnsetCommand,
};
use openit::desktop_parser::{DesktopEntry, DesktopFile};
use openit::mime_associations::MimeAssociations;
use openit::mimeapps::MimeApps;
use openit::strmap::StrMap;

#[test]
fn normalizes_extension() {
    assert_eq!(normalize_mime_input(".txt").unwrap(), "text/plain");
}

#[test]
fn normalizes_mime_case() {
    assert_eq!(normalize_mime_input("image/jpeg").unwrap(), "image/jpeg");
    assert_eq!(normalize_mime_input("image/JPG").unwrap(), "image/jpeg");
    assert_eq!(normalize_mime_input("image/png").unwrap(), "image/png");
}

#[test]
fn preserves_wildcard() {
    assert_eq!(normalize_mime_input("image/*").unwrap(), "image/*");
}

#[test]
fn rejects_invalid_mime() {
    let err = normalize_mime_input("invalid/").unwrap_err();
    assert!(err.message().contains("Invalid MIME type"));
}

#[test]
fn unknown_extension_is_reported() {
    let err = normalize_mime_input("no-such-extension-xyz").unwrap_err();
    assert!(matches!(err, MimeError::UnknownExtension(_)));
    assert_eq!(
        err.message(),
        "Unable to resolve MIME type for extension: no-such-extension-xyz"
    );
}

#[test]
fn extension_without_dot_and_with_many_dots() {
    assert_eq!(normalize_mime_input("png").unwrap(), "image/png");
    assert_eq!(normalize_mime_input("..png").unwrap(), "image/png");
}

fn finder_with(path: &str) -> ApplicationFinder {
    let mut cache = MemoryCache::new();
    let mut entry = DesktopEntry::default();
    entry.name = "Helix".to_string();
    entry.exec_line = "helix %F".to_string();
    cache.insert(path.to_string(), DesktopFile { main_entry: Some(entry), actions: StrMap::new() });
    ApplicationFinder::new(cache, MimeAssociations::new())
}

#[test]
fn ensure_handler_exists_checks_cache() {
    let ctx = CommandContext::default();
    let finder = finder_with("/usr/share/applications/helix.desktop");
    assert!(ctx.ensure_handler_exists("helix.desktop", false, &finder).is_ok());
    let err = ctx.ensure_handler_exists("nonexistent.desktop", false, &finder).unwrap_err();
    assert!(err.message().contains("Desktop handler"));
    assert!(matches!(
        ctx.ensure_handler_exists("   ", false, &finder),
        Err(CommandError::EmptyHandler)
    ));
    assert!(ctx.ensure_handler_exists("/opt/app/run.desktop", true, &finder).is_ok());
}

#[test]
fn set_add_remove_unset_commands() {
    let mut apps = MimeApps::new();
    let set = SetCommand::new(EditArgs {
        mime: "text/plain".into(),
        handler: "helix.desktop".into(),
        expand_wildcards: false,
    });
    set.apply("text/plain", &mut apps);
    assert!(apps.serialize().contains("text/plain=helix.desktop;"));
    assert_eq!(set.summary("text/plain"), "Set default handler for text/plain -> helix.desktop");

    let add = AddCommand::new(EditArgs {
        mime: "text/plain".into(),
        handler: "code.desktop".into(),
        expand_wildcards: false,
    });
    add.apply("text/plain", &mut apps);
    assert!(apps.serialize().contains("text/plain=helix.desktop;code.desktop;"));
    assert_eq!(add.summary("text/plain"), "Added handler code.desktop for text/plain");

    let remove = RemoveCommand::new(RemoveArgs {
        mime: "text/plain".into(),
        handler: "helix.desktop".into(),
        expand_wildcards: false,
    });
    remove.apply("text/plain", &mut apps);
    let text = apps.serialize();
    assert!(text.contains("text/plain=code.desktop;"));
    assert!(!text.contains("helix.desktop"));

    let unset = UnsetCommand::new(UnsetArgs { mime: "text/plain".into(), expand_wildcards: false });
    unset.apply("text/plain", &mut apps);
    assert!(apps.serialize().trim().is_empty());
    assert_eq!(unset.summary("text/plain"), "Unset handlers for text/plain");
}
