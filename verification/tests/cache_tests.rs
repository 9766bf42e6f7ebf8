use openit::cache::{CacheEntry, FileStamp, FileSystemCache, MemoryCache};
use openit::desktop_parser::{DesktopEntry, DesktopFile};
use openit::paths::{extension_of, is_hidden};
use openit::strmap::StrMap;

fn create_test_desktop_file() -> DesktopFile {
    let mut entry = DesktopEntry::default();
    entry.name = "Test App".to_string();
    entry.exec_line = "testapp %F".to_string();
    entry.comment = Some("Test application".to_string());
    entry.icon = Some("test-icon".to_string());
    entry.mime_types = vec!["text/plain".to_string()];
    DesktopFile { main_entry: Some(entry), actions: StrMap::new() }
}

#[test]
fn test_memory_cache_basic_operations() {
    let mut cache = MemoryCache::new();
    let desktop_file = create_test_desktop_file();
    let path = "/test/app.desktop".to_string();

    assert!(cache.is_empty());
    assert_eq!(cache.len(), 0);
    assert!(cache.get(&path).is_none());

    cache.insert(path.clone(), desktop_file.clone());
    assert!(!cache.is_empty());
    assert_eq!(cache.len(), 1);
    assert!(cache.get(&path).is_some());

    let removed = cache.remove(&path);
    assert!(removed.is_some());
    assert!(cache.is_empty());
    assert!(cache.get(&path).is_none());
}

#[test]
fn test_memory_cache_clear() {
    let mut cache = MemoryCache::new();
    let desktop_file = create_test_desktop_file();

    cache.insert("/test1.desktop".to_string(), desktop_file.clone());
    cache.insert("/test2.desktop".to_string(), desktop_file);

    assert_eq!(cache.len(), 2);

    cache.clear();
    assert!(cache.is_empty());
    assert_eq!(cache.len(), 0);
}

#[test]
fn test_memory_cache_iter() {
    let mut cache = MemoryCache::new();
    let desktop_file = create_test_desktop_file();

    let path1 = "/test1.desktop".to_string();
    let path2 = "/test2.desktop".to_string();

    cache.insert(path1.clone(), desktop_file.clone());
    cache.insert(path2.clone(), desktop_file);

    let entries = cache.iter();
    assert_eq!(entries.len(), 2);

    let paths: Vec<String> = entries.iter().map(|(path, _)| (*path).clone()).collect();
    assert!(paths.contains(&path1));
    assert!(paths.contains(&path2));
}

#[test]
fn test_memory_cache_load_save() {
    let mut cache = MemoryCache::new();

    assert!(cache.load().is_ok());
    assert!(cache.save().is_ok());
}

#[test]
fn test_memory_cache_invalidation() {
    let cache = MemoryCache::new();

    assert!(!cache.needs_invalidation());

    let mut cache = cache;
    cache.invalidate_expired();
}

#[test]
fn test_default_memory_cache() {
    let cache = MemoryCache::default();
    assert!(cache.is_empty());
    assert_eq!(cache.len(), 0);
}

#[test]
fn test_filesystem_cache_basic_operations() {
    let mut cache = FileSystemCache::new("/tmp/cache.json".to_string());

    let desktop_file = create_test_desktop_file();
    let path = "/test/app.desktop".to_string();

    assert!(cache.is_empty());
    assert_eq!(cache.len(), 0);
    assert!(cache.get(&path).is_none());

    cache.insert(path.clone(), desktop_file.clone(), 10, 20);
    assert!(!cache.is_empty());
    assert_eq!(cache.len(), 1);
    assert!(cache.get(&path).is_some());

    let removed = cache.remove(&path);
    assert!(removed.is_some());
    assert!(cache.is_empty());
    assert!(cache.get(&path).is_none());
}

#[test]
fn test_filesystem_cache_iter() {
    let mut cache = FileSystemCache::new("/tmp/cache.json".to_string());
    let desktop_file = create_test_desktop_file();
    let path1 = "/test1.desktop".to_string();
    let path2 = "/test2.desktop".to_string();

    cache.insert(path1.clone(), desktop_file.clone(), 1, 1);
    cache.insert(path2.clone(), desktop_file, 1, 1);

    let entries = cache.iter();
    assert_eq!(entries.len(), 2);

    let paths: Vec<String> = entries.iter().map(|(path, _)| (*path).clone()).collect();
    assert!(paths.contains(&path1));
    assert!(paths.contains(&path2));
}

#[test]
fn test_filesystem_cache_clear() {
    let mut cache = FileSystemCache::new("/tmp/cache.json".to_string());
    let desktop_file = create_test_desktop_file();
    cache.insert("/test1.desktop".to_string(), desktop_file.clone(), 1, 1);
    cache.insert("/test2.desktop".to_string(), desktop_file, 1, 1);

    assert_eq!(cache.len(), 2);

    cache.clear();
    assert!(cache.is_empty());
    assert_eq!(cache.len(), 0);
}

#[test]
fn test_filesystem_cache_with_max_age() {
    // Entries older than the maximum age are stale.
    let mut cache = FileSystemCache::with_max_age("/tmp/cache.json".to_string(), 100_000_000);
    cache.insert("/test/app.desktop".to_string(), create_test_desktop_file(), 0, 1_000);
    assert_eq!(cache.len(), 1);

    let later = 1_000 + 150_000_000;
    let stamps = [FileStamp::Modified(0)];
    assert!(cache.needs_invalidation(&stamps, later));

    cache.invalidate_expired(&stamps, later);
    assert!(cache.is_empty());
}

#[test]
fn test_cache_entry_expiration() {
    let entry = CacheEntry::new(create_test_desktop_file(), 500, 1_000);
    let sixty_seconds: u128 = 60_000_000_000;
    assert!(!entry.is_expired(FileStamp::Modified(500), 1_000, sixty_seconds));
    assert!(entry.is_expired(FileStamp::Modified(500), 1_000 + 10_000_000, 5_000_000));
}

#[test]
fn test_cache_entry_file_modification() {
    let entry = CacheEntry::new(create_test_desktop_file(), 500, 1_000);
    let sixty_seconds: u128 = 60_000_000_000;
    assert!(!entry.is_expired(FileStamp::Modified(500), 2_000, sixty_seconds));
    assert!(entry.is_expired(FileStamp::Modified(501), 2_000, sixty_seconds));
}

#[test]
fn test_cache_entry_missing_file() {
    let entry = CacheEntry::new(create_test_desktop_file(), 500, 1_000);
    assert!(entry.is_expired(FileStamp::Missing, 1_000, 60_000_000_000));
}

#[test]
fn cache_entry_from_the_future_is_stale() {
    let entry = CacheEntry::new(create_test_desktop_file(), 500, 1_000);
    assert!(entry.is_expired(FileStamp::Unknown, 999, 60_000_000_000));
    assert!(!entry.is_expired(FileStamp::Unknown, 1_000, 60_000_000_000));
}

#[test]
fn invalidate_keeps_fresh_entries_in_order() {
    let mut cache = FileSystemCache::new("/tmp/cache.json".to_string());
    cache.insert("/a.desktop".to_string(), create_test_desktop_file(), 5, 100);
    cache.insert("/b.desktop".to_string(), create_test_desktop_file(), 5, 100);
    cache.insert("/c.desktop".to_string(), create_test_desktop_file(), 5, 100);
    let stamps = [FileStamp::Modified(5), FileStamp::Missing, FileStamp::Modified(4)];
    assert!(cache.needs_invalidation(&stamps, 200));
    cache.invalidate_expired(&stamps, 200);
    let paths: Vec<String> = cache.iter().iter().map(|(p, _)| (*p).clone()).collect();
    assert_eq!(paths, vec!["/a.desktop", "/c.desktop"]);
    assert_eq!(cache.cache_path(), "/tmp/cache.json");
}

#[test]
fn wants_only_uncached_desktop_files() {
    let mut cache = FileSystemCache::new("/tmp/cache.json".to_string());
    assert!(cache.wants("/apps/viewer.desktop", false));
    assert!(!cache.wants("/apps/readme.txt", true));
    assert!(!cache.wants("/apps/.desktop", true));
    assert!(!cache.wants("/apps/viewer.desktop.bak", false));
    cache.insert("/apps/viewer.desktop".to_string(), create_test_desktop_file(), 1, 2);
    assert!(!cache.wants("/apps/viewer.desktop", false));
    assert!(cache.wants("/apps/viewer.desktop", true));
}

#[test]
fn rebuild_when_empty_or_stale() {
    let mut cache = FileSystemCache::with_max_age("/tmp/cache.json".to_string(), 100);
    assert!(cache.needs_rebuild(&[], 5));
    cache.insert("/apps/viewer.desktop".to_string(), create_test_desktop_file(), 10, 20);
    assert!(!cache.needs_rebuild(&[FileStamp::Modified(10)], 50));
    assert!(cache.needs_rebuild(&[FileStamp::Modified(11)], 50));
    assert!(cache.needs_rebuild(&[FileStamp::Modified(10)], 500));
}

#[test]
fn path_extension_and_hidden_names() {
    assert_eq!(extension_of("/a/b/viewer.desktop"), Some("desktop".to_string()));
    assert_eq!(extension_of("/a/b/archive.tar.gz"), Some("gz".to_string()));
    assert_eq!(extension_of("/a/b/.bashrc"), None);
    assert_eq!(extension_of("/a/b/noext"), None);
    assert_eq!(extension_of("/a/b/trailing."), Some(String::new()));
    assert_eq!(extension_of("/"), None);
    assert!(is_hidden(".cache"));
    assert!(!is_hidden("applications"));
}
