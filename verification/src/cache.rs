//! Caches of parsed desktop files, keyed by the path they were read from.
use vstd::prelude::*;
use crate::desktop_parser::DesktopFile;
use crate::paths::{extension_of, extension_spec};
use crate::text::str_eq;
use crate::strmap::{lemma_pairs_to_map, StrMap};

verus! {

/// A cache held in memory only: loading and saving do nothing, and no
/// entry ever expires.
#[derive(Debug)]
pub struct MemoryCache {
    entries: StrMap<DesktopFile>,
}

impl MemoryCache {
    /// The cached files, with their paths, in the order `iter` walks them.
    pub closed spec fn files(self) -> Seq<(Seq<char>, DesktopFile)> {
        self.entries.pairs()
    }

    /// The cached files by path.
    pub closed spec fn file_map(self) -> Map<Seq<char>, DesktopFile> {
        self.entries.map()
    }

    /// An empty cache.
    pub fn new() -> (r: Self)
        ensures
            r.files() == Seq::<(Seq<char>, DesktopFile)>::empty(),
            r.file_map() == Map::<Seq<char>, DesktopFile>::empty(),
    {
        MemoryCache { entries: StrMap::new() }
    }

    /// Loading a memory cache does nothing and succeeds.
    pub fn load(&mut self) -> (r: Result<(), String>)
        ensures
            r is Ok,
            *final(self) == *old(self),
    {
        Ok(())
    }

    /// Saving a memory cache does nothing and succeeds.
    pub fn save(&self) -> (r: Result<(), String>)
        ensures
            r is Ok,
    {
        Ok(())
    }

    /// The file cached under `path`.
    pub fn get(&self, path: &str) -> (r: Option<&DesktopFile>)
        ensures
            match r {
                Some(f) => self.file_map().contains_key(path@) && *f == self.file_map()[path@],
                None => !self.file_map().contains_key(path@),
            },
    {
        self.entries.get(path)
    }

    /// Caches `desktop_file` under `path`, replacing what was there.
    pub fn insert(&mut self, path: String, desktop_file: DesktopFile)
        ensures
            final(self).file_map() == old(self).file_map().insert(path@, desktop_file),
    {
        self.entries.insert(path, desktop_file);
    }

    /// Takes the file cached under `path` out of the cache.
    pub fn remove(&mut self, path: &str) -> (r: Option<DesktopFile>)
        ensures
            final(self).file_map() == old(self).file_map().remove(path@),
            match r {
                Some(f) => old(self).file_map().contains_key(path@) && f == old(self).file_map()[path@],
                None => !old(self).file_map().contains_key(path@),
            },
    {
        self.entries.remove(path)
    }

    /// Empties the cache.
    pub fn clear(&mut self)
        ensures
            final(self).files() == Seq::<(Seq<char>, DesktopFile)>::empty(),
            final(self).file_map() == Map::<Seq<char>, DesktopFile>::empty(),
    {
        self.entries.clear();
    }

    /// Whether nothing is cached.
    pub fn is_empty(&self) -> (r: bool)
        ensures
            r == (self.files().len() == 0),
            r == (self.file_map().dom().len() == 0),
    {
        self.entries.is_empty()
    }

    /// How many files are cached; each path occurs once among them, and
    /// `file_map` is what they hold.
    pub fn len(&self) -> (r: usize)
        ensures
            r == self.files().len(),
            r == self.file_map().dom().len(),
            forall|k: Seq<char>| #[trigger]
                self.file_map().contains_key(k) <==> exists|i: int|
                    0 <= i < self.files().len() && self.files()[i].0 == k,
            forall|i: int|
                0 <= i < self.files().len() ==> #[trigger] self.file_map()[self.files()[i].0]
                    == self.files()[i].1,
            forall|i: int, j: int|
                0 <= i < j < self.files().len() ==> #[trigger] self.files()[i].0
                    != #[trigger] self.files()[j].0,
    {
        proof {
            use_type_invariant(&self.entries);
            lemma_pairs_to_map(self.entries.pairs());
            assert forall|i: int, j: int|
                0 <= i < j < self.files().len() implies #[trigger] self.files()[i].0
                != #[trigger] self.files()[j].0 by {
                crate::strmap::lemma_sorted_keys_distinct(self.entries.pairs(), i, j);
            }
        }
        self.entries.len()
    }

    /// The path of the `i`-th cached file.
    pub fn path_at(&self, i: usize) -> (r: &String)
        requires
            i < self.files().len(),
        ensures
            r@ == self.files()[i as int].0,
    {
        self.entries.key_at(i)
    }

    /// The `i`-th cached file.
    pub fn file_at(&self, i: usize) -> (r: &DesktopFile)
        requires
            i < self.files().len(),
        ensures
            *r == self.files()[i as int].1,
    {
        self.entries.value_at(i)
    }

    /// Every cached file with its path.
    pub fn iter(&self) -> (r: Vec<(&String, &DesktopFile)>)
        ensures
            r@.len() == self.files().len(),
            forall|i: int|
                0 <= i < r@.len() ==> (#[trigger] r@[i]).0@ == self.files()[i].0 && *r@[i].1
                    == self.files()[i].1,
    {
        let mut r: Vec<(&String, &DesktopFile)> = Vec::new();
        let n = self.len();
        let mut i: usize = 0;
        while i < n
            invariant
                n == self.files().len(),
                i <= n,
                r@.len() == i,
                forall|k: int|
                    0 <= k < i ==> (#[trigger] r@[k]).0@ == self.files()[k].0 && *r@[k].1
                        == self.files()[k].1,
            decreases n - i,
        {
            r.push((self.path_at(i), self.file_at(i)));
            i = i + 1;
        }
        r
    }

    /// A memory cache never needs invalidation.
    pub fn needs_invalidation(&self) -> (r: bool)
        ensures
            !r,
    {
        false
    }

    /// Nothing in a memory cache expires: it is left as it is.
    pub fn invalidate_expired(&mut self)
        ensures
            *final(self) == *old(self),
    {
    }
}

impl Default for MemoryCache {
    fn default() -> (r: Self)
        ensures
            r.files() == Seq::<(Seq<char>, DesktopFile)>::empty(),
            r.file_map() == Map::<Seq<char>, DesktopFile>::empty(),
    {
        MemoryCache::new()
    }
}

/// What the filesystem says of a cached file's path.
#[derive(Debug, Clone, Copy, PartialEq, Eq, Structural)]
pub enum FileStamp {
    /// The file's metadata cannot be read: it is gone.
    Missing,
    /// The metadata is there but holds no modification time.
    Unknown,
    /// The file was last modified at this time (nanoseconds since the Unix
    /// epoch).
    Modified(u128),
}

/// A cached desktop file with the modification time of its file and the
/// time it was cached, both in nanoseconds since the Unix epoch.
#[derive(Debug, Clone)]
pub struct CacheEntry {
    pub desktop_file: DesktopFile,
    pub last_modified: u128,
    pub cached_at: u128,
}

/// Whether an entry is stale: its file is gone or changed since it was
/// cached, or it was cached longer than `max_age` ago, or later than `now`.
pub open spec fn expired_spec(e: CacheEntry, stamp: FileStamp, now: u128, max_age: u128) -> bool {
    match stamp {
        FileStamp::Missing => true,
        FileStamp::Modified(m) if m > e.last_modified => true,
        _ => now < e.cached_at || now - e.cached_at > max_age,
    }
}

impl CacheEntry {
    /// An entry for a file modified at `last_modified`, cached at `now`.
    pub fn new(desktop_file: DesktopFile, last_modified: u128, now: u128) -> (r: Self)
        ensures
            r.desktop_file == desktop_file,
            r.last_modified == last_modified,
            r.cached_at == now,
    {
        CacheEntry { desktop_file, last_modified, cached_at: now }
    }

    /// Whether this entry is stale, given what the filesystem says of its
    /// file and the time now.
    pub fn is_expired(&self, stamp: FileStamp, now: u128, max_age: u128) -> (r: bool)
        ensures
            r == expired_spec(*self, stamp, now, max_age),
    {
        match stamp {
            FileStamp::Missing => {
                return true;
            },
            FileStamp::Modified(m) => {
                if m > self.last_modified {
                    return true;
                }
            },
            FileStamp::Unknown => {},
        }
        if now < self.cached_at {
            true
        } else {
            now - self.cached_at > max_age
        }
    }
}

/// The pairs of `s` whose flag in `keep` is set, in order.
pub open spec fn kept<V>(s: Seq<(Seq<char>, V)>, keep: Seq<bool>) -> Seq<(Seq<char>, V)>
    decreases s.len(),
{
    if s.len() == 0 {
        s
    } else {
        (if keep[0] {
            seq![s[0]]
        } else {
            Seq::empty()
        }) + kept(s.skip(1), keep.skip(1))
    }
}

/// When no entry is stale, invalidation keeps every entry, in order.
pub proof fn law_nothing_stale_keeps_all<V>(s: Seq<(Seq<char>, V)>, keep: Seq<bool>)
    requires
        keep.len() == s.len(),
        forall|i: int| 0 <= i < keep.len() ==> #[trigger] keep[i],
    ensures
        kept(s, keep) == s,
    decreases s.len(),
{
    if s.len() > 0 {
        assert forall|i: int| 0 <= i < keep.skip(1).len() implies #[trigger] keep.skip(1)[i] by {
            assert(keep.skip(1)[i] == keep[i + 1]);
        }
        law_nothing_stale_keeps_all(s.skip(1), keep.skip(1));
        assert(keep[0]);
        assert(seq![s[0]] + s.skip(1) =~= s);
    }
}

/// Invalidation keeps only fresh entries: whatever it keeps was not
/// stale.
pub proof fn law_kept_are_flagged<V>(s: Seq<(Seq<char>, V)>, keep: Seq<bool>, i: int)
    requires
        keep.len() == s.len(),
        0 <= i < kept(s, keep).len(),
    ensures
        exists|j: int| 0 <= j < s.len() && keep[j] && s[j] == #[trigger] kept(s, keep)[i],
    decreases s.len(),
{
    if s.len() > 0 {
        let head = if keep[0] {
            seq![s[0]]
        } else {
            Seq::empty()
        };
        let rest = kept(s.skip(1), keep.skip(1));
        if i < head.len() {
            assert(kept(s, keep)[i] == s[0]);
        } else {
            law_kept_are_flagged(s.skip(1), keep.skip(1), i - head.len());
            let j = choose|j: int|
                0 <= j < s.skip(1).len() && keep.skip(1)[j] && s.skip(1)[j] == rest[i - head.len()];
            assert(kept(s, keep)[i] == rest[i - head.len()]);
            assert(s[j + 1] == s.skip(1)[j]);
            assert(keep[j + 1] == keep.skip(1)[j]);
        }
    }
}

/// One day, in nanoseconds.
pub open spec fn one_day_nanos() -> u128 {
    86_400_000_000_000
}

/// A cache whose entries remember when their file changed and when they
/// were cached, so that stale ones can be dropped; it is saved to and
/// loaded from `cache_path`.
#[derive(Debug)]
pub struct FileSystemCache {
    cache_path: String,
    entries: StrMap<CacheEntry>,
    max_age: u128,
}

impl FileSystemCache {
    /// The entries with their paths, in path order.
    pub closed spec fn entry_pairs(self) -> Seq<(Seq<char>, CacheEntry)> {
        self.entries.pairs()
    }

    /// The entries by path.
    pub closed spec fn entry_map(self) -> Map<Seq<char>, CacheEntry> {
        self.entries.map()
    }

    /// Where the cache is stored.
    pub closed spec fn path(self) -> Seq<char> {
        self.cache_path@
    }

    /// How long an entry stays fresh, in nanoseconds.
    pub closed spec fn max_age_spec(self) -> u128 {
        self.max_age
    }

    /// An empty cache stored at `cache_path`, whose entries stay fresh for
    /// a day.
    pub fn new(cache_path: String) -> (r: Self)
        ensures
            r.entry_pairs() == Seq::<(Seq<char>, CacheEntry)>::empty(),
            r.entry_map() == Map::<Seq<char>, CacheEntry>::empty(),
            r.path() == cache_path@,
            r.max_age_spec() == one_day_nanos(),
    {
        FileSystemCache { cache_path, entries: StrMap::new(), max_age: 86_400_000_000_000 }
    }

    /// An empty cache stored at `cache_path`, whose entries stay fresh for
    /// `max_age` nanoseconds.
    pub fn with_max_age(cache_path: String, max_age: u128) -> (r: Self)
        ensures
            r.entry_pairs() == Seq::<(Seq<char>, CacheEntry)>::empty(),
            r.entry_map() == Map::<Seq<char>, CacheEntry>::empty(),
            r.path() == cache_path@,
            r.max_age_spec() == max_age,
    {
        FileSystemCache { cache_path, entries: StrMap::new(), max_age }
    }

    /// A cache stored at `cache_path` holding `entries`, as loaded from it.
    pub fn from_entries(cache_path: String, max_age: u128, entries: StrMap<CacheEntry>) -> (r: Self)
        ensures
            r.entry_pairs() == entries.pairs(),
            r.entry_map() == entries.map(),
            r.path() == cache_path@,
            r.max_age_spec() == max_age,
    {
        FileSystemCache { cache_path, entries, max_age }
    }

    /// Where the cache is stored.
    pub fn cache_path(&self) -> (r: &str)
        ensures
            r@ == self.path(),
    {
        self.cache_path.as_str()
    }

    /// How long an entry stays fresh, in nanoseconds.
    pub fn max_age(&self) -> (r: u128)
        ensures
            r == self.max_age_spec(),
    {
        self.max_age
    }

    /// The desktop file cached under `path`.
    pub fn get(&self, path: &str) -> (r: Option<&DesktopFile>)
        ensures
            match r {
                Some(f) => self.entry_map().contains_key(path@) && *f
                    == self.entry_map()[path@].desktop_file,
                None => !self.entry_map().contains_key(path@),
            },
    {
        match self.entries.get(path) {
            Some(e) => Some(&e.desktop_file),
            None => None,
        }
    }

    /// Caches `desktop_file` under `path`, its file last modified at
    /// `last_modified`, at time `now`.
    pub fn insert(&mut self, path: String, desktop_file: DesktopFile, last_modified: u128, now: u128)
        ensures
            final(self).entry_map() == old(self).entry_map().insert(
                path@,
                CacheEntry { desktop_file, last_modified, cached_at: now },
            ),
            final(self).path() == old(self).path(),
            final(self).max_age_spec() == old(self).max_age_spec(),
    {
        let entry = CacheEntry::new(desktop_file, last_modified, now);
        self.entries.insert(path, entry);
    }

    /// Takes the file cached under `path` out of the cache.
    pub fn remove(&mut self, path: &str) -> (r: Option<DesktopFile>)
        ensures
            final(self).entry_map() == old(self).entry_map().remove(path@),
            match r {
                Some(f) => old(self).entry_map().contains_key(path@) && f == old(
                    self,
                ).entry_map()[path@].desktop_file,
                None => !old(self).entry_map().contains_key(path@),
            },
            final(self).path() == old(self).path(),
            final(self).max_age_spec() == old(self).max_age_spec(),
    {
        match self.entries.remove(path) {
            Some(e) => Some(e.desktop_file),
            None => None,
        }
    }

    /// Empties the cache.
    pub fn clear(&mut self)
        ensures
            final(self).entry_pairs() == Seq::<(Seq<char>, CacheEntry)>::empty(),
            final(self).entry_map() == Map::<Seq<char>, CacheEntry>::empty(),
            final(self).path() == old(self).path(),
            final(self).max_age_spec() == old(self).max_age_spec(),
    {
        self.entries.clear();
    }

    /// Whether nothing is cached.
    pub fn is_empty(&self) -> (r: bool)
        ensures
            r == (self.entry_pairs().len() == 0),
            r == (self.entry_map().dom().len() == 0),
    {
        self.entries.is_empty()
    }

    /// How many files are cached.
    pub fn len(&self) -> (r: usize)
        ensures
            r == self.entry_pairs().len(),
            r == self.entry_map().dom().len(),
    {
        self.entries.len()
    }

    /// The path of the `i`-th entry.
    pub fn path_at(&self, i: usize) -> (r: &String)
        requires
            i < self.entry_pairs().len(),
        ensures
            r@ == self.entry_pairs()[i as int].0,
    {
        self.entries.key_at(i)
    }

    /// The `i`-th entry.
    pub fn entry_at(&self, i: usize) -> (r: &CacheEntry)
        requires
            i < self.entry_pairs().len(),
        ensures
            *r == self.entry_pairs()[i as int].1,
    {
        self.entries.value_at(i)
    }

    /// The entries, for saving.
    pub fn entries(&self) -> (r: &StrMap<CacheEntry>)
        ensures
            r.pairs() == self.entry_pairs(),
            r.map() == self.entry_map(),
    {
        &self.entries
    }

    /// Every cached file with its path.
    pub fn iter(&self) -> (r: Vec<(&String, &DesktopFile)>)
        ensures
            r@.len() == self.entry_pairs().len(),
            forall|i: int|
                0 <= i < r@.len() ==> (#[trigger] r@[i]).0@ == self.entry_pairs()[i].0 && *r@[i].1
                    == self.entry_pairs()[i].1.desktop_file,
    {
        let mut r: Vec<(&String, &DesktopFile)> = Vec::new();
        let n = self.len();
        let mut i: usize = 0;
        while i < n
            invariant
                n == self.entry_pairs().len(),
                i <= n,
                r@.len() == i,
                forall|k: int|
                    0 <= k < i ==> (#[trigger] r@[k]).0@ == self.entry_pairs()[k].0 && *r@[k].1
                        == self.entry_pairs()[k].1.desktop_file,
            decreases n - i,
        {
            r.push((self.path_at(i), &self.entry_at(i).desktop_file));
            i = i + 1;
        }
        r
    }

    /// Whether a file met while walking the applications directories is
    /// to be read: its extension is `desktop`, and it is not cached yet
    /// unless `force` asks to read every file again.
    pub fn wants(&self, path: &str, force: bool) -> (r: bool)
        ensures
            r == (extension_spec(path@) == Some("desktop"@) && (force || !self.entry_map().contains_key(
                path@,
            ))),
    {
        let is_desktop = match extension_of(path) {
            Some(e) => str_eq(e.as_str(), "desktop"),
            None => false,
        };
        is_desktop && (force || self.get(path).is_none())
    }

    /// Whether the cache is to be built again from scratch: it is empty,
    /// or an entry is stale given the stamps of the files and the time.
    pub fn needs_rebuild(&self, stamps: &[FileStamp], now: u128) -> (r: bool)
        requires
            stamps@.len() == self.entry_pairs().len(),
        ensures
            r == (self.entry_pairs().len() == 0 || exists|i: int|
                0 <= i < stamps@.len() && #[trigger] expired_spec(
                    self.entry_pairs()[i].1,
                    stamps@[i],
                    now,
                    self.max_age_spec(),
                )),
    {
        self.needs_invalidation(stamps, now) || self.len() == 0
    }

    /// Whether some entry is stale, given what the filesystem says of each
    /// entry's file, in order, and the time now.
    pub fn needs_invalidation(&self, stamps: &[FileStamp], now: u128) -> (r: bool)
        requires
            stamps@.len() == self.entry_pairs().len(),
        ensures
            r == exists|i: int|
                0 <= i < stamps@.len() && #[trigger] expired_spec(
                    self.entry_pairs()[i].1,
                    stamps@[i],
                    now,
                    self.max_age_spec(),
                ),
    {
        let n = self.len();
        let mut i: usize = 0;
        while i < n
            invariant
                n == self.entry_pairs().len(),
                n == stamps@.len(),
                i <= n,
                forall|k: int|
                    0 <= k < i ==> !#[trigger] expired_spec(
                        self.entry_pairs()[k].1,
                        stamps@[k],
                        now,
                        self.max_age_spec(),
                    ),
            decreases n - i,
        {
            if self.entry_at(i).is_expired(stamps[i], now, self.max_age) {
                assert(expired_spec(
                    self.entry_pairs()[i as int].1,
                    stamps@[i as int],
                    now,
                    self.max_age_spec(),
                ));
                return true;
            }
            i = i + 1;
        }
        false
    }

    /// Drops the stale entries, given what the filesystem says of each
    /// entry's file, in order, and the time now; the others stay in order.
    pub fn invalidate_expired(&mut self, stamps: &[FileStamp], now: u128)
        requires
            stamps@.len() == old(self).entry_pairs().len(),
        ensures
            final(self).entry_pairs() == kept(
                old(self).entry_pairs(),
                Seq::new(
                    stamps@.len(),
                    |i: int|
                        !expired_spec(
                            old(self).entry_pairs()[i].1,
                            stamps@[i],
                            now,
                            old(self).max_age_spec(),
                        ),
                ),
            ),
            final(self).path() == old(self).path(),
            final(self).max_age_spec() == old(self).max_age_spec(),
    {
        let ghost orig = self.entry_pairs();
        let ghost keep = Seq::new(
            stamps@.len(),
            |i: int| !expired_spec(orig[i].1, stamps@[i], now, self.max_age),
        );
        let n = self.len();
        let mut i = n;
        assert(orig.take(n as int) =~= orig);
        assert(orig.skip(n as int) =~= Seq::<(Seq<char>, CacheEntry)>::empty());
        assert(orig + kept(orig.skip(n as int), keep.skip(n as int)) =~= orig);
        while i > 0
            invariant
                i <= n,
                n == orig.len(),
                n == stamps@.len(),
                keep.len() == n,
                keep == Seq::new(
                    stamps@.len(),
                    |i: int| !expired_spec(orig[i].1, stamps@[i], now, self.max_age),
                ),
                self.entry_pairs() == orig.take(i as int) + kept(orig.skip(i as int), keep.skip(i as int)),
                self.path() == old(self).path(),
                self.max_age == old(self).max_age_spec(),
            decreases i,
        {
            let j = i - 1;
            proof {
                assert(orig.skip(j as int).skip(1) =~= orig.skip(i as int));
                assert(keep.skip(j as int).skip(1) =~= keep.skip(i as int));
                assert(orig.skip(j as int)[0] == orig[j as int]);
                assert(keep.skip(j as int)[0] == keep[j as int]);
                assert(self.entry_pairs()[j as int] == orig[j as int]);
            }
            let stale = self.entries.value_at(j).is_expired(stamps[j], now, self.max_age);
            if stale {
                self.entries.remove_at(j);
                assert(self.entry_pairs() =~= orig.take(j as int) + kept(orig.skip(j as int), keep.skip(j as int)));
            } else {
                assert(self.entry_pairs() =~= orig.take(j as int) + kept(orig.skip(j as int), keep.skip(j as int)));
            }
            i = j;
        }
        assert(orig.skip(0) =~= orig);
        assert(keep.skip(0) =~= keep);
        assert(orig.take(0) + kept(orig, keep) =~= kept(orig, keep));
    }
}

} // verus!
