//! Finding the applications that can open a MIME type.
use vstd::prelude::*;
use crate::cache::MemoryCache;
use crate::desktop_parser::{opt_view, ActionView, DesktopAction, DesktopEntry, DesktopFile, EntryView};
use crate::mime_associations::{associations_for, MimeAssociations};
use crate::paths::{file_name_of, file_name_spec};
use crate::text::{
    add_unseen, add_unseen_into, chars_of, contains_string, ends_with_chars, has_suffix, no_dups,
    push_string, str_eq, string_of, to_string_of,
};

verus! {

/// An application entry, as text.
pub struct AppView {
    pub name: Seq<char>,
    pub exec_line: Seq<char>,
    pub desktop_file: Seq<char>,
    pub comment: Option<Seq<char>>,
    pub icon: Option<Seq<char>>,
    pub is_xdg: bool,
    pub xdg_priority: int,
    pub is_default: bool,
    pub action_id: Option<Seq<char>>,
}

/// An application that can be offered to open a file: a desktop entry or
/// one of its actions, with its place in the XDG associations.
#[derive(Debug, Clone)]
pub struct ApplicationEntry {
    pub name: String,
    pub exec_line: String,
    pub desktop_file: String,
    pub comment: Option<String>,
    pub icon: Option<String>,
    pub is_xdg: bool,
    pub xdg_priority: i32,
    pub is_default: bool,
    pub action_id: Option<String>,
}

impl View for ApplicationEntry {
    type V = AppView;

    open spec fn view(&self) -> AppView {
        AppView {
            name: self.name@,
            exec_line: self.exec_line@,
            desktop_file: self.desktop_file@,
            comment: opt_view(self.comment),
            icon: opt_view(self.icon),
            is_xdg: self.is_xdg,
            xdg_priority: self.xdg_priority as int,
            is_default: self.is_default,
            action_id: opt_view(self.action_id),
        }
    }
}

/// The entries of a list, by their contents.
pub open spec fn app_views(v: Seq<ApplicationEntry>) -> Seq<AppView> {
    v.map_values(|a: ApplicationEntry| a@)
}

/// The application of a desktop entry read from `path`, outside the XDG
/// associations.
pub open spec fn entry_app(e: EntryView, path: Seq<char>) -> AppView {
    AppView {
        name: e.name,
        exec_line: e.exec_line,
        desktop_file: path,
        comment: e.comment,
        icon: e.icon,
        is_xdg: false,
        xdg_priority: -1,
        is_default: false,
        action_id: None,
    }
}

/// The application of action `id` of the entry `e`: named after both,
/// with the action's command, and the action's icon or else the entry's.
pub open spec fn action_app(e: EntryView, id: Seq<char>, a: ActionView, path: Seq<char>) -> AppView {
    AppView {
        name: e.name + " - "@ + a.name,
        exec_line: a.exec_line,
        desktop_file: path,
        comment: Some("Action: "@ + a.name),
        icon: match a.icon {
            Some(i) => Some(i),
            None => e.icon,
        },
        is_xdg: false,
        xdg_priority: -1,
        is_default: false,
        action_id: Some(id),
    }
}

/// `a` marked as an XDG association of the given priority.
pub open spec fn xdg_app(a: AppView, priority: int, is_default: bool) -> AppView {
    AppView {
        name: a.name,
        exec_line: a.exec_line,
        desktop_file: a.desktop_file,
        comment: a.comment,
        icon: a.icon,
        is_xdg: true,
        xdg_priority: priority,
        is_default: is_default,
        action_id: a.action_id,
    }
}

/// `a` marked as merely available: no XDG association, priority -1.
pub open spec fn available_app(a: AppView) -> AppView {
    AppView {
        name: a.name,
        exec_line: a.exec_line,
        desktop_file: a.desktop_file,
        comment: a.comment,
        icon: a.icon,
        is_xdg: false,
        xdg_priority: -1,
        is_default: false,
        action_id: a.action_id,
    }
}

/// The copy of an optional string.
fn copy_opt(o: &Option<String>) -> (r: Option<String>)
    ensures
        opt_view(r) == opt_view(*o),
{
    match o {
        Some(s) => Some(s.clone()),
        None => None,
    }
}

impl ApplicationEntry {
    /// The application of a desktop entry.
    pub fn from_desktop_entry(entry: &DesktopEntry, desktop_file: String) -> (r: Self)
        ensures
            r@ == entry_app(entry@, desktop_file@),
    {
        ApplicationEntry {
            name: entry.name.clone(),
            exec_line: entry.exec_line.clone(),
            desktop_file,
            comment: copy_opt(&entry.comment),
            icon: copy_opt(&entry.icon),
            is_xdg: false,
            xdg_priority: -1,
            is_default: false,
            action_id: None,
        }
    }

    /// The application of an action of a desktop entry.
    pub fn from_desktop_action(
        main_entry: &DesktopEntry,
        action_id: &str,
        action: &DesktopAction,
        desktop_file: String,
    ) -> (r: Self)
        ensures
            r@ == action_app(main_entry@, action_id@, action@, desktop_file@),
    {
        let mut name = main_entry.name.clone();
        name.push_str(" - ");
        name.push_str(action.name.as_str());
        let mut comment = String::new();
        comment.push_str("Action: ");
        comment.push_str(action.name.as_str());
        let icon = match &action.icon {
            Some(i) => Some(i.clone()),
            None => copy_opt(&main_entry.icon),
        };
        let id = string_of(chars_of(action_id).as_slice());
        ApplicationEntry {
            name,
            exec_line: action.exec_line.clone(),
            desktop_file,
            comment: Some(comment),
            icon,
            is_xdg: false,
            xdg_priority: -1,
            is_default: false,
            action_id: Some(id),
        }
    }

    /// This application as an XDG association of the given priority.
    pub fn with_xdg(self, priority: i32, is_default: bool) -> (r: Self)
        ensures
            r@ == xdg_app(self@, priority as int, is_default),
    {
        let mut a = self;
        a.is_xdg = true;
        a.xdg_priority = priority;
        a.is_default = is_default;
        a
    }

    /// This application with its association flags cleared.
    pub fn as_available(self) -> (r: Self)
        ensures
            r@ == available_app(self@),
    {
        let mut a = self;
        a.is_xdg = false;
        a.xdg_priority = -1;
        a.is_default = false;
        a
    }
}

// ---------------------------------------------------------------------
// Desktop ids and lookup
// ---------------------------------------------------------------------

/// The desktop id of a file: the file name of its path, or nothing.
pub open spec fn desktop_id(path: Seq<char>) -> Seq<char> {
    match file_name_spec(path) {
        Some(n) => n,
        None => Seq::empty(),
    }
}

/// Whether the file name of `path` is `id`.
pub open spec fn name_is(path: Seq<char>, id: Seq<char>) -> bool {
    file_name_spec(path) == Some(id)
}

/// The first `k < n` for which `p` holds.
pub open spec fn first_where(n: int, p: spec_fn(int) -> bool) -> Option<int>
    decreases n,
{
    if n <= 0 {
        None
    } else {
        match first_where(n - 1, p) {
            Some(k) => Some(k),
            None => if p(n - 1) {
                Some(n - 1)
            } else {
                None
            },
        }
    }
}

pub proof fn lemma_first_where_stable(m: int, n: int, p: spec_fn(int) -> bool)
    requires
        0 <= m <= n,
        first_where(m, p) is Some,
    ensures
        first_where(n, p) == first_where(m, p),
    decreases n - m,
{
    if n > m {
        lemma_first_where_stable(m, n - 1, p);
    }
}

pub proof fn lemma_first_where_bounds(n: int, p: spec_fn(int) -> bool)
    ensures
        first_where(n, p) is Some ==> 0 <= first_where(n, p)->0 < n && p(first_where(n, p)->0),
        first_where(n, p) is None ==> forall|j: int| 0 <= j < n ==> !#[trigger] p(j),
    decreases n,
{
    if n > 0 {
        lemma_first_where_bounds(n - 1, p);
    }
}

/// The first index found is the least one where `p` holds.
pub proof fn lemma_first_where_least(n: int, p: spec_fn(int) -> bool)
    ensures
        first_where(n, p) is Some ==> forall|i: int| 0 <= i < first_where(n, p)->0 ==> !#[trigger] p(i),
    decreases n,
{
    if n > 0 {
        lemma_first_where_least(n - 1, p);
        lemma_first_where_bounds(n - 1, p);
    }
}

/// The paths of the cached files.
pub open spec fn paths_of(files: Seq<(Seq<char>, DesktopFile)>) -> Seq<Seq<char>> {
    files.map_values(|f: (Seq<char>, DesktopFile)| f.0)
}

/// The file name of path `k` is `id`.
pub open spec fn name_at(paths: Seq<Seq<char>>, id: Seq<char>) -> spec_fn(int) -> bool {
    |k: int| name_is(paths[k], id)
}

/// Path `k` ends with `id`.
pub open spec fn suffix_at(paths: Seq<Seq<char>>, id: Seq<char>) -> spec_fn(int) -> bool {
    |k: int| has_suffix(paths[k], id)
}

/// A desktop id designates a file whose file name is exactly the id when
/// there is one: the first such path, before any path that merely ends
/// with the id (`gvim.desktop` is never taken for `vim.desktop` while a
/// `vim.desktop` is cached). Only when no file name is the id does the
/// first path ending with the id count, and with neither there is none.
pub proof fn law_exact_file_name_first(paths: Seq<Seq<char>>, id: Seq<char>)
    ensures
        (exists|k: int| 0 <= k < paths.len() && file_name_spec(#[trigger] paths[k]) == Some(id)) ==> {
            &&& find_index_spec(paths, id) is Some
            &&& 0 <= find_index_spec(paths, id)->0 < paths.len()
            &&& file_name_spec(paths[find_index_spec(paths, id)->0]) == Some(id)
            &&& forall|i: int|
                0 <= i < find_index_spec(paths, id)->0 ==> file_name_spec(#[trigger] paths[i]) != Some(
                    id,
                )
        },
        (forall|k: int| 0 <= k < paths.len() ==> file_name_spec(#[trigger] paths[k]) != Some(id)) ==> {
            &&& (exists|k: int| 0 <= k < paths.len() && has_suffix(#[trigger] paths[k], id)) ==> {
                &&& find_index_spec(paths, id) is Some
                &&& 0 <= find_index_spec(paths, id)->0 < paths.len()
                &&& has_suffix(paths[find_index_spec(paths, id)->0], id)
                &&& forall|i: int|
                    0 <= i < find_index_spec(paths, id)->0 ==> !has_suffix(#[trigger] paths[i], id)
            }
            &&& (forall|k: int| 0 <= k < paths.len() ==> !has_suffix(#[trigger] paths[k], id))
                ==> find_index_spec(paths, id) is None
        },
{
    let n = paths.len() as int;
    let pn = name_at(paths, id);
    let ps = suffix_at(paths, id);
    lemma_first_where_bounds(n, pn);
    lemma_first_where_least(n, pn);
    lemma_first_where_bounds(n, ps);
    lemma_first_where_least(n, ps);
    if exists|k: int| 0 <= k < paths.len() && file_name_spec(#[trigger] paths[k]) == Some(id) {
        let k = choose|k: int| 0 <= k < paths.len() && file_name_spec(#[trigger] paths[k]) == Some(id);
        assert(pn(k));
        let j = first_where(n, pn)->0;
        assert forall|i: int| 0 <= i < j implies file_name_spec(#[trigger] paths[i]) != Some(id) by {
            assert(!pn(i));
        }
    }
    if forall|k: int| 0 <= k < paths.len() ==> file_name_spec(#[trigger] paths[k]) != Some(id) {
        if first_where(n, pn) is Some {
            let j = first_where(n, pn)->0;
            assert(pn(j));
            assert(file_name_spec(paths[j]) != Some(id));
        }
        if exists|k: int| 0 <= k < paths.len() && has_suffix(#[trigger] paths[k], id) {
            let k = choose|k: int| 0 <= k < paths.len() && has_suffix(#[trigger] paths[k], id);
            assert(ps(k));
            let j = first_where(n, ps)->0;
            assert forall|i: int| 0 <= i < j implies !has_suffix(#[trigger] paths[i], id) by {
                assert(!ps(i));
            }
        }
        if forall|k: int| 0 <= k < paths.len() ==> !has_suffix(#[trigger] paths[k], id) {
            if first_where(n, ps) is Some {
                let j = first_where(n, ps)->0;
                assert(ps(j));
            }
        }
    }
}

/// The file that desktop id `id` designates: the first whose file name is
/// `id`, or else the first whose path ends with `id`.
pub open spec fn find_index_spec(paths: Seq<Seq<char>>, id: Seq<char>) -> Option<int> {
    match first_where(paths.len() as int, name_at(paths, id)) {
        Some(k) => Some(k),
        None => first_where(paths.len() as int, suffix_at(paths, id)),
    }
}

/// The desktop id of a path.
pub fn desktop_id_of(path: &str) -> (r: String)
    ensures
        r@ == desktop_id(path@),
{
    match file_name_of(path) {
        Some(n) => n,
        None => String::new(),
    }
}

// ---------------------------------------------------------------------
// Applications for a MIME type
// ---------------------------------------------------------------------

/// The priority of the `p`-th association, capped at `i32::MAX`.
pub open spec fn priority_of(p: int) -> int {
    if p <= i32::MAX {
        p
    } else {
        i32::MAX as int
    }
}

/// `a` flagged as an association of priority `xdg` when there is one, or as
/// merely available otherwise.
pub open spec fn flagged(a: AppView, xdg: Option<int>, is_default: bool) -> AppView {
    match xdg {
        Some(p) => xdg_app(a, p, is_default),
        None => available_app(a),
    }
}

/// The applications of the actions `acts` of entry `e`.
pub open spec fn action_apps(
    e: EntryView,
    acts: Seq<(Seq<char>, DesktopAction)>,
    path: Seq<char>,
    xdg: Option<int>,
) -> Seq<AppView> {
    Seq::new(acts.len(), |k: int| flagged(action_app(e, acts[k].0, acts[k].1@, path), xdg, false))
}

/// The applications that one desktop file contributes: its entry, then,
/// when actions are included, each action in id order.
pub open spec fn file_apps(
    e: EntryView,
    f: DesktopFile,
    path: Seq<char>,
    include_actions: bool,
    xdg: Option<int>,
    is_default: bool,
) -> Seq<AppView> {
    seq![flagged(entry_app(e, path), xdg, is_default)] + if include_actions {
        action_apps(e, f.actions.pairs(), path, xdg)
    } else {
        Seq::empty()
    }
}

/// The applications found and the desktop ids seen after the first
/// `ids.len()` XDG associations: each association, the first time its id
/// is seen, contributes the file it designates, with its position as
/// priority and the first one as default.
pub open spec fn xdg_phase(
    files: Seq<(Seq<char>, DesktopFile)>,
    ids: Seq<Seq<char>>,
    include_actions: bool,
) -> (Seq<AppView>, Seq<Seq<char>>)
    decreases ids.len(),
{
    if ids.len() == 0 {
        (Seq::empty(), Seq::empty())
    } else {
        let prev = xdg_phase(files, ids.drop_last(), include_actions);
        let p = ids.len() - 1;
        let id = ids.last();
        match find_index_spec(paths_of(files), id) {
            None => prev,
            Some(k) => if prev.1.contains(id) {
                prev
            } else {
                let seen = prev.1.push(id);
                match files[k].1.main_entry {
                    None => (prev.0, seen),
                    Some(e) => (
                        prev.0 + file_apps(
                            e@,
                            files[k].1,
                            files[k].0,
                            include_actions,
                            Some(priority_of(p)),
                            p == 0,
                        ),
                        seen,
                    ),
                }
            },
        }
    }
}

/// After the associations, the first `n` cached files in order: each whose
/// entry lists `mime` and whose desktop id was not seen yet contributes
/// its applications, marked as merely available.
pub open spec fn other_phase(
    files: Seq<(Seq<char>, DesktopFile)>,
    mime: Seq<char>,
    n: int,
    start: (Seq<AppView>, Seq<Seq<char>>),
    include_actions: bool,
) -> (Seq<AppView>, Seq<Seq<char>>)
    decreases n,
{
    if n <= 0 {
        start
    } else {
        let prev = other_phase(files, mime, n - 1, start, include_actions);
        let path = files[n - 1].0;
        let f = files[n - 1].1;
        match f.main_entry {
            None => prev,
            Some(e) => if e@.mime_types.contains(mime) && !prev.1.contains(desktop_id(path)) {
                (
                    prev.0 + file_apps(e@, f, path, include_actions, None, false),
                    prev.1.push(desktop_id(path)),
                )
            } else {
                prev
            },
        }
    }
}

/// The applications for `mime`: first those of its XDG associations `ids`,
/// then the other cached files that list it, each desktop id once.
pub open spec fn apps_for_mime(
    files: Seq<(Seq<char>, DesktopFile)>,
    ids: Seq<Seq<char>>,
    mime: Seq<char>,
    include_actions: bool,
) -> Seq<AppView> {
    other_phase(
        files,
        mime,
        files.len() as int,
        xdg_phase(files, ids, include_actions),
        include_actions,
    ).0
}

proof fn lemma_other_phase_available(
    files: Seq<(Seq<char>, DesktopFile)>,
    mime: Seq<char>,
    n: int,
    include_actions: bool,
)
    ensures
        forall|i: int|
            0 <= i < other_phase(files, mime, n, (Seq::empty(), Seq::empty()), include_actions).0.len()
                ==> !(#[trigger] other_phase(files, mime, n, (Seq::empty(), Seq::empty()), include_actions).0[i]).is_xdg
                && other_phase(files, mime, n, (Seq::empty(), Seq::empty()), include_actions).0[i].xdg_priority == -1,
    decreases n,
{
    if n > 0 {
        lemma_other_phase_available(files, mime, n - 1, include_actions);
        let start: (Seq<AppView>, Seq<Seq<char>>) = (Seq::empty(), Seq::empty());
        let prev = other_phase(files, mime, n - 1, start, include_actions);
        let path = files[n - 1].0;
        let f = files[n - 1].1;
        match f.main_entry {
            None => {},
            Some(e) => {
                if e@.mime_types.contains(mime) && !prev.1.contains(desktop_id(path)) {
                    let block = file_apps(e@, f, path, include_actions, None, false);
                    let cur = prev.0 + block;
                    assert forall|i: int| 0 <= i < cur.len() implies !(#[trigger] cur[i]).is_xdg && cur[i].xdg_priority
                        == -1 by {
                        if i >= prev.0.len() {
                            let k = i - prev.0.len();
                            assert(cur[i] == block[k]);
                            if k > 0 {
                                assert(block[k] == action_apps(e@, f.actions.pairs(), path, None)[k - 1]);
                            }
                        } else {
                            assert(cur[i] == prev.0[i]);
                        }
                    }
                }
            },
        }
    }
}

/// Without XDG associations every application found is merely available:
/// none is marked as associated, and none has a priority.
pub proof fn law_no_associations_none_xdg(
    files: Seq<(Seq<char>, DesktopFile)>,
    mime: Seq<char>,
    include_actions: bool,
)
    ensures
        forall|i: int|
            0 <= i < apps_for_mime(files, Seq::empty(), mime, include_actions).len() ==> !(
            #[trigger] apps_for_mime(files, Seq::empty(), mime, include_actions)[i]).is_xdg
                && apps_for_mime(files, Seq::empty(), mime, include_actions)[i].xdg_priority == -1,
{
    assert(xdg_phase(files, Seq::<Seq<char>>::empty(), include_actions) == (
        Seq::<AppView>::empty(),
        Seq::<Seq<char>>::empty(),
    ));
    lemma_other_phase_available(files, mime, files.len() as int, include_actions);
}

proof fn lemma_xdg_phase_prefix(files: Seq<(Seq<char>, DesktopFile)>, ids: Seq<Seq<char>>, i: int, include_actions: bool)
    requires
        0 <= i <= ids.len(),
    ensures
        xdg_phase(files, ids, include_actions).0.len() >= xdg_phase(files, ids.take(i), include_actions).0.len(),
        xdg_phase(files, ids, include_actions).0.take(
            xdg_phase(files, ids.take(i), include_actions).0.len() as int,
        ) == xdg_phase(files, ids.take(i), include_actions).0,
    decreases ids.len(),
{
    let small = xdg_phase(files, ids.take(i), include_actions).0;
    if i == ids.len() {
        assert(ids.take(i) =~= ids);
        assert(small.take(small.len() as int) =~= small);
    } else {
        let t = ids.drop_last();
        assert(t.take(i) =~= ids.take(i));
        lemma_xdg_phase_prefix(files, t, i, include_actions);
        let prev = xdg_phase(files, t, include_actions).0;
        let cur = xdg_phase(files, ids, include_actions).0;
        assert(prev.take(small.len() as int) == small);
        assert(cur.len() >= prev.len());
        assert(cur.take(prev.len() as int) =~= prev);
        assert(cur.take(small.len() as int) =~= prev.take(small.len() as int));
    }
}

proof fn lemma_other_phase_prefix(
    files: Seq<(Seq<char>, DesktopFile)>,
    mime: Seq<char>,
    n: int,
    start: (Seq<AppView>, Seq<Seq<char>>),
    include_actions: bool,
)
    ensures
        other_phase(files, mime, n, start, include_actions).0.len() >= start.0.len(),
        other_phase(files, mime, n, start, include_actions).0.take(start.0.len() as int) == start.0,
    decreases n,
{
    if n <= 0 {
        assert(start.0.take(start.0.len() as int) =~= start.0);
    } else {
        lemma_other_phase_prefix(files, mime, n - 1, start, include_actions);
        let prev = other_phase(files, mime, n - 1, start, include_actions).0;
        let cur = other_phase(files, mime, n, start, include_actions).0;
        assert(cur.take(prev.len() as int) =~= prev);
        assert(cur.take(start.0.len() as int) =~= prev.take(start.0.len() as int));
    }
}

/// When the first XDG association of a MIME type names a cached file with
/// an entry, that entry is the first application offered, marked as the
/// default with priority 0.
pub proof fn law_first_association_is_default(
    files: Seq<(Seq<char>, DesktopFile)>,
    ids: Seq<Seq<char>>,
    mime: Seq<char>,
    include_actions: bool,
    k: int,
)
    requires
        ids.len() > 0,
        find_index_spec(paths_of(files), ids[0]) == Some(k),
        files[k].1.main_entry is Some,
    ensures
        apps_for_mime(files, ids, mime, include_actions).len() > 0,
        apps_for_mime(files, ids, mime, include_actions)[0] == xdg_app(
            entry_app(files[k].1.main_entry->0@, files[k].0),
            0,
            true,
        ),
{
    let first = ids.take(1);
    assert(first.drop_last() =~= Seq::<Seq<char>>::empty());
    assert(first.last() == ids[0]);
    assert(xdg_phase(files, Seq::<Seq<char>>::empty(), include_actions).1 =~= Seq::<Seq<char>>::empty());
    let p1 = xdg_phase(files, first, include_actions).0;
    assert(p1.len() > 0);
    assert(p1[0] == xdg_app(entry_app(files[k].1.main_entry->0@, files[k].0), 0, true));
    lemma_xdg_phase_prefix(files, ids, 1, include_actions);
    let start = xdg_phase(files, ids, include_actions);
    lemma_other_phase_prefix(files, mime, files.len() as int, start, include_actions);
    let all = apps_for_mime(files, ids, mime, include_actions);
    assert(all.take(start.0.len() as int)[0] == all[0]);
    assert(start.0.take(p1.len() as int)[0] == start.0[0]);
}

/// The applications of the cached files whose entry is in the category
/// `TerminalEmulator`, in cache order, each outside the associations.
pub open spec fn terminal_apps(files: Seq<(Seq<char>, DesktopFile)>) -> Seq<AppView>
    decreases files.len(),
{
    if files.len() == 0 {
        Seq::empty()
    } else {
        let prev = terminal_apps(files.drop_last());
        match files.last().1.main_entry {
            Some(e) => if e@.categories.contains("TerminalEmulator"@) {
                prev.push(entry_app(e@, files.last().0))
            } else {
                prev
            },
            None => prev,
        }
    }
}

/// The MIME types that the cached entries list, in cache order, each once.
pub open spec fn mime_types_of(files: Seq<(Seq<char>, DesktopFile)>) -> Seq<Seq<char>>
    decreases files.len(),
{
    if files.len() == 0 {
        Seq::empty()
    } else {
        let prev = mime_types_of(files.drop_last());
        match files.last().1.main_entry {
            Some(e) => add_unseen(prev, e@.mime_types),
            None => prev,
        }
    }
}

/// Whether an application read from `path` runs in a terminal: the first
/// cached file of that path has an entry marked `Terminal=true`.
pub open spec fn terminal_flag(files: Seq<(Seq<char>, DesktopFile)>, path: Seq<char>) -> bool {
    match first_where(files.len() as int, |i: int| files[i].0 == path) {
        Some(k) => match files[k].1.main_entry {
            Some(e) => e@.terminal,
            None => false,
        },
        None => false,
    }
}

/// Finds the applications for a MIME type among cached desktop files and
/// the XDG associations.
#[derive(Debug)]
pub struct ApplicationFinder {
    desktop_cache: MemoryCache,
    mime_associations: MimeAssociations,
}

impl ApplicationFinder {
    /// The cached desktop files.
    pub closed spec fn files(self) -> Seq<(Seq<char>, DesktopFile)> {
        self.desktop_cache.files()
    }

    /// The associations consulted.
    pub closed spec fn associations(self) -> MimeAssociations {
        self.mime_associations
    }

    /// A finder over these files and associations.
    pub fn new(desktop_cache: MemoryCache, mime_associations: MimeAssociations) -> (r: Self)
        ensures
            r.files() == desktop_cache.files(),
            r.associations() == mime_associations,
    {
        ApplicationFinder { desktop_cache, mime_associations }
    }

    /// The cache this finder reads.
    pub fn desktop_cache(&self) -> (r: &MemoryCache)
        ensures
            r.files() == self.files(),
    {
        &self.desktop_cache
    }

    /// Where in the cache the file of desktop id `desktop_id` is.
    fn find_index(&self, desktop_id: &str) -> (r: Option<usize>)
        ensures
            match find_index_spec(paths_of(self.files()), desktop_id@) {
                Some(k) => r is Some && r->0 == k,
                None => r is None,
            },
            r is Some ==> r->0 < self.files().len(),
    {
        let ghost paths = paths_of(self.files());
        let n = self.desktop_cache.len();
        let id_chars = chars_of(desktop_id);
        let mut i: usize = 0;
        while i < n
            invariant
                n == self.files().len(),
                paths == paths_of(self.files()),
                i <= n,
                id_chars@ == desktop_id@,
                first_where(i as int, name_at(paths, desktop_id@)) is None,
            decreases n - i,
        {
            let path = self.desktop_cache.path_at(i);
            let matched = match file_name_of(path.as_str()) {
                Some(name) => str_eq(name.as_str(), desktop_id),
                None => false,
            };
            if matched {
                proof {
                    assert(name_at(paths, desktop_id@)(i as int));
                    lemma_first_where_stable(i + 1, n as int, name_at(paths, desktop_id@));
                }
                return Some(i);
            }
            proof {
                assert(!name_at(paths, desktop_id@)(i as int));
            }
            i = i + 1;
        }
        let mut i: usize = 0;
        while i < n
            invariant
                n == self.files().len(),
                paths == paths_of(self.files()),
                i <= n,
                id_chars@ == desktop_id@,
                first_where(n as int, name_at(paths, desktop_id@)) is None,
                first_where(i as int, suffix_at(paths, desktop_id@)) is None,
            decreases n - i,
        {
            let path = self.desktop_cache.path_at(i);
            let pc = chars_of(path.as_str());
            if ends_with_chars(pc.as_slice(), id_chars.as_slice()) {
                proof {
                    assert(suffix_at(paths, desktop_id@)(i as int));
                    lemma_first_where_stable(i + 1, n as int, suffix_at(paths, desktop_id@));
                }
                return Some(i);
            }
            proof {
                assert(!suffix_at(paths, desktop_id@)(i as int));
            }
            i = i + 1;
        }
        None
    }

    /// Whether `app` runs in a terminal: the cached file it was read from
    /// has an entry marked `Terminal=true`.
    pub fn requires_terminal(&self, app: &ApplicationEntry) -> (r: bool)
        ensures
            r == terminal_flag(self.files(), app.desktop_file@),
    {
        let ghost files = self.files();
        let ghost pred = |i: int| files[i].0 == app.desktop_file@;
        let n = self.desktop_cache.len();
        let mut i: usize = 0;
        while i < n
            invariant
                files == self.files(),
                n == files.len(),
                i <= n,
                pred == (|i: int| files[i].0 == app.desktop_file@),
                first_where(i as int, pred) is None,
            decreases n - i,
        {
            let path = self.desktop_cache.path_at(i);
            if str_eq(path.as_str(), app.desktop_file.as_str()) {
                proof {
                    assert(pred(i as int));
                    lemma_first_where_stable(i + 1, n as int, pred);
                }
                let file = self.desktop_cache.file_at(i);
                return match &file.main_entry {
                    Some(e) => e.terminal,
                    None => false,
                };
            }
            assert(!pred(i as int));
            i = i + 1;
        }
        false
    }

    /// The applications whose entry is in the category `TerminalEmulator`,
    /// in cache order.
    pub fn find_terminal_emulators(&self) -> (r: Vec<ApplicationEntry>)
        ensures
            app_views(r@) == terminal_apps(self.files()),
    {
        let ghost files = self.files();
        let n = self.desktop_cache.len();
        let category = to_string_of("TerminalEmulator");
        let mut apps: Vec<ApplicationEntry> = Vec::new();
        let mut i: usize = 0;
        assert(files.take(0) =~= Seq::<(Seq<char>, DesktopFile)>::empty());
        assert(app_views(apps@) =~= Seq::<AppView>::empty());
        while i < n
            invariant
                files == self.files(),
                n == files.len(),
                i <= n,
                category@ == "TerminalEmulator"@,
                app_views(apps@) == terminal_apps(files.take(i as int)),
            decreases n - i,
        {
            let path = self.desktop_cache.path_at(i);
            let file = self.desktop_cache.file_at(i);
            assert(files.take(i + 1).drop_last() =~= files.take(i as int));
            assert(files.take(i + 1).last() == files[i as int]);
            match &file.main_entry {
                Some(e) => {
                    if contains_string(&e.categories, &category) {
                        let ghost before = apps@;
                        apps.push(ApplicationEntry::from_desktop_entry(e, path.clone()));
                        assert(app_views(apps@) =~= app_views(before).push(apps@.last()@));
                    }
                },
                None => {},
            }
            i = i + 1;
        }
        assert(files.take(n as int) =~= files);
        apps
    }

    /// The MIME types that the cached entries list, in cache order, each
    /// once.
    pub fn all_mime_types(&self) -> (r: Vec<String>)
        ensures
            r.deep_view() == mime_types_of(self.files()),
            no_dups(r.deep_view()),
    {
        let ghost files = self.files();
        let n = self.desktop_cache.len();
        let mut types: Vec<String> = Vec::new();
        let mut i: usize = 0;
        assert(files.take(0) =~= Seq::<(Seq<char>, DesktopFile)>::empty());
        assert(types.deep_view() =~= Seq::<Seq<char>>::empty());
        while i < n
            invariant
                files == self.files(),
                n == files.len(),
                i <= n,
                types.deep_view() == mime_types_of(files.take(i as int)),
                no_dups(types.deep_view()),
            decreases n - i,
        {
            let file = self.desktop_cache.file_at(i);
            assert(files.take(i + 1).drop_last() =~= files.take(i as int));
            assert(files.take(i + 1).last() == files[i as int]);
            match &file.main_entry {
                Some(e) => {
                    add_unseen_into(&mut types, &e.mime_types);
                },
                None => {},
            }
            i = i + 1;
        }
        assert(files.take(n as int) =~= files);
        types
    }

    /// The cached file of desktop id `desktop_id`, with its path: the first
    /// whose file name is the id, or else the first whose path ends with it.
    pub fn find_desktop_file(&self, desktop_id: &str) -> (r: Option<(&String, &DesktopFile)>)
        ensures
            match find_index_spec(paths_of(self.files()), desktop_id@) {
                Some(k) => r is Some && (r->0).0@ == self.files()[k].0 && *(r->0).1
                    == self.files()[k].1,
                None => r is None,
            },
    {
        match self.find_index(desktop_id) {
            Some(i) => {
                proof {
                    let paths = paths_of(self.files());
                    assert(paths.len() == self.files().len());
                    lemma_first_where_bounds(paths.len() as int, name_at(paths, desktop_id@));
                    lemma_first_where_bounds(paths.len() as int, suffix_at(paths, desktop_id@));
                    assert(find_index_spec(paths, desktop_id@) is Some);
                    let k = find_index_spec(paths, desktop_id@)->0;
                    if first_where(paths.len() as int, name_at(paths, desktop_id@)) is Some {
                        assert(k == first_where(paths.len() as int, name_at(paths, desktop_id@))->0);
                    } else {
                        assert(k == first_where(paths.len() as int, suffix_at(paths, desktop_id@))->0);
                    }
                    assert(0 <= k < self.files().len());
                    assert(i as int == k);
                }
                Some((self.desktop_cache.path_at(i), self.desktop_cache.file_at(i)))
            },
            None => None,
        }
    }
    /// The applications that can open `mime_type`: first those of its XDG
    /// associations, in order of preference, the first one as default;
    /// then the other cached files whose entry lists the type, marked as
    /// merely available. Each desktop id contributes once, and with
    /// `include_actions` each entry is followed by its actions.
    pub fn find_for_mime(&self, mime_type: &str, include_actions: bool) -> (r: Vec<ApplicationEntry>)
        ensures
            app_views(r@) == apps_for_mime(
                self.files(),
                associations_for(
                    self.associations().assoc_pairs(),
                    self.associations().assoc(),
                    mime_type@,
                ),
                mime_type@,
                include_actions,
            ),
    {
        let ghost files = self.files();
        let ids = self.mime_associations.get_associations(mime_type);
        let ghost idv = ids.deep_view();
        let mut apps: Vec<ApplicationEntry> = Vec::new();
        let mut seen: Vec<String> = Vec::new();
        proof {
            assert(app_views(apps@) =~= Seq::<AppView>::empty());
            assert(seen.deep_view() =~= Seq::<Seq<char>>::empty());
            assert(idv.take(0) =~= Seq::<Seq<char>>::empty());
        }
        let mut i: usize = 0;
        while i < ids.len()
            invariant
                files == self.files(),
                idv == ids.deep_view(),
                i <= ids@.len(),
                (app_views(apps@), seen.deep_view()) == xdg_phase(
                    files,
                    idv.take(i as int),
                    include_actions,
                ),
            decreases ids@.len() - i,
        {
            let id = &ids[i];
            proof {
                assert(idv.take(i + 1).drop_last() =~= idv.take(i as int));
                assert(idv.take(i + 1).last() == id@);
            }
            match self.find_index(id.as_str()) {
                None => {},
                Some(k) => {
                    if !contains_string(&seen, id) {
                        push_string(&mut seen, id.clone());
                        let file = self.desktop_cache.file_at(k);
                        match &file.main_entry {
                            Some(e) => {
                                let path = self.desktop_cache.path_at(k);
                                let prio: i32 = if i <= 2147483647 {
                                    i as i32
                                } else {
                                    i32::MAX
                                };
                                push_file_apps(&mut apps, e, file, path, include_actions, Some(prio), i == 0);
                            },
                            None => {},
                        }
                    }
                },
            }
            i = i + 1;
        }
        proof {
            assert(idv.take(ids@.len() as int) =~= idv);
        }
        let mime = string_of(chars_of(mime_type).as_slice());
        let n = self.desktop_cache.len();
        let ghost start = xdg_phase(files, idv, include_actions);
        let mut j: usize = 0;
        while j < n
            invariant
                files == self.files(),
                n == files.len(),
                j <= n,
                mime@ == mime_type@,
                (app_views(apps@), seen.deep_view()) == other_phase(
                    files,
                    mime_type@,
                    j as int,
                    start,
                    include_actions,
                ),
            decreases n - j,
        {
            let file = self.desktop_cache.file_at(j);
            let path = self.desktop_cache.path_at(j);
            match &file.main_entry {
                Some(e) => {
                    if contains_string(&e.mime_types, &mime) {
                        let id = desktop_id_of(path.as_str());
                        if !contains_string(&seen, &id) {
                            push_string(&mut seen, id);
                            push_file_apps(&mut apps, e, file, path, include_actions, None, false);
                        }
                    }
                },
                None => {},
            }
            j = j + 1;
        }
        apps
    }
}

/// The priority of an optional `i32`, as an integer.
pub open spec fn opt_int(o: Option<i32>) -> Option<int> {
    match o {
        Some(p) => Some(p as int),
        None => None,
    }
}

/// Appends the applications that one desktop file contributes.
fn push_file_apps(
    apps: &mut Vec<ApplicationEntry>,
    entry: &DesktopEntry,
    file: &DesktopFile,
    path: &String,
    include_actions: bool,
    xdg: Option<i32>,
    is_default: bool,
)
    ensures
        app_views(final(apps)@) == app_views(old(apps)@) + file_apps(
            entry@,
            *file,
            path@,
            include_actions,
            opt_int(xdg),
            is_default,
        ),
{
    let ghost start = app_views(apps@);
    let a = ApplicationEntry::from_desktop_entry(entry, path.clone());
    let a = match xdg {
        Some(p) => a.with_xdg(p, is_default),
        None => a.as_available(),
    };
    apps.push(a);
    let ghost head = start + seq![flagged(entry_app(entry@, path@), opt_int(xdg), is_default)];
    assert(app_views(apps@) =~= head);
    let ghost acts = action_apps(entry@, file.actions.pairs(), path@, opt_int(xdg));
    if include_actions {
        let n = file.actions.len();
        let mut k: usize = 0;
        assert(acts.take(0) =~= Seq::<AppView>::empty());
        assert(head + acts.take(0) =~= head);
        while k < n
            invariant
                n == file.actions.pairs().len(),
                n == acts.len(),
                acts == action_apps(entry@, file.actions.pairs(), path@, opt_int(xdg)),
                k <= n,
                app_views(apps@) == head + acts.take(k as int),
            decreases n - k,
        {
            let act_id = file.actions.key_at(k);
            let act = file.actions.value_at(k);
            let b = ApplicationEntry::from_desktop_action(entry, act_id.as_str(), act, path.clone());
            let b = match xdg {
                Some(p) => b.with_xdg(p, false),
                None => b.as_available(),
            };
            let ghost before = apps@;
            apps.push(b);
            assert(acts.take(k + 1) =~= acts.take(k as int).push(acts[k as int]));
            assert(app_views(apps@) =~= app_views(before).push(b@));
            k = k + 1;
        }
        assert(acts.take(n as int) =~= acts);
    } else {
        assert(head + Seq::<AppView>::empty() =~= head);
    }
}

} // verus!
