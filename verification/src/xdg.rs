//! Where XDG desktop files and `mimeapps.list` files are looked for.
use vstd::prelude::*;
use crate::paths::{path_key, path_key_of};
use crate::text::{
    chars_of, contains_string, push_string, split_char, split_on, string_of,
    to_string_of,
};

verus! {

/// The lower-case form of `s`, as `str::to_lowercase` gives it.
pub uninterp spec fn unicode_lower(s: Seq<char>) -> Seq<char>;

/// `str::to_lowercase`: the Unicode lower-case form of `s`, named by
/// `unicode_lower`.
#[verifier::external_body]
fn to_lowercase_of(s: &str) -> (r: String)
    ensures
        r@ == unicode_lower(s@),
{
    s.to_lowercase()
}

/// The non-empty pieces among `parts`, in order.
pub open spec fn nonempty_parts(parts: Seq<Seq<char>>) -> Seq<Seq<char>>
    decreases parts.len(),
{
    if parts.len() == 0 {
        Seq::empty()
    } else if parts.last().len() == 0 {
        nonempty_parts(parts.drop_last())
    } else {
        nonempty_parts(parts.drop_last()).push(parts.last())
    }
}

/// The non-empty pieces of `s` between colons.
pub open spec fn colon_list(s: Seq<char>) -> Seq<Seq<char>> {
    nonempty_parts(split_char(s, ':'))
}

/// The non-empty pieces of `s` between colons.
pub fn colon_list_of(s: &str) -> (r: Vec<String>)
    ensures
        r.deep_view() == colon_list(s@),
{
    let parts = split_on(chars_of(s).as_slice(), ':');
    let ghost pv = parts.deep_view();
    let mut r: Vec<String> = Vec::new();
    let mut i: usize = 0;
    assert(pv.take(0) =~= Seq::<Seq<char>>::empty());
    assert(r.deep_view() =~= Seq::<Seq<char>>::empty());
    while i < parts.len()
        invariant
            pv == parts.deep_view(),
            i <= parts@.len(),
            r.deep_view() == nonempty_parts(pv.take(i as int)),
        decreases parts@.len() - i,
    {
        proof {
            assert(pv.take(i + 1).drop_last() =~= pv.take(i as int));
            assert(pv.take(i + 1).last() == parts@[i as int]@);
        }
        if parts[i].len() > 0 {
            push_string(&mut r, string_of(parts[i].as_slice()));
        }
        i = i + 1;
    }
    assert(pv.take(parts@.len() as int) =~= pv);
    r
}

/// The desktop environments named in `XDG_CURRENT_DESKTOP`, lower-cased.
pub open spec fn desktop_names_spec(value: Seq<char>) -> Seq<Seq<char>> {
    colon_list(value).map_values(|n: Seq<char>| unicode_lower(n))
}

/// The desktop environments that the value of `XDG_CURRENT_DESKTOP`
/// names: the non-empty pieces between colons, lower-cased.
pub fn desktop_environment_names(value: &str) -> (r: Vec<String>)
    ensures
        r.deep_view() == desktop_names_spec(value@),
{
    let names = colon_list_of(value);
    let mut r: Vec<String> = Vec::new();
    let mut i: usize = 0;
    while i < names.len()
        invariant
            i <= names@.len(),
            names.deep_view() == colon_list(value@),
            r.deep_view() == colon_list(value@).take(i as int).map_values(
                |n: Seq<char>| unicode_lower(n),
            ),
        decreases names@.len() - i,
    {
        push_string(&mut r, to_lowercase_of(names[i].as_str()));
        i = i + 1;
        assert(r.deep_view() =~= colon_list(value@).take(i as int).map_values(
            |n: Seq<char>| unicode_lower(n),
        ));
    }
    assert(colon_list(value@).take(names@.len() as int) =~= colon_list(value@));
    r
}

/// The directories of an XDG list variable: its non-empty pieces when it
/// is set, else those of `default`.
pub fn dir_list(value: Option<&str>, default: &str) -> (r: Vec<String>)
    ensures
        r.deep_view() == colon_list(
            match value {
                Some(v) => v@,
                None => default@,
            },
        ),
{
    match value {
        Some(v) => colon_list_of(v),
        None => colon_list_of(default),
    }
}

/// `XDG_DATA_DIRS`: the directories it lists, or `/usr/local/share` and
/// `/usr/share` when it is not set.
pub fn data_dirs(value: Option<&str>) -> (r: Vec<String>)
    ensures
        r.deep_view() == colon_list(
            match value {
                Some(v) => v@,
                None => "/usr/local/share:/usr/share"@,
            },
        ),
{
    dir_list(value, "/usr/local/share:/usr/share")
}

/// `XDG_CONFIG_DIRS`: the directories it lists, or `/etc/xdg` when it is
/// not set.
pub fn config_dirs(value: Option<&str>) -> (r: Vec<String>)
    ensures
        r.deep_view() == colon_list(
            match value {
                Some(v) => v@,
                None => "/etc/xdg"@,
            },
        ),
{
    dir_list(value, "/etc/xdg")
}

/// The path `name` joined to `base` (`Path::join` on Unix): an absolute
/// `name` replaces `base`; otherwise a `/` separates them when `base` does
/// not end with one.
pub open spec fn join_path(base: Seq<char>, name: Seq<char>) -> Seq<char> {
    if name.len() > 0 && name[0] == '/' {
        name
    } else if base.len() == 0 || base.last() == '/' {
        base + name
    } else {
        base + seq!['/'] + name
    }
}

/// `name` joined to `base`.
pub fn join(base: &str, name: &str) -> (r: String)
    ensures
        r@ == join_path(base@, name@),
{
    let b = chars_of(base);
    let n = chars_of(name);
    if n.len() > 0 && n[0] == '/' {
        return string_of(n.as_slice());
    }
    let mut out = string_of(b.as_slice());
    if !(b.len() == 0 || b[b.len() - 1] == '/') {
        out.push('/');
    }
    out.push_str(name);
    out
}

/// A base directory of the user: the variable's value when it is set,
/// else `suffix` under the home directory, else `/tmp`.
pub open spec fn home_dir_spec(value: Option<Seq<char>>, home: Option<Seq<char>>, suffix: Seq<char>) -> Seq<
    char,
> {
    match value {
        Some(v) => v,
        None => match home {
            Some(h) => join_path(h, suffix),
            None => "/tmp"@,
        },
    }
}

/// `XDG_DATA_HOME` or `XDG_CONFIG_HOME` from the variable and the home
/// directory.
pub fn home_dir(value: Option<&str>, home: Option<&str>, suffix: &str) -> (r: String)
    ensures
        r@ == home_dir_spec(
            match value {
                Some(v) => Some(v@),
                None => None,
            },
            match home {
                Some(h) => Some(h@),
                None => None,
            },
            suffix@,
        ),
{
    match value {
        Some(v) => to_string_of(v),
        None => match home {
            Some(h) => join(h, suffix),
            None => to_string_of("/tmp"),
        },
    }
}

/// The `mimeapps.list` files one directory may hold, in order: one per
/// desktop environment, then the common one.
pub open spec fn dir_lists(dir: Seq<char>, envs: Seq<Seq<char>>) -> Seq<Seq<char>> {
    envs.map_values(|e: Seq<char>| join_path(dir, e + "-mimeapps.list"@)).push(
        join_path(dir, "mimeapps.list"@),
    )
}

/// `dir_lists` of each directory, one after another.
pub open spec fn lists_of_dirs(dirs: Seq<Seq<char>>, envs: Seq<Seq<char>>, sub: Option<Seq<char>>) -> Seq<
    Seq<char>,
>
    decreases dirs.len(),
{
    if dirs.len() == 0 {
        Seq::empty()
    } else {
        lists_of_dirs(dirs.drop_last(), envs, sub) + dir_lists(
            match sub {
                Some(s) => join_path(dirs.last(), s),
                None => dirs.last(),
            },
            envs,
        )
    }
}

/// Where `mimeapps.list` files are looked for, most important first: the
/// user configuration directory, the system configuration directories, the
/// user's applications directory, then those of the system data
/// directories; in each, the desktop-specific lists come first.
pub open spec fn mimeapps_candidates_spec(
    config_home: Seq<char>,
    config_dirs: Seq<Seq<char>>,
    data_home: Seq<char>,
    data_dirs: Seq<Seq<char>>,
    envs: Seq<Seq<char>>,
) -> Seq<Seq<char>> {
    dir_lists(config_home, envs) + lists_of_dirs(config_dirs, envs, None) + dir_lists(
        join_path(data_home, "applications"@),
        envs,
    ) + lists_of_dirs(data_dirs, envs, Some("applications"@))
}

/// Appends the lists of one directory.
fn push_dir_lists(out: &mut Vec<String>, dir: &str, envs: &Vec<String>)
    ensures
        final(out).deep_view() == old(out).deep_view() + dir_lists(dir@, envs.deep_view()),
{
    let ghost start = out.deep_view();
    let ghost ev = envs.deep_view();
    let ghost per = ev.map_values(|e: Seq<char>| join_path(dir@, e + "-mimeapps.list"@));
    let mut i: usize = 0;
    assert(per.take(0) =~= Seq::<Seq<char>>::empty());
    assert(start + per.take(0) =~= start);
    while i < envs.len()
        invariant
            ev == envs.deep_view(),
            per == ev.map_values(|e: Seq<char>| join_path(dir@, e + "-mimeapps.list"@)),
            i <= envs@.len(),
            out.deep_view() == start + per.take(i as int),
        decreases envs@.len() - i,
    {
        let mut file = envs[i].clone();
        file.push_str("-mimeapps.list");
        push_string(out, join(dir, file.as_str()));
        i = i + 1;
        assert(per.take(i as int) =~= per.take(i - 1).push(per[i - 1]));
        assert(out.deep_view() =~= start + per.take(i as int));
    }
    assert(per.take(envs@.len() as int) =~= per);
    push_string(out, join(dir, "mimeapps.list"));
    assert(out.deep_view() =~= start + dir_lists(dir@, ev));
}

/// Appends the lists of each directory, under `sub` when it is given.
fn push_lists_of_dirs(out: &mut Vec<String>, dirs: &Vec<String>, envs: &Vec<String>, sub: Option<&str>)
    ensures
        final(out).deep_view() == old(out).deep_view() + lists_of_dirs(
            dirs.deep_view(),
            envs.deep_view(),
            match sub {
                Some(s) => Some(s@),
                None => None,
            },
        ),
{
    let ghost start = out.deep_view();
    let ghost dv = dirs.deep_view();
    let ghost sv = match sub {
        Some(s) => Some(s@),
        None => None,
    };
    let mut i: usize = 0;
    assert(dv.take(0) =~= Seq::<Seq<char>>::empty());
    assert(start + Seq::<Seq<char>>::empty() =~= start);
    while i < dirs.len()
        invariant
            dv == dirs.deep_view(),
            sv == match sub {
                Some(s) => Some(s@),
                None => None::<Seq<char>>,
            },
            i <= dirs@.len(),
            out.deep_view() == start + lists_of_dirs(dv.take(i as int), envs.deep_view(), sv),
        decreases dirs@.len() - i,
    {
        let dir = match sub {
            Some(s) => join(dirs[i].as_str(), s),
            None => dirs[i].clone(),
        };
        let ghost before = out.deep_view();
        push_dir_lists(out, dir.as_str(), envs);
        proof {
            assert(dv.take(i + 1).drop_last() =~= dv.take(i as int));
            assert(dv.take(i + 1).last() == dirs@[i as int]@);
            assert(out.deep_view() =~= start + lists_of_dirs(dv.take(i + 1), envs.deep_view(), sv));
        }
        i = i + 1;
    }
    assert(dv.take(dirs@.len() as int) =~= dv);
}

/// Every place a `mimeapps.list` may be, most important first; those that
/// exist are the ones to read.
pub fn mimeapps_list_candidates(
    config_home: &str,
    config_dirs: &Vec<String>,
    data_home: &str,
    data_dirs: &Vec<String>,
    desktop_envs: &Vec<String>,
) -> (r: Vec<String>)
    ensures
        r.deep_view() == mimeapps_candidates_spec(
            config_home@,
            config_dirs.deep_view(),
            data_home@,
            data_dirs.deep_view(),
            desktop_envs.deep_view(),
        ),
{
    let mut out: Vec<String> = Vec::new();
    assert(out.deep_view() =~= Seq::<Seq<char>>::empty());
    push_dir_lists(&mut out, config_home, desktop_envs);
    push_lists_of_dirs(&mut out, config_dirs, desktop_envs, None);
    let user_apps = join(data_home, "applications");
    push_dir_lists(&mut out, user_apps.as_str(), desktop_envs);
    push_lists_of_dirs(&mut out, data_dirs, desktop_envs, Some("applications"));
    assert(out.deep_view() =~= mimeapps_candidates_spec(
        config_home@,
        config_dirs.deep_view(),
        data_home@,
        data_dirs.deep_view(),
        desktop_envs.deep_view(),
    ));
    out
}

/// The flatpak directory of system-wide applications.
pub open spec fn flatpak_system_dir() -> Seq<char> {
    "/var/lib/flatpak/exports/share/applications"@
}

/// The applications directories in the order they are searched, before
/// repeats are dropped: the user's, each system data directory's, the
/// flatpak system one, and the user's flatpak one when there is a home.
pub open spec fn desktop_dirs_all(data_home: Seq<char>, data_dirs: Seq<Seq<char>>, home: Option<Seq<char>>) -> Seq<
    Seq<char>,
> {
    seq![join_path(data_home, "applications"@)] + data_dirs.map_values(
        |d: Seq<char>| join_path(d, "applications"@),
    ) + seq![flatpak_system_dir()] + match home {
        Some(h) => seq![join_path(h, ".local/share/flatpak/exports/share/applications"@)],
        None => Seq::empty(),
    }
}

/// The members of `s` whose path has not come before it, in order: two
/// texts name the same path when their `path_key`s are equal, as `Path`
/// compares paths (repeated or trailing separators and `.` components past
/// the first make no difference).
pub open spec fn unique_paths(s: Seq<Seq<char>>) -> Seq<Seq<char>>
    decreases s.len(),
{
    if s.len() == 0 {
        Seq::empty()
    } else {
        let prev = unique_paths(s.drop_last());
        if s.drop_last().map_values(|x: Seq<char>| path_key(x)).contains(path_key(s.last())) {
            prev
        } else {
            prev.push(s.last())
        }
    }
}

/// The applications directories to search, each path once (the first text
/// that names it), in order; those that exist are the ones to read.
pub fn desktop_dir_candidates(data_home: &str, data_dirs: &Vec<String>, home: Option<&str>) -> (r: Vec<
    String,
>)
    ensures
        r.deep_view() == unique_paths(
            desktop_dirs_all(
                data_home@,
                data_dirs.deep_view(),
                match home {
                    Some(h) => Some(h@),
                    None => None,
                },
            ),
        ),
{
    let mut all: Vec<String> = Vec::new();
    push_string(&mut all, join(data_home, "applications"));
    let ghost dv = data_dirs.deep_view();
    let ghost first = all.deep_view();
    let mut i: usize = 0;
    while i < data_dirs.len()
        invariant
            dv == data_dirs.deep_view(),
            i <= data_dirs@.len(),
            all.deep_view() == first + dv.take(i as int).map_values(
                |d: Seq<char>| join_path(d, "applications"@),
            ),
        decreases data_dirs@.len() - i,
    {
        push_string(&mut all, join(data_dirs[i].as_str(), "applications"));
        i = i + 1;
        assert(all.deep_view() =~= first + dv.take(i as int).map_values(
            |d: Seq<char>| join_path(d, "applications"@),
        ));
    }
    assert(dv.take(data_dirs@.len() as int) =~= dv);
    push_string(&mut all, to_string_of("/var/lib/flatpak/exports/share/applications"));
    match home {
        Some(h) => {
            push_string(&mut all, join(h, ".local/share/flatpak/exports/share/applications"));
        },
        None => {},
    }
    let ghost av = all.deep_view();
    assert(av =~= desktop_dirs_all(
        data_home@,
        data_dirs.deep_view(),
        match home {
            Some(h) => Some(h@),
            None => None,
        },
    ));
    let mut r: Vec<String> = Vec::new();
    let mut keys: Vec<String> = Vec::new();
    let mut k: usize = 0;
    assert(av.take(0) =~= Seq::<Seq<char>>::empty());
    assert(r.deep_view() =~= Seq::<Seq<char>>::empty());
    assert(keys.deep_view() =~= av.take(0).map_values(|x: Seq<char>| path_key(x)));
    while k < all.len()
        invariant
            av == all.deep_view(),
            k <= all@.len(),
            keys.deep_view() == av.take(k as int).map_values(|x: Seq<char>| path_key(x)),
            r.deep_view() == unique_paths(av.take(k as int)),
        decreases all@.len() - k,
    {
        assert(av.take(k + 1).drop_last() =~= av.take(k as int));
        assert(av.take(k + 1).last() == all@[k as int]@);
        let key = path_key_of(all[k].as_str());
        if !contains_string(&keys, &key) {
            let ghost before = r.deep_view();
            push_string(&mut r, all[k].clone());
            assert(r.deep_view() =~= before.push(all@[k as int]@));
        }
        let ghost kb = keys.deep_view();
        push_string(&mut keys, key);
        assert(keys.deep_view() =~= av.take(k + 1).map_values(|x: Seq<char>| path_key(x)));
        k = k + 1;
    }
    assert(av.take(all@.len() as int) =~= av);
    r
}

} // verus!
