//! The subcommands that edit and query the handler configuration.
use vstd::prelude::*;
use crate::application_finder::{
    app_views, find_index_spec, mime_types_of, paths_of, AppView, ApplicationEntry, ApplicationFinder,
};
use crate::launch::mime_apps;
use crate::cli::{EditArgs, GetArgs, ListArgs, OpenArgs, RemoveArgs, UnsetArgs};
use crate::desktop_parser::{strip_prefix_all, strip_prefix_all_chars};
use crate::mime_pattern::{glob_match, wildcard_matches};
use crate::mimeapps::{drop_empty, edit_targets, handler_pairs, resolve_spec, EditSpec, MimeApps};
use crate::text::{
    chars_of, contains_char, join_with, lower_ascii, lower_ascii_chars, push_separated, split_once,
    string_of, to_string_of, trim, trim_chars,
};

verus! {

/// The MIME type that `mime_guess` lists first for the extension `ext`, as
/// its top-level type and its essence (`type/subtype`).
pub uninterp spec fn ext_guess(ext: Seq<char>) -> Option<(Seq<char>, Seq<char>)>;

/// The essence of the MIME type that `mime` parses from `s`, when it
/// parses.
pub uninterp spec fn mime_essence(s: Seq<char>) -> Option<Seq<char>>;

/// `mime_guess::from_ext(ext).first()`, given as the type and the essence
/// of that MIME type; which type it is, `ext_guess` names.
#[verifier::external_body]
fn guess_from_ext(ext: &str) -> (r: Option<(String, String)>)
    ensures
        match ext_guess(ext@) {
            Some(g) => r matches Some(p) && p.0@ == g.0 && p.1@ == g.1,
            None => r is None,
        },
{
    match mime_guess::from_ext(ext).first() {
        Some(m) => Some((m.type_().as_str().to_string(), m.essence_str().to_string())),
        None => None,
    }
}

/// `s.parse::<mime::Mime>()`, given as the essence of the parsed type, or
/// `None` where parsing fails; the essence is named by `mime_essence`.
#[verifier::external_body]
fn parse_mime(s: &str) -> (r: Option<String>)
    ensures
        match mime_essence(s@) {
            Some(e) => r is Some && r->0@ == e,
            None => r is None,
        },
{
    match s.parse::<mime::Mime>() {
        Ok(m) => Some(m.essence_str().to_string()),
        Err(_) => None,
    }
}

/// Why a MIME type or extension was not understood.
#[derive(Debug, Clone)]
pub enum MimeError {
    /// Not a usable `type/subtype`.
    Invalid(String),
    /// No MIME type is known for this extension.
    UnknownExtension(String),
}

/// The message of each error.
pub open spec fn mime_error_text(e: MimeError) -> Seq<char> {
    match e {
        MimeError::Invalid(i) => "Invalid MIME type: "@ + i@,
        MimeError::UnknownExtension(i) => "Unable to resolve MIME type for extension: "@ + i@,
    }
}

impl MimeError {
    /// The message that describes the error.
    pub fn message(&self) -> (r: String)
        ensures
            r@ == mime_error_text(*self),
    {
        match self {
            MimeError::Invalid(i) => {
                let mut m = to_string_of("Invalid MIME type: ");
                m.push_str(i.as_str());
                m
            },
            MimeError::UnknownExtension(i) => {
                let mut m = to_string_of("Unable to resolve MIME type for extension: ");
                m.push_str(i.as_str());
                m
            },
        }
    }
}

/// The outcome of reading a MIME type or extension: the normalized type,
/// or the error kind (`true` for an invalid type, `false` for an unknown
/// extension).
pub open spec fn normalize_spec(input: Seq<char>) -> Result<Seq<char>, bool> {
    let t = trim(input);
    if t.contains('*') {
        Ok(t)
    } else {
        match split_once(t, '/') {
            Some(parts) => {
                let type_part = lower_ascii(trim(parts.0));
                let subtype = lower_ascii(trim(parts.1));
                if subtype.len() == 0 {
                    Err(true)
                } else {
                    match pick_spec(type_part, ext_guess(subtype), mime_essence(type_part + "/"@ + subtype)) {
                        Some(m) => Ok(m),
                        None => Err(true),
                    }
                }
            },
            None => match ext_guess(strip_prefix_all(t, seq!['.'])) {
                Some(g) => Ok(g.1),
                None => Err(false),
            },
        }
    }
}

/// For a `type/subtype` input: the guess for the subtype read as an
/// extension when its type is `type_part`, or else the parsed type.
pub open spec fn pick_spec(
    type_part: Seq<char>,
    guess: Option<(Seq<char>, Seq<char>)>,
    parsed: Option<Seq<char>>,
) -> Option<Seq<char>> {
    match guess {
        Some(g) => if g.0 == type_part {
            Some(g.1)
        } else {
            parsed
        },
        None => parsed,
    }
}

/// For a `type/subtype` input (no `*`, the subtype not blank), the type
/// guessed by reading the subtype as an extension is taken only when its
/// top-level type is the given one (both lower-cased): `application/xml`
/// stays `application/xml` though `xml` read as an extension is
/// `text/xml`. Otherwise the answer is the type that `type/subtype`
/// parses to, and the input is refused when it does not parse.
pub proof fn law_guess_only_for_same_type(input: Seq<char>)
    requires
        !trim(input).contains('*'),
        split_once(trim(input), '/') is Some,
        lower_ascii(trim((split_once(trim(input), '/')->0).1)).len() > 0,
    ensures
        ({
            let parts = split_once(trim(input), '/')->0;
            let tp = lower_ascii(trim(parts.0));
            let st = lower_ascii(trim(parts.1));
            let same = ext_guess(st) is Some && (ext_guess(st)->0).0 == tp;
            &&& same ==> normalize_spec(input) == Ok::<Seq<char>, bool>((ext_guess(st)->0).1)
            &&& !same ==> normalize_spec(input) == match mime_essence(tp + "/"@ + st) {
                Some(e) => Ok::<Seq<char>, bool>(e),
                None => Err(true),
            }
        }),
{
}

/// Picks the normalized type from the guess for the subtype and the parsed
/// `type/subtype`, as `pick_spec` says.
pub fn pick_mime(type_part: &str, guess: Option<(String, String)>, parsed: Option<String>) -> (r: Option<
    String,
>)
    ensures
        pick_spec(
            type_part@,
            match guess {
                Some(g) => Some((g.0@, g.1@)),
                None => None,
            },
            match parsed {
                Some(p) => Some(p@),
                None => None,
            },
        ) == match r {
            Some(s) => Some(s@),
            None => None::<Seq<char>>,
        },
{
    match guess {
        Some(g) => {
            if crate::text::str_eq(g.0.as_str(), type_part) {
                Some(g.1)
            } else {
                parsed
            }
        },
        None => parsed,
    }
}

/// Reads a MIME type or a file extension given on the command line:
/// patterns with `*` are kept as they are; `type/subtype` is lower-cased
/// and checked; an extension, with or without leading dots, is looked up.
pub fn normalize_mime_input(input: &str) -> (r: Result<String, MimeError>)
    ensures
        match normalize_spec(input@) {
            Ok(m) => r is Ok && r->Ok_0@ == m,
            Err(true) => r matches Err(MimeError::Invalid(i)) && i@ == input@,
            Err(false) => r matches Err(MimeError::UnknownExtension(i)) && i@ == input@,
        },
{
    let t = trim_chars(chars_of(input).as_slice());
    if contains_char(t.as_slice(), '*') {
        return Ok(string_of(t.as_slice()));
    }
    match crate::text::find_char(t.as_slice(), '/') {
        Some(k) => {
            proof {
                crate::text::lemma_index_of(t@, '/');
            }
            let left = crate::text::slice_subrange(t.as_slice(), 0, k);
            let n = t.len();
            assert(k < n);
            let right = crate::text::slice_subrange(t.as_slice(), k + 1, n);
            let type_part = lower_ascii_chars(trim_chars(left.as_slice()).as_slice());
            let subtype = lower_ascii_chars(trim_chars(right.as_slice()).as_slice());
            assert(left@ == t@.take(k as int));
            assert(right@ == t@.skip(k + 1));
            if subtype.len() == 0 {
                return Err(MimeError::Invalid(to_string_of(input)));
            }
            let type_text = string_of(type_part.as_slice());
            let sub_text = string_of(subtype.as_slice());
            let mut candidate = string_of(type_part.as_slice());
            candidate.push_str("/");
            candidate.push_str(sub_text.as_str());
            let guess = guess_from_ext(sub_text.as_str());
            let parsed = parse_mime(candidate.as_str());
            match pick_mime(type_text.as_str(), guess, parsed) {
                Some(m) => Ok(m),
                None => Err(MimeError::Invalid(to_string_of(input))),
            }
        },
        None => {
            let dot: [char; 1] = ['.'];
            assert(dot@ =~= seq!['.']);
            let normalized = strip_prefix_all_chars(t.as_slice(), &dot);
            match guess_from_ext(string_of(normalized.as_slice()).as_str()) {
                Some(g) => Ok(g.1),
                None => Err(MimeError::UnknownExtension(to_string_of(input))),
            }
        },
    }
}

/// Why a handler was refused.
#[derive(Debug, Clone)]
pub enum CommandError {
    /// The handler is blank.
    EmptyHandler,
    /// No cached desktop file has this id.
    HandlerNotFound(String),
}

/// The message of each error.
pub open spec fn command_error_text(e: CommandError) -> Seq<char> {
    match e {
        CommandError::EmptyHandler => "Handler identifier cannot be empty"@,
        CommandError::HandlerNotFound(h) => "Desktop handler `"@ + h@
            + "` not found in available applications"@,
    }
}

impl CommandError {
    /// The message that describes the error.
    pub fn message(&self) -> (r: String)
        ensures
            r@ == command_error_text(*self),
    {
        match self {
            CommandError::EmptyHandler => to_string_of("Handler identifier cannot be empty"),
            CommandError::HandlerNotFound(h) => {
                let mut m = to_string_of("Desktop handler `");
                m.push_str(h.as_str());
                m.push_str("` not found in available applications");
                m
            },
        }
    }
}

/// What the subcommands share: reading MIME input and checking handlers.
#[derive(Debug)]
pub struct CommandContext;

impl Default for CommandContext {
    fn default() -> (r: Self) {
        CommandContext
    }
}

impl CommandContext {
    /// Reads a MIME type or extension, as `normalize_mime_input` does.
    pub fn normalize_mime_input(&self, input: &str) -> (r: Result<String, MimeError>)
        ensures
            match normalize_spec(input@) {
                Ok(m) => r is Ok && r->Ok_0@ == m,
                Err(true) => r matches Err(MimeError::Invalid(i)) && i@ == input@,
                Err(false) => r matches Err(MimeError::UnknownExtension(i)) && i@ == input@,
            },
    {
        normalize_mime_input(input)
    }

    /// Accepts a handler that is a path to an existing file (it holds a
    /// `/` and `path_exists` says the file is there) or the desktop id of a
    /// cached file; a blank one is refused.
    pub fn ensure_handler_exists(&self, handler: &str, path_exists: bool, finder: &ApplicationFinder) -> (r:
        Result<(), CommandError>)
        ensures
            trim(handler@).len() == 0 ==> r matches Err(CommandError::EmptyHandler),
            trim(handler@).len() > 0 && handler@.contains('/') && path_exists ==> r is Ok,
            trim(handler@).len() > 0 && !(handler@.contains('/') && path_exists) ==> match find_index_spec(
                paths_of(finder.files()),
                handler@,
            ) {
                Some(_) => r is Ok,
                None => r matches Err(CommandError::HandlerNotFound(h)) && h@ == handler@,
            },
    {
        let cs = chars_of(handler);
        let t = trim_chars(cs.as_slice());
        if t.len() == 0 {
            return Err(CommandError::EmptyHandler);
        }
        if contains_char(cs.as_slice(), '/') && path_exists {
            return Ok(());
        }
        match finder.find_desktop_file(handler) {
            Some(_) => Ok(()),
            None => Err(CommandError::HandlerNotFound(to_string_of(handler))),
        }
    }
}

/// `set`: makes a handler the only one for a MIME type.
#[derive(Debug)]
pub struct SetCommand {
    pub args: EditArgs,
}

impl SetCommand {
    pub fn new(args: EditArgs) -> (r: Self)
        ensures
            r.args == args,
    {
        SetCommand { args }
    }

    /// Replaces the handlers of `mime` with this command's handler.
    pub fn apply(&self, mime: &str, apps: &mut MimeApps)
        ensures
            final(apps).defaults() == edit_targets(
                old(apps).defaults(),
                resolve_spec(
                    old(apps).default_pairs(),
                    old(apps).added_pairs(),
                    mime@,
                    self.args.expand_wildcards,
                ),
                EditSpec::Replace(seq![self.args.handler@]),
            ),
            final(apps).added() == old(apps).added(),
    {
        let handlers = vec![self.args.handler.clone()];
        assert(handlers.deep_view() =~= seq![self.args.handler@]);
        apps.set_handler(mime, handlers, self.args.expand_wildcards);
    }

    /// The line printed once the change is saved.
    pub fn summary(&self, mime: &str) -> (r: String)
        ensures
            r@ == "Set default handler for "@ + mime@ + " -> "@ + self.args.handler@,
    {
        let mut m = to_string_of("Set default handler for ");
        m.push_str(mime);
        m.push_str(" -> ");
        m.push_str(self.args.handler.as_str());
        m
    }
}

/// `add`: appends a handler for a MIME type.
#[derive(Debug)]
pub struct AddCommand {
    pub args: EditArgs,
}

impl AddCommand {
    pub fn new(args: EditArgs) -> (r: Self)
        ensures
            r.args == args,
    {
        AddCommand { args }
    }

    /// Appends this command's handler to those of `mime`.
    pub fn apply(&self, mime: &str, apps: &mut MimeApps)
        ensures
            final(apps).defaults() == edit_targets(
                old(apps).defaults(),
                resolve_spec(
                    old(apps).default_pairs(),
                    old(apps).added_pairs(),
                    mime@,
                    self.args.expand_wildcards,
                ),
                EditSpec::Add(self.args.handler@),
            ),
            final(apps).added() == old(apps).added(),
    {
        apps.add_handler(mime, self.args.handler.clone(), self.args.expand_wildcards);
    }

    /// The line printed once the change is saved.
    pub fn summary(&self, mime: &str) -> (r: String)
        ensures
            r@ == "Added handler "@ + self.args.handler@ + " for "@ + mime@,
    {
        let mut m = to_string_of("Added handler ");
        m.push_str(self.args.handler.as_str());
        m.push_str(" for ");
        m.push_str(mime);
        m
    }
}

/// `remove`: takes one handler away from a MIME type.
#[derive(Debug)]
pub struct RemoveCommand {
    pub args: RemoveArgs,
}

impl RemoveCommand {
    pub fn new(args: RemoveArgs) -> (r: Self)
        ensures
            r.args == args,
    {
        RemoveCommand { args }
    }

    /// Removes this command's handler from those of `mime`.
    pub fn apply(&self, mime: &str, apps: &mut MimeApps)
        ensures
            final(apps).defaults() == drop_empty(
                edit_targets(
                    old(apps).defaults(),
                    resolve_spec(
                        old(apps).default_pairs(),
                        old(apps).added_pairs(),
                        mime@,
                        self.args.expand_wildcards,
                    ),
                    EditSpec::Remove(Some(self.args.handler@)),
                ),
            ),
            final(apps).added() == old(apps).added(),
    {
        apps.remove_handler(mime, Some(self.args.handler.as_str()), self.args.expand_wildcards);
    }

    /// The line printed once the change is saved.
    pub fn summary(&self, mime: &str) -> (r: String)
        ensures
            r@ == "Removed handler "@ + self.args.handler@ + " from "@ + mime@,
    {
        let mut m = to_string_of("Removed handler ");
        m.push_str(self.args.handler.as_str());
        m.push_str(" from ");
        m.push_str(mime);
        m
    }
}

/// `unset`: takes every handler away from a MIME type.
#[derive(Debug)]
pub struct UnsetCommand {
    pub args: UnsetArgs,
}

impl UnsetCommand {
    pub fn new(args: UnsetArgs) -> (r: Self)
        ensures
            r.args == args,
    {
        UnsetCommand { args }
    }

    /// Removes every handler of `mime`.
    pub fn apply(&self, mime: &str, apps: &mut MimeApps)
        ensures
            final(apps).defaults() == drop_empty(
                edit_targets(
                    old(apps).defaults(),
                    resolve_spec(
                        old(apps).default_pairs(),
                        old(apps).added_pairs(),
                        mime@,
                        self.args.expand_wildcards,
                    ),
                    EditSpec::Remove(None),
                ),
            ),
            final(apps).added() == old(apps).added(),
    {
        apps.remove_handler(mime, None, self.args.expand_wildcards);
    }

    /// The line printed once the change is saved.
    pub fn summary(&self, mime: &str) -> (r: String)
        ensures
            r@ == "Unset handlers for "@ + mime@,
    {
        let mut m = to_string_of("Unset handlers for ");
        m.push_str(mime);
        m
    }
}

/// `get`: shows the applications for a MIME type or pattern.
#[derive(Debug)]
pub struct GetCommand {
    pub args: GetArgs,
}

/// The members of `s` that the wildcard pattern `p` matches, in order.
pub open spec fn glob_filter(s: Seq<Seq<char>>, p: Seq<char>) -> Seq<Seq<char>>
    decreases s.len(),
{
    if s.len() == 0 {
        Seq::empty()
    } else {
        let prev = glob_filter(s.drop_last(), p);
        if glob_match(p, s.last()) {
            prev.push(s.last())
        } else {
            prev
        }
    }
}

/// The mark before an application in the listing of `get`: a star for
/// the default, a triangle for another XDG association, else two spaces.
pub open spec fn listing_marker(a: AppView) -> Seq<char> {
    if a.is_default {
        "\u{2605} "@
    } else if a.is_xdg {
        "\u{25b6} "@
    } else {
        "  "@
    }
}

/// For each of `mimes` in order whose applications (see `mime_apps`) are
/// not none, the type with its applications.
pub open spec fn grouped_apps(finder: ApplicationFinder, mimes: Seq<Seq<char>>, include_actions: bool) -> Seq<
    (Seq<char>, Seq<AppView>),
>
    decreases mimes.len(),
{
    if mimes.len() == 0 {
        Seq::empty()
    } else {
        let prev = grouped_apps(finder, mimes.drop_last(), include_actions);
        let apps = mime_apps(finder, mimes.last(), include_actions);
        if apps.len() > 0 {
            prev.push((mimes.last(), apps))
        } else {
            prev
        }
    }
}

/// The groups of a wildcard query, as text and entry views.
pub open spec fn group_views(groups: Seq<(String, Vec<ApplicationEntry>)>) -> Seq<(Seq<char>, Seq<AppView>)> {
    groups.map_values(|g: (String, Vec<ApplicationEntry>)| (g.0@, app_views(g.1@)))
}

/// The line that names an application in the listing of `get`: its mark,
/// its name, and the action it runs, if any.
pub open spec fn listing_label(a: AppView) -> Seq<char> {
    listing_marker(a) + a.name + match a.action_id {
        Some(id) => " [action: "@ + id + "]"@,
        None => Seq::empty(),
    }
}

impl GetCommand {
    pub fn new(args: GetArgs) -> (r: Self)
        ensures
            r.args == args,
    {
        GetCommand { args }
    }

    /// The MIME types that the cached entries list (in the order of
    /// `ApplicationFinder::all_mime_types`) and that the wildcard pattern
    /// `pattern` matches.
    pub fn matching_mime_types(finder: &ApplicationFinder, pattern: &str) -> (r: Vec<String>)
        ensures
            r.deep_view() == glob_filter(mime_types_of(finder.files()), pattern@),
    {
        let all = finder.all_mime_types();
        let ghost av = all.deep_view();
        let mut out: Vec<String> = Vec::new();
        let mut i: usize = 0;
        assert(av.take(0) =~= Seq::<Seq<char>>::empty());
        assert(out.deep_view() =~= Seq::<Seq<char>>::empty());
        while i < all.len()
            invariant
                av == all.deep_view(),
                i <= all@.len(),
                out.deep_view() == glob_filter(av.take(i as int), pattern@),
            decreases all@.len() - i,
        {
            assert(av.take(i + 1).drop_last() =~= av.take(i as int));
            assert(av.take(i + 1).last() == all@[i as int]@);
            if wildcard_matches(pattern, all[i].as_str()) {
                let ghost before = out.deep_view();
                out.push(all[i].clone());
                assert(out.deep_view() =~= before.push(all@[i as int]@));
            }
            i = i + 1;
        }
        assert(av.take(all@.len() as int) =~= av);
        out
    }

    /// The answer to a wildcard query: for each MIME type that
    /// `matching_mime_types` gives, in that order, the type with the
    /// applications that `find_for_mime` finds for it, leaving out the
    /// types that have none.
    pub fn wildcard_results(finder: &ApplicationFinder, pattern: &str, include_actions: bool) -> (r: Vec<
        (String, Vec<ApplicationEntry>),
    >)
        ensures
            group_views(r@) == grouped_apps(
                *finder,
                glob_filter(mime_types_of(finder.files()), pattern@),
                include_actions,
            ),
    {
        let mimes = Self::matching_mime_types(finder, pattern);
        let ghost mv = mimes.deep_view();
        let mut groups: Vec<(String, Vec<ApplicationEntry>)> = Vec::new();
        let mut i: usize = 0;
        assert(mv.take(0) =~= Seq::<Seq<char>>::empty());
        assert(group_views(groups@) =~= Seq::<(Seq<char>, Seq<AppView>)>::empty());
        while i < mimes.len()
            invariant
                mv == mimes.deep_view(),
                i <= mimes@.len(),
                group_views(groups@) == grouped_apps(*finder, mv.take(i as int), include_actions),
            decreases mimes@.len() - i,
        {
            assert(mv.take(i + 1).drop_last() =~= mv.take(i as int));
            assert(mv.take(i + 1).last() == mimes@[i as int]@);
            let apps = finder.find_for_mime(mimes[i].as_str(), include_actions);
            if apps.len() > 0 {
                let ghost before = groups@;
                groups.push((mimes[i].clone(), apps));
                assert(group_views(groups@) =~= group_views(before).push(
                    (mimes@[i as int]@, app_views(groups@.last().1@)),
                ));
            }
            i = i + 1;
        }
        assert(mv.take(mimes@.len() as int) =~= mv);
        groups
    }

    /// The line that names `app` in the listing.
    pub fn app_label(app: &ApplicationEntry) -> (r: String)
        ensures
            r@ == listing_label(app@),
    {
        let mut line = if app.is_default {
            to_string_of("\u{2605} ")
        } else if app.is_xdg {
            to_string_of("\u{25b6} ")
        } else {
            to_string_of("  ")
        };
        line.push_str(app.name.as_str());
        match &app.action_id {
            Some(id) => {
                line.push_str(" [action: ");
                line.push_str(id.as_str());
                line.push_str("]");
            },
            None => {},
        }
        line
    }
}

/// `list`: shows the configured handlers.
#[derive(Debug)]
pub struct ListCommand {
    pub args: ListArgs,
}

/// The line that shows the handlers of one MIME type: `mime: h1; h2`.
pub open spec fn list_line(mime: Seq<char>, hs: Seq<Seq<char>>) -> Seq<char> {
    mime + ": "@ + join_with(hs, "; "@)
}

/// The lines of `list`, one per Default Applications entry, in key order.
pub open spec fn list_lines(pairs: Seq<(Seq<char>, Seq<Seq<char>>)>) -> Seq<Seq<char>> {
    pairs.map_values(|p: (Seq<char>, Seq<Seq<char>>)| list_line(p.0, p.1))
}

/// The copy of a slice of strings.
fn strings_of(items: &[String]) -> (r: Vec<String>)
    ensures
        r.deep_view() == items.deep_view(),
{
    let mut out: Vec<String> = Vec::new();
    let mut i: usize = 0;
    while i < items.len()
        invariant
            i <= items@.len(),
            out@.len() == i,
            forall|k: int| 0 <= k < i ==> #[trigger] out@[k]@ == items@[k]@,
        decreases items@.len() - i,
    {
        out.push(items[i].clone());
        i = i + 1;
    }
    assert(out.deep_view() =~= items.deep_view());
    out
}

impl ListCommand {
    pub fn new(args: ListArgs) -> (r: Self)
        ensures
            r.args == args,
    {
        ListCommand { args }
    }

    /// The text lines of `list`: for each Default Applications entry, in
    /// key order, the MIME type and its handlers joined with `; `.
    pub fn text_lines(apps: &MimeApps) -> (r: Vec<String>)
        ensures
            r.deep_view() == list_lines(apps.default_pairs()),
    {
        let defaults = apps.default_apps();
        let ghost pairs = apps.default_pairs();
        let mut out: Vec<String> = Vec::new();
        let mut i: usize = 0;
        while i < defaults.len()
            invariant
                pairs == handler_pairs(defaults.pairs()),
                pairs == apps.default_pairs(),
                i <= pairs.len(),
                out@.len() == i,
                forall|k: int| 0 <= k < i ==> #[trigger] out@[k]@ == list_line(pairs[k].0, pairs[k].1),
            decreases pairs.len() - i,
        {
            let mut line = defaults.key_at(i).clone();
            line.push_str(": ");
            let hs = strings_of(defaults.value_at(i).iter());
            push_separated(&mut line, &hs, "; ");
            out.push(line);
            i = i + 1;
        }
        assert(out.deep_view() =~= list_lines(pairs));
        out
    }
}

/// `open`: opens a resource with a chosen application.
#[derive(Debug)]
pub struct OpenCommand {
    pub args: OpenArgs,
}

impl OpenCommand {
    pub fn new(args: OpenArgs) -> (r: Self)
        ensures
            r.args == args,
    {
        OpenCommand { args }
    }
}

} // verus!
