//! Parsing of XDG desktop entry files (`*.desktop`).
use vstd::prelude::*;
use crate::strmap::StrMap;
use crate::text::{
    chars_of, has_prefix, lines, lines_of, lower_ascii, split_char, split_on, split_once, string_of,
    to_string_of, trim, trim_chars, trimmed_nonempty, trimmed_nonempty_of,
};

verus! {

/// Why a desktop entry could not be built.
#[derive(Debug, Clone, Copy, PartialEq, Eq, Structural)]
pub enum DesktopError {
    /// The `[Desktop Entry]` section has no usable `Name`.
    MissingName,
    /// The `[Desktop Entry]` section has no usable `Exec`.
    MissingExec,
    /// An action section has no `Name`.
    MissingActionName,
    /// An action section has no `Exec`.
    MissingActionExec,
}

impl DesktopError {
    /// The message that describes the error.
    pub fn message(&self) -> (r: String)
        ensures
            r@ == desktop_error_text(*self),
    {
        match self {
            DesktopError::MissingName => to_string_of("Missing Name field"),
            DesktopError::MissingExec => to_string_of("Missing Exec field"),
            DesktopError::MissingActionName => to_string_of("Missing Name field in action"),
            DesktopError::MissingActionExec => to_string_of("Missing Exec field in action"),
        }
    }
}

/// The message of each error.
pub open spec fn desktop_error_text(e: DesktopError) -> Seq<char> {
    match e {
        DesktopError::MissingName => "Missing Name field"@,
        DesktopError::MissingExec => "Missing Exec field"@,
        DesktopError::MissingActionName => "Missing Name field in action"@,
        DesktopError::MissingActionExec => "Missing Exec field in action"@,
    }
}

/// The contents of a desktop entry, as text.
pub struct EntryView {
    pub entry_type: Seq<char>,
    pub version: Option<Seq<char>>,
    pub name: Seq<char>,
    pub generic_name: Option<Seq<char>>,
    pub exec_line: Seq<char>,
    pub comment: Option<Seq<char>>,
    pub icon: Option<Seq<char>>,
    pub no_display: bool,
    pub hidden: bool,
    pub only_show_in: Seq<Seq<char>>,
    pub not_show_in: Seq<Seq<char>>,
    pub dbus_activatable: bool,
    pub try_exec: Option<Seq<char>>,
    pub path: Option<Seq<char>>,
    pub terminal: bool,
    pub mime_types: Seq<Seq<char>>,
    pub categories: Seq<Seq<char>>,
    pub implements: Seq<Seq<char>>,
    pub keywords: Seq<Seq<char>>,
    pub startup_notify: bool,
    pub startup_wm_class: Option<Seq<char>>,
    pub url: Option<Seq<char>>,
    pub prefers_non_default_gpu: bool,
    pub single_main_window: bool,
    pub actions: Seq<Seq<char>>,
}

/// The text of an optional string.
pub open spec fn opt_view(o: Option<String>) -> Option<Seq<char>> {
    match o {
        Some(s) => Some(s@),
        None => None,
    }
}

/// A parsed `[Desktop Entry]` section.
#[derive(Debug, Clone)]
pub struct DesktopEntry {
    pub entry_type: String,
    pub version: Option<String>,
    pub name: String,
    pub generic_name: Option<String>,
    pub exec_line: String,
    pub comment: Option<String>,
    pub icon: Option<String>,
    pub no_display: bool,
    pub hidden: bool,
    pub only_show_in: Vec<String>,
    pub not_show_in: Vec<String>,
    pub dbus_activatable: bool,
    pub try_exec: Option<String>,
    pub path: Option<String>,
    pub terminal: bool,
    pub mime_types: Vec<String>,
    pub categories: Vec<String>,
    pub implements: Vec<String>,
    pub keywords: Vec<String>,
    pub startup_notify: bool,
    pub startup_wm_class: Option<String>,
    pub url: Option<String>,
    pub prefers_non_default_gpu: bool,
    pub single_main_window: bool,
    pub actions: Vec<String>,
}

impl View for DesktopEntry {
    type V = EntryView;

    open spec fn view(&self) -> EntryView {
        EntryView {
            entry_type: self.entry_type@,
            version: opt_view(self.version),
            name: self.name@,
            generic_name: opt_view(self.generic_name),
            exec_line: self.exec_line@,
            comment: opt_view(self.comment),
            icon: opt_view(self.icon),
            no_display: self.no_display,
            hidden: self.hidden,
            only_show_in: self.only_show_in.deep_view(),
            not_show_in: self.not_show_in.deep_view(),
            dbus_activatable: self.dbus_activatable,
            try_exec: opt_view(self.try_exec),
            path: opt_view(self.path),
            terminal: self.terminal,
            mime_types: self.mime_types.deep_view(),
            categories: self.categories.deep_view(),
            implements: self.implements.deep_view(),
            keywords: self.keywords.deep_view(),
            startup_notify: self.startup_notify,
            startup_wm_class: opt_view(self.startup_wm_class),
            url: opt_view(self.url),
            prefers_non_default_gpu: self.prefers_non_default_gpu,
            single_main_window: self.single_main_window,
            actions: self.actions.deep_view(),
        }
    }
}

/// The entry type given when none is written.
pub open spec fn default_entry_type_spec() -> Seq<char> {
    "Application"@
}

/// An entry with every field empty, off or absent, of type `Application`.
pub open spec fn default_entry_view() -> EntryView {
    EntryView {
        entry_type: default_entry_type_spec(),
        version: None,
        name: Seq::empty(),
        generic_name: None,
        exec_line: Seq::empty(),
        comment: None,
        icon: None,
        no_display: false,
        hidden: false,
        only_show_in: Seq::empty(),
        not_show_in: Seq::empty(),
        dbus_activatable: false,
        try_exec: None,
        path: None,
        terminal: false,
        mime_types: Seq::empty(),
        categories: Seq::empty(),
        implements: Seq::empty(),
        keywords: Seq::empty(),
        startup_notify: false,
        startup_wm_class: None,
        url: None,
        prefers_non_default_gpu: false,
        single_main_window: false,
        actions: Seq::empty(),
    }
}

impl DesktopEntry {
    /// The entry type used when the file gives none.
    pub fn default_entry_type() -> (r: String)
        ensures
            r@ == default_entry_type_spec(),
    {
        to_string_of("Application")
    }
}

impl Default for DesktopEntry {
    fn default() -> (r: Self)
        ensures
            r@ == default_entry_view(),
    {
        let r = DesktopEntry {
            entry_type: DesktopEntry::default_entry_type(),
            version: None,
            name: String::new(),
            generic_name: None,
            exec_line: String::new(),
            comment: None,
            icon: None,
            no_display: false,
            hidden: false,
            only_show_in: Vec::new(),
            not_show_in: Vec::new(),
            dbus_activatable: false,
            try_exec: None,
            path: None,
            terminal: false,
            mime_types: Vec::new(),
            categories: Vec::new(),
            implements: Vec::new(),
            keywords: Vec::new(),
            startup_notify: false,
            startup_wm_class: None,
            url: None,
            prefers_non_default_gpu: false,
            single_main_window: false,
            actions: Vec::new(),
        };
        proof {
            lemma_empty_strings(r.only_show_in);
            lemma_empty_strings(r.not_show_in);
            lemma_empty_strings(r.mime_types);
            lemma_empty_strings(r.categories);
            lemma_empty_strings(r.implements);
            lemma_empty_strings(r.keywords);
            lemma_empty_strings(r.actions);
        }
        r
    }
}

proof fn lemma_empty_strings(v: Vec<String>)
    requires
        v@.len() == 0,
    ensures
        v.deep_view() == Seq::<Seq<char>>::empty(),
{
    assert(v.deep_view() =~= Seq::<Seq<char>>::empty());
}

/// The contents of a desktop action, as text.
pub struct ActionView {
    pub name: Seq<char>,
    pub exec_line: Seq<char>,
    pub icon: Option<Seq<char>>,
}

/// A `[Desktop Action id]` section.
#[derive(Debug, Clone)]
pub struct DesktopAction {
    pub name: String,
    pub exec_line: String,
    pub icon: Option<String>,
}

impl View for DesktopAction {
    type V = ActionView;

    open spec fn view(&self) -> ActionView {
        ActionView { name: self.name@, exec_line: self.exec_line@, icon: opt_view(self.icon) }
    }
}

/// The contents of a desktop file, as text.
pub struct FileView {
    pub main_entry: Option<EntryView>,
    pub actions: Map<Seq<char>, ActionView>,
}

/// The actions of a map, by their contents.
pub open spec fn action_map(m: Map<Seq<char>, DesktopAction>) -> Map<Seq<char>, ActionView> {
    m.map_values(|a: DesktopAction| a@)
}

/// A parsed desktop file: its main entry, if any, and its actions by id.
#[derive(Debug, Clone)]
pub struct DesktopFile {
    pub main_entry: Option<DesktopEntry>,
    pub actions: StrMap<DesktopAction>,
}

impl View for DesktopFile {
    type V = FileView;

    open spec fn view(&self) -> FileView {
        FileView {
            main_entry: match self.main_entry {
                Some(e) => Some(e@),
                None => None,
            },
            actions: action_map(self.actions.map()),
        }
    }
}

// ---------------------------------------------------------------------
// Field values
// ---------------------------------------------------------------------

/// A boolean field: true only when, trimmed, it reads `true` in any case.
pub open spec fn bool_value(v: Option<Seq<char>>) -> bool {
    match v {
        Some(s) => lower_ascii(trim(s)) == "true"@,
        None => false,
    }
}

/// A list field: the trimmed non-empty pieces between semicolons.
pub open spec fn list_value(v: Option<Seq<char>>) -> Seq<Seq<char>> {
    match v {
        Some(s) => trimmed_nonempty(split_char(s, ';')),
        None => Seq::<Seq<char>>::empty(),
    }
}

/// An optional string field: absent when missing or blank, else trimmed.
pub open spec fn opt_value(v: Option<Seq<char>>) -> Option<Seq<char>> {
    match v {
        Some(s) => if trim(s).len() == 0 {
            None
        } else {
            Some(trim(s))
        },
        None => None,
    }
}

/// The value of `key` in `fields`.
pub open spec fn field(fields: Map<Seq<char>, Seq<char>>, key: Seq<char>) -> Option<Seq<char>> {
    if fields.contains_key(key) {
        Some(fields[key])
    } else {
        None
    }
}

/// The text of each field of a field map.
pub open spec fn field_map(m: Map<Seq<char>, String>) -> Map<Seq<char>, Seq<char>> {
    m.map_values(|v: String| v@)
}

/// The entry that a `[Desktop Entry]` section with `fields` describes, or
/// why it cannot be built: `Name` must be present and not blank; `Exec`
/// must be present and not blank (it is kept untrimmed).
pub open spec fn entry_spec(fields: Map<Seq<char>, Seq<char>>) -> Result<EntryView, DesktopError> {
    let name = opt_value(field(fields, "Name"@));
    let exec = field(fields, "Exec"@);
    if name is None {
        Err(DesktopError::MissingName)
    } else if exec is None || trim(exec->0).len() == 0 {
        Err(DesktopError::MissingExec)
    } else {
        Ok(
            EntryView {
                entry_type: match opt_value(field(fields, "Type"@)) {
                    Some(t) => t,
                    None => default_entry_type_spec(),
                },
                version: opt_value(field(fields, "Version"@)),
                name: name->0,
                generic_name: opt_value(field(fields, "GenericName"@)),
                exec_line: exec->0,
                comment: opt_value(field(fields, "Comment"@)),
                icon: opt_value(field(fields, "Icon"@)),
                no_display: bool_value(field(fields, "NoDisplay"@)),
                hidden: bool_value(field(fields, "Hidden"@)),
                only_show_in: list_value(field(fields, "OnlyShowIn"@)),
                not_show_in: list_value(field(fields, "NotShowIn"@)),
                dbus_activatable: bool_value(field(fields, "DBusActivatable"@)),
                try_exec: opt_value(field(fields, "TryExec"@)),
                path: opt_value(field(fields, "Path"@)),
                terminal: bool_value(field(fields, "Terminal"@)),
                mime_types: list_value(field(fields, "MimeType"@)),
                categories: list_value(field(fields, "Categories"@)),
                implements: list_value(field(fields, "Implements"@)),
                keywords: list_value(field(fields, "Keywords"@)),
                startup_notify: bool_value(field(fields, "StartupNotify"@)),
                startup_wm_class: opt_value(field(fields, "StartupWMClass"@)),
                url: opt_value(field(fields, "URL"@)),
                prefers_non_default_gpu: bool_value(field(fields, "PrefersNonDefaultGPU"@)),
                single_main_window: bool_value(field(fields, "SingleMainWindow"@)),
                actions: list_value(field(fields, "Actions"@)),
            },
        )
    }
}

/// The action that an action section with `fields` describes: `Name` and
/// `Exec` must be present (taken as they are), `Icon` is optional.
pub open spec fn action_spec(fields: Map<Seq<char>, Seq<char>>) -> Result<ActionView, DesktopError> {
    if !fields.contains_key("Name"@) {
        Err(DesktopError::MissingActionName)
    } else if !fields.contains_key("Exec"@) {
        Err(DesktopError::MissingActionExec)
    } else {
        Ok(ActionView { name: fields["Name"@], exec_line: fields["Exec"@], icon: field(fields, "Icon"@) })
    }
}

impl DesktopFile {
    /// A boolean field.
    pub fn parse_bool(value: Option<&String>) -> (r: bool)
        ensures
            r == bool_value(
                match value {
                    Some(s) => Some(s@),
                    None => None,
                },
            ),
    {
        match value {
            None => false,
            Some(s) => {
                let t = trim_chars(chars_of(s.as_str()).as_slice());
                if t.len() == 0 {
                    proof {
                        reveal_strlit("true");
                        assert(lower_ascii(t@).len() == 0);
                    }
                    return false;
                }
                let l = crate::text::lower_ascii_chars(t.as_slice());
                let lit = chars_of("true");
                crate::text::chars_eq(l.as_slice(), lit.as_slice())
            },
        }
    }

    /// A list field.
    pub fn parse_list(value: Option<&String>) -> (r: Vec<String>)
        ensures
            r.deep_view() == list_value(
                match value {
                    Some(s) => Some(s@),
                    None => None,
                },
            ),
    {
        match value {
            None => {
                let r: Vec<String> = Vec::new();
                assert(r.deep_view() =~= Seq::<Seq<char>>::empty());
                r
            },
            Some(s) => {
                let parts = split_on(chars_of(s.as_str()).as_slice(), ';');
                trimmed_nonempty_of(&parts)
            },
        }
    }

    /// An optional string field.
    pub fn parse_optional_string(value: Option<&String>) -> (r: Option<String>)
        ensures
            opt_view(r) == opt_value(
                match value {
                    Some(s) => Some(s@),
                    None => None,
                },
            ),
    {
        match value {
            None => None,
            Some(s) => {
                let t = trim_chars(chars_of(s.as_str()).as_slice());
                if t.len() == 0 {
                    None
                } else {
                    Some(string_of(t.as_slice()))
                }
            },
        }
    }

    /// The value of `key`, read through the field map.
    fn lookup<'a>(fields: &'a StrMap<String>, key: &str) -> (r: Option<&'a String>)
        ensures
            match r {
                Some(v) => field(field_map(fields.map()), key@) == Some(v@),
                None => field(field_map(fields.map()), key@) == None::<Seq<char>>,
            },
    {
        fields.get(key)
    }

    /// The optional string field `key`.
    fn opt_field(fields: &StrMap<String>, key: &str) -> (r: Option<String>)
        ensures
            opt_view(r) == opt_value(field(field_map(fields.map()), key@)),
    {
        Self::parse_optional_string(Self::lookup(fields, key))
    }

    /// The boolean field `key`.
    fn bool_field(fields: &StrMap<String>, key: &str) -> (r: bool)
        ensures
            r == bool_value(field(field_map(fields.map()), key@)),
    {
        Self::parse_bool(Self::lookup(fields, key))
    }

    /// The list field `key`.
    fn list_field(fields: &StrMap<String>, key: &str) -> (r: Vec<String>)
        ensures
            r.deep_view() == list_value(field(field_map(fields.map()), key@)),
    {
        Self::parse_list(Self::lookup(fields, key))
    }

    /// Builds the main entry from the fields of a `[Desktop Entry]` section.
    #[verifier::rlimit(60)]
    pub fn build_desktop_entry(fields: &StrMap<String>) -> (r: Result<DesktopEntry, DesktopError>)
        ensures
            match r {
                Ok(e) => entry_spec(field_map(fields.map())) == Ok::<EntryView, DesktopError>(e@),
                Err(err) => entry_spec(field_map(fields.map())) == Err::<EntryView, DesktopError>(
                    err,
                ),
            },
    {
        let ghost fm = field_map(fields.map());
        let entry_type = match Self::opt_field(fields, "Type") {
            Some(t) => t,
            None => DesktopEntry::default_entry_type(),
        };
        let name = match Self::opt_field(fields, "Name") {
            Some(n) => n,
            None => {
                return Err(DesktopError::MissingName);
            },
        };
        let exec = match Self::lookup(fields, "Exec") {
            Some(e) => e.clone(),
            None => {
                return Err(DesktopError::MissingExec);
            },
        };
        let et = trim_chars(chars_of(exec.as_str()).as_slice());
        if et.len() == 0 {
            return Err(DesktopError::MissingExec);
        }
        let e = DesktopEntry {
            entry_type,
            version: Self::opt_field(fields, "Version"),
            name,
            generic_name: Self::opt_field(fields, "GenericName"),
            exec_line: exec,
            comment: Self::opt_field(fields, "Comment"),
            icon: Self::opt_field(fields, "Icon"),
            no_display: Self::bool_field(fields, "NoDisplay"),
            hidden: Self::bool_field(fields, "Hidden"),
            only_show_in: Self::list_field(fields, "OnlyShowIn"),
            not_show_in: Self::list_field(fields, "NotShowIn"),
            dbus_activatable: Self::bool_field(fields, "DBusActivatable"),
            try_exec: Self::opt_field(fields, "TryExec"),
            path: Self::opt_field(fields, "Path"),
            terminal: Self::bool_field(fields, "Terminal"),
            mime_types: Self::list_field(fields, "MimeType"),
            categories: Self::list_field(fields, "Categories"),
            implements: Self::list_field(fields, "Implements"),
            keywords: Self::list_field(fields, "Keywords"),
            startup_notify: Self::bool_field(fields, "StartupNotify"),
            startup_wm_class: Self::opt_field(fields, "StartupWMClass"),
            url: Self::opt_field(fields, "URL"),
            prefers_non_default_gpu: Self::bool_field(fields, "PrefersNonDefaultGPU"),
            single_main_window: Self::bool_field(fields, "SingleMainWindow"),
            actions: Self::list_field(fields, "Actions"),
        };
        assert(e@ =~~= entry_spec(fm)->Ok_0);
        Ok(e)
    }

    /// Builds an action from the fields of its section.
    pub fn build_desktop_action(fields: &StrMap<String>) -> (r: Result<DesktopAction, DesktopError>)
        ensures
            match r {
                Ok(a) => action_spec(field_map(fields.map())) == Ok::<ActionView, DesktopError>(a@),
                Err(err) => action_spec(field_map(fields.map())) == Err::<ActionView, DesktopError>(
                    err,
                ),
            },
    {
        let name = match fields.get("Name") {
            Some(n) => n.clone(),
            None => {
                return Err(DesktopError::MissingActionName);
            },
        };
        let exec = match fields.get("Exec") {
            Some(e) => e.clone(),
            None => {
                return Err(DesktopError::MissingActionExec);
            },
        };
        let icon = match fields.get("Icon") {
            Some(i) => Some(i.clone()),
            None => None,
        };
        Ok(DesktopAction { name, exec_line: exec, icon })
    }
}


// ---------------------------------------------------------------------
// Whole files
// ---------------------------------------------------------------------

/// The header of the main section.
pub open spec fn entry_header() -> Seq<char> {
    "[Desktop Entry]"@
}

/// The start of the header of an action section.
pub open spec fn action_prefix() -> Seq<char> {
    "[Desktop Action "@
}

/// `s` without every repetition of the prefix `p` (`trim_start_matches`).
pub open spec fn strip_prefix_all(s: Seq<char>, p: Seq<char>) -> Seq<char>
    decreases s.len(),
{
    if p.len() > 0 && has_prefix(s, p) {
        strip_prefix_all(s.skip(p.len() as int), p)
    } else {
        s
    }
}

/// `s` without every trailing `c` (`trim_end_matches`).
pub open spec fn strip_trailing(s: Seq<char>, c: char) -> Seq<char>
    decreases s.len(),
{
    if s.len() > 0 && s.last() == c {
        strip_trailing(s.drop_last(), c)
    } else {
        s
    }
}

/// The state of reading a desktop file: the current section header, the
/// current action id, the fields read in the current section, and what has
/// been built so far.
pub struct ParseSt {
    pub section: Seq<char>,
    pub action: Seq<char>,
    pub fields: Map<Seq<char>, Seq<char>>,
    pub main: Option<EntryView>,
    pub actions: Map<Seq<char>, ActionView>,
}

/// Finishing a section: the main section becomes the main entry (and its
/// error, the error of the whole file); an action section with an id
/// becomes an action when it can be built, and is dropped otherwise.
pub open spec fn flush(st: ParseSt) -> Result<ParseSt, DesktopError> {
    if st.section == entry_header() {
        match entry_spec(st.fields) {
            Ok(e) => Ok(ParseSt { main: Some(e), ..st }),
            Err(err) => Err(err),
        }
    } else if has_prefix(st.section, action_prefix()) && st.action.len() > 0 {
        match action_spec(st.fields) {
            Ok(a) => Ok(ParseSt { actions: st.actions.insert(st.action, a), ..st }),
            Err(_) => Ok(st),
        }
    } else {
        Ok(st)
    }
}

/// An action section without `Exec` is dropped: finishing it leaves the
/// state as it was.
pub proof fn law_action_without_exec_dropped(st: ParseSt)
    requires
        st.section != entry_header(),
        has_prefix(st.section, action_prefix()),
        !st.fields.contains_key("Exec"@),
    ensures
        flush(st) == Ok::<ParseSt, DesktopError>(st),
{
}

/// A main section without `Name` makes the whole file fail.
pub proof fn law_entry_without_name_fails(st: ParseSt)
    requires
        st.section == entry_header(),
        opt_value(field(st.fields, "Name"@)) is None,
    ensures
        flush(st) == Err::<ParseSt, DesktopError>(DesktopError::MissingName),
{
}

/// The state after one line: blank lines and comments change nothing; a
/// `[...]` line finishes the section and starts a new one with no fields;
/// a `key=value` line records the trimmed value of the trimmed key.
pub open spec fn desktop_step(r: Result<ParseSt, DesktopError>, raw: Seq<char>) -> Result<
    ParseSt,
    DesktopError,
> {
    match r {
        Err(e) => Err(e),
        Ok(st) => {
            let line = trim(raw);
            if line.len() == 0 || line[0] == '#' {
                Ok(st)
            } else if line[0] == '[' && line.last() == ']' {
                match flush(st) {
                    Err(e) => Err(e),
                    Ok(s2) => Ok(
                        ParseSt {
                            section: line,
                            action: if has_prefix(line, action_prefix()) {
                                strip_trailing(strip_prefix_all(line, action_prefix()), ']')
                            } else {
                                s2.action
                            },
                            fields: Map::empty(),
                            ..s2
                        },
                    ),
                }
            } else {
                match split_once(line, '=') {
                    Some((k, v)) => Ok(ParseSt { fields: st.fields.insert(trim(k), trim(v)), ..st }),
                    None => Ok(st),
                }
            }
        },
    }
}

/// The state after the lines `ls`.
pub open spec fn desktop_fold(ls: Seq<Seq<char>>, r: Result<ParseSt, DesktopError>) -> Result<
    ParseSt,
    DesktopError,
>
    decreases ls.len(),
{
    if ls.len() == 0 {
        r
    } else {
        desktop_step(desktop_fold(ls.drop_last(), r), ls.last())
    }
}

/// The state before the first line.
pub open spec fn initial_st() -> ParseSt {
    ParseSt {
        section: Seq::empty(),
        action: Seq::empty(),
        fields: Map::empty(),
        main: None,
        actions: Map::empty(),
    }
}

/// What the text of a desktop file describes.
pub open spec fn parse_contents_spec(contents: Seq<char>) -> Result<FileView, DesktopError> {
    match desktop_fold(lines(contents), Ok(initial_st())) {
        Err(e) => Err(e),
        Ok(st) => match flush(st) {
            Err(e) => Err(e),
            Ok(s) => Ok(FileView { main_entry: s.main, actions: s.actions }),
        },
    }
}

/// The state that the variables of the reader hold.
pub open spec fn st_of(
    section: Seq<char>,
    action: Seq<char>,
    fields: StrMap<String>,
    main: Option<DesktopEntry>,
    actions: StrMap<DesktopAction>,
) -> ParseSt {
    ParseSt {
        section,
        action,
        fields: field_map(fields.map()),
        main: match main {
            Some(e) => Some(e@),
            None => None,
        },
        actions: action_map(actions.map()),
    }
}

/// `s` without every repetition of the prefix `p`.
pub(crate) fn strip_prefix_all_chars(s: &[char], p: &[char]) -> (r: Vec<char>)
    requires
        p@.len() > 0,
    ensures
        r@ == strip_prefix_all(s@, p@),
{
    let mut cur = crate::text::slice_subrange(s, 0, s.len());
    assert(s@.subrange(0, s@.len() as int) == s@);
    while crate::text::starts_with_chars(cur.as_slice(), p)
        invariant
            p@.len() > 0,
            strip_prefix_all(cur@, p@) == strip_prefix_all(s@, p@),
        decreases cur@.len(),
    {
        let next = crate::text::slice_subrange(cur.as_slice(), p.len(), cur.len());
        assert(next@ == cur@.skip(p@.len() as int));
        cur = next;
    }
    cur
}

/// `s` without every trailing `c`.
fn strip_trailing_chars(s: &[char], c: char) -> (r: Vec<char>)
    ensures
        r@ == strip_trailing(s@, c),
{
    let mut j = s.len();
    assert(s@.take(s@.len() as int) == s@);
    while j > 0 && s[j - 1] == c
        invariant
            j <= s@.len(),
            strip_trailing(s@.take(j as int), c) == strip_trailing(s@, c),
        decreases j,
    {
        assert(s@.take(j as int).drop_last() == s@.take(j - 1));
        j = j - 1;
    }
    crate::text::slice_subrange(s, 0, j)
}

impl DesktopFile {
    /// Finishes the current section.
    fn flush_section(
        section: &Vec<char>,
        action: &Vec<char>,
        fields: &StrMap<String>,
        main: &mut Option<DesktopEntry>,
        actions: &mut StrMap<DesktopAction>,
    ) -> (r: Result<(), DesktopError>)
        ensures
            match r {
                Ok(()) => flush(st_of(section@, action@, *fields, *old(main), *old(actions)))
                    == Ok::<ParseSt, DesktopError>(
                    st_of(section@, action@, *fields, *final(main), *final(actions)),
                ),
                Err(e) => flush(st_of(section@, action@, *fields, *old(main), *old(actions)))
                    == Err::<ParseSt, DesktopError>(e),
            },
    {
        let header = chars_of("[Desktop Entry]");
        let prefix = chars_of("[Desktop Action ");
        if crate::text::chars_eq(section.as_slice(), header.as_slice()) {
            match Self::build_desktop_entry(fields) {
                Ok(e) => {
                    *main = Some(e);
                    Ok(())
                },
                Err(err) => Err(err),
            }
        } else if crate::text::starts_with_chars(section.as_slice(), prefix.as_slice())
            && action.len() > 0 {
            match Self::build_desktop_action(fields) {
                Ok(a) => {
                    let ghost before = action_map(actions.map());
                    let id = string_of(action.as_slice());
                    let ghost av = a@;
                    actions.insert(id, a);
                    assert(action_map(actions.map()) =~= before.insert(action@, av));
                    Ok(())
                },
                Err(_) => Ok(()),
            }
        } else {
            Ok(())
        }
    }

    /// Reads one line.
    fn read_line(
        section: &mut Vec<char>,
        action: &mut Vec<char>,
        fields: &mut StrMap<String>,
        main: &mut Option<DesktopEntry>,
        actions: &mut StrMap<DesktopAction>,
        raw: &[char],
    ) -> (r: Result<(), DesktopError>)
        ensures
            match r {
                Ok(()) => desktop_step(
                    Ok(st_of(old(section)@, old(action)@, *old(fields), *old(main), *old(actions))),
                    raw@,
                ) == Ok::<ParseSt, DesktopError>(
                    st_of(final(section)@, final(action)@, *final(fields), *final(main), *final(actions)),
                ),
                Err(e) => desktop_step(
                    Ok(st_of(old(section)@, old(action)@, *old(fields), *old(main), *old(actions))),
                    raw@,
                ) == Err::<ParseSt, DesktopError>(e),
            },
    {
        let line = trim_chars(raw);
        let n = line.len();
        if n == 0 || line[0] == '#' {
            return Ok(());
        }
        if line[0] == '[' && line[n - 1] == ']' {
            match Self::flush_section(section, action, fields, main, actions) {
                Err(e) => {
                    return Err(e);
                },
                Ok(()) => {},
            }
            let prefix = chars_of("[Desktop Action ");
            proof {
                reveal_strlit("[Desktop Action ");
            }
            if crate::text::starts_with_chars(line.as_slice(), prefix.as_slice()) {
                let stripped = strip_prefix_all_chars(line.as_slice(), prefix.as_slice());
                *action = strip_trailing_chars(stripped.as_slice(), ']');
            }
            *section = line;
            fields.clear();
            assert(field_map(fields.map()) =~= Map::<Seq<char>, Seq<char>>::empty());
            return Ok(());
        }
        match crate::text::find_char(line.as_slice(), '=') {
            None => Ok(()),
            Some(eq) => {
                proof {
                    crate::text::lemma_index_of(line@, '=');
                }
                let key = crate::text::slice_subrange(line.as_slice(), 0, eq);
                let value = crate::text::slice_subrange(line.as_slice(), eq + 1, n);
                assert(key@ == line@.take(eq as int));
                assert(value@ == line@.skip(eq as int + 1));
                let k = trim_chars(key.as_slice());
                let v = trim_chars(value.as_slice());
                let ghost before = field_map(fields.map());
                fields.insert(string_of(k.as_slice()), string_of(v.as_slice()));
                assert(field_map(fields.map()) =~= before.insert(k@, v@));
                Ok(())
            },
        }
    }

    /// Parses the text of a desktop file.
    pub fn parse_contents(contents: &str) -> (r: Result<DesktopFile, DesktopError>)
        ensures
            match r {
                Ok(f) => parse_contents_spec(contents@) == Ok::<FileView, DesktopError>(f@),
                Err(e) => parse_contents_spec(contents@) == Err::<FileView, DesktopError>(e),
            },
    {
        let cs = chars_of(contents);
        let ls = lines_of(cs.as_slice());
        let ghost lv = ls.deep_view();
        let mut section: Vec<char> = Vec::new();
        let mut action: Vec<char> = Vec::new();
        let mut fields: StrMap<String> = StrMap::new();
        let mut main: Option<DesktopEntry> = None;
        let mut actions: StrMap<DesktopAction> = StrMap::new();
        let mut k: usize = 0;
        assert(lv.take(0) =~= Seq::<Seq<char>>::empty());
        assert(field_map(fields.map()) =~= Map::<Seq<char>, Seq<char>>::empty());
        assert(action_map(actions.map()) =~= Map::<Seq<char>, ActionView>::empty());
        assert(st_of(section@, action@, fields, main, actions) == initial_st());
        while k < ls.len()
            invariant
                0 <= k <= ls@.len(),
                lv == ls.deep_view(),
                lv == lines(contents@),
                desktop_fold(lv.take(k as int), Ok(initial_st())) == Ok::<ParseSt, DesktopError>(
                    st_of(section@, action@, fields, main, actions),
                ),
            decreases ls@.len() - k,
        {
            assert(lv[k as int] == ls@[k as int]@);
            assert(lv.take(k + 1).drop_last() =~= lv.take(k as int));
            match Self::read_line(
                &mut section,
                &mut action,
                &mut fields,
                &mut main,
                &mut actions,
                ls[k].as_slice(),
            ) {
                Err(e) => {
                    proof {
                        lemma_fold_err(lv, (k + 1) as int, e);
                    }
                    assert(lv.take(ls@.len() as int) =~= lv);
                    return Err(e);
                },
                Ok(()) => {},
            }
            k = k + 1;
        }
        assert(lv.take(ls@.len() as int) =~= lv);
        match Self::flush_section(&section, &action, &fields, &mut main, &mut actions) {
            Err(e) => Err(e),
            Ok(()) => {
                let f = DesktopFile { main_entry: main, actions };
                Ok(f)
            },
        }
    }
}

/// Once reading has failed, it stays failed.
proof fn lemma_fold_err(ls: Seq<Seq<char>>, k: int, e: DesktopError)
    requires
        0 <= k <= ls.len(),
        desktop_fold(ls.take(k), Ok(initial_st())) == Err::<ParseSt, DesktopError>(e),
    ensures
        desktop_fold(ls, Ok(initial_st())) == Err::<ParseSt, DesktopError>(e),
    decreases ls.len() - k,
{
    if k < ls.len() {
        assert(ls.take(k + 1).drop_last() =~= ls.take(k));
        lemma_fold_err(ls, k + 1, e);
    } else {
        assert(ls.take(k) =~= ls);
    }
}

} // verus!
