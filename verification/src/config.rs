//! The configuration of the opener: selector settings, selector profiles
//! and the texts used to present the applications.
use vstd::prelude::*;
use crate::desktop_parser::opt_view;
use crate::strmap::StrMap;
use crate::text::{push_string, to_string_of};

verus! {

/// How the application picker is chosen and run.
#[derive(Debug, Clone)]
pub struct SelectorSettings {
    pub enable_selector: bool,
    pub selector: String,
    pub term_exec_args: Option<String>,
    pub expand_wildcards: bool,
}

impl Default for SelectorSettings {
    /// The selector is enabled and runs rofi in dmenu mode, with `-e` for
    /// terminal programs; wildcards are not expanded.
    fn default() -> (r: Self)
        ensures
            r.enable_selector,
            r.selector@ == "rofi -dmenu -i -p 'Open With: '"@,
            opt_view(r.term_exec_args) == Some("-e"@),
            !r.expand_wildcards,
    {
        SelectorSettings {
            enable_selector: true,
            selector: to_string_of("rofi -dmenu -i -p 'Open With: '"),
            term_exec_args: Some(to_string_of("-e")),
            expand_wildcards: false,
        }
    }
}

/// How one selector program is run and how entries are shown in it.
#[derive(Debug, Clone)]
pub struct SelectorProfile {
    pub command: String,
    pub args: Vec<String>,
    pub env: StrMap<String>,
    pub entry_template: String,
    pub marker_default: Option<String>,
    pub marker_xdg: Option<String>,
    pub marker_available: Option<String>,
    pub prompt_template: Option<String>,
    pub header_template: Option<String>,
}

impl Default for SelectorProfile {
    /// Everything empty or absent.
    fn default() -> (r: Self)
        ensures
            r.command@ == Seq::<char>::empty(),
            r.args@.len() == 0,
            r.env.map() == Map::<Seq<char>, String>::empty(),
            r.entry_template@ == Seq::<char>::empty(),
            r.marker_default is None,
            r.marker_xdg is None,
            r.marker_available is None,
            r.prompt_template is None,
            r.header_template is None,
    {
        SelectorProfile {
            command: String::new(),
            args: Vec::new(),
            env: StrMap::new(),
            entry_template: String::new(),
            marker_default: None,
            marker_xdg: None,
            marker_available: None,
            prompt_template: None,
            header_template: None,
        }
    }
}

/// The whole configuration.
#[derive(Debug, Clone)]
pub struct Config {
    pub selector: SelectorSettings,
    pub selector_profiles: StrMap<SelectorProfile>,
    pub marker_default: String,
    pub marker_xdg: String,
    pub marker_available: String,
    pub prompt_template: String,
    pub header_template: String,
}

/// The arguments of the default fzf profile.
pub open spec fn fzf_args() -> Seq<Seq<char>> {
    seq![
        "--prompt"@,
        "{prompt}"@,
        "--height=40%"@,
        "--reverse"@,
        "--header={header}"@,
        "--cycle"@,
    ]
}

/// The arguments of the default fuzzel profile.
pub open spec fn fuzzel_args() -> Seq<Seq<char>> {
    seq!["--dmenu"@, "--prompt"@, "{prompt}"@, "--index"@, "--log-level=info"@]
}

/// The default fzf profile: `fzf` with `fzf_args`, entries as
/// `{marker} {name}{comment}`, the configuration's markers and templates.
pub open spec fn is_default_fzf(p: SelectorProfile) -> bool {
    &&& p.command@ == "fzf"@
    &&& p.args.deep_view() == fzf_args()
    &&& p.env.map() == Map::<Seq<char>, String>::empty()
    &&& p.entry_template@ == "{marker} {name}{comment}"@
    &&& p.marker_default is None
    &&& p.marker_xdg is None
    &&& p.marker_available is None
    &&& p.prompt_template is None
    &&& p.header_template is None
}

/// The default fuzzel profile: `fuzzel` with `fuzzel_args`, entries as
/// `{marker}{name}{comment}`, with markers of its own.
pub open spec fn is_default_fuzzel(p: SelectorProfile) -> bool {
    &&& p.command@ == "fuzzel"@
    &&& p.args.deep_view() == fuzzel_args()
    &&& p.env.map() == Map::<Seq<char>, String>::empty()
    &&& p.entry_template@ == "{marker}{name}{comment}"@
    &&& opt_view(p.marker_default) == Some("★"@)
    &&& opt_view(p.marker_xdg) == Some("▶"@)
    &&& opt_view(p.marker_available) == Some("   "@)
    &&& p.prompt_template is None
    &&& p.header_template is None
}

/// Builds a list of strings from string slices.
fn strings_of(items: &[&str]) -> (r: Vec<String>)
    ensures
        r.deep_view() == items@.map_values(|s: &str| s@),
{
    let mut r: Vec<String> = Vec::new();
    let mut i: usize = 0;
    while i < items.len()
        invariant
            i <= items@.len(),
            r.deep_view() == items@.take(i as int).map_values(|s: &str| s@),
        decreases items@.len() - i,
    {
        push_string(&mut r, to_string_of(items[i]));
        i = i + 1;
        assert(items@.take(i as int).map_values(|s: &str| s@) =~= items@.take(i - 1).map_values(
            |s: &str| s@,
        ).push(items@[i - 1]@));
    }
    assert(items@.take(items@.len() as int) == items@);
    r
}

impl Default for Config {
    /// The default settings, the fzf and fuzzel profiles, the markers `★ `,
    /// `▶ ` and two spaces, and the default prompt and header.
    fn default() -> (r: Self)
        ensures
            r.selector.enable_selector,
            r.selector.selector@ == "rofi -dmenu -i -p 'Open With: '"@,
            opt_view(r.selector.term_exec_args) == Some("-e"@),
            !r.selector.expand_wildcards,
            r.selector_profiles.map().dom() == set!["fzf"@, "fuzzel"@],
            is_default_fzf(r.selector_profiles.map()["fzf"@]),
            is_default_fuzzel(r.selector_profiles.map()["fuzzel"@]),
            r.marker_default@ == "★ "@,
            r.marker_xdg@ == "▶ "@,
            r.marker_available@ == "  "@,
            r.prompt_template@ == "Open '{file}' with: "@,
            r.header_template@ == "★=Default ▶=XDG Associated  =Available"@,
    {
        let mut selector_profiles: StrMap<SelectorProfile> = StrMap::new();
        let fzf_items: [&str; 6] = [
            "--prompt",
            "{prompt}",
            "--height=40%",
            "--reverse",
            "--header={header}",
            "--cycle",
        ];
        let fzf = SelectorProfile {
            command: to_string_of("fzf"),
            args: strings_of(&fzf_items),
            env: StrMap::new(),
            entry_template: to_string_of("{marker} {name}{comment}"),
            marker_default: None,
            marker_xdg: None,
            marker_available: None,
            prompt_template: None,
            header_template: None,
        };
        assert(fzf.args.deep_view() =~= fzf_args());
        assert(is_default_fzf(fzf));
        let ghost fzf_ghost = fzf;
        selector_profiles.insert(to_string_of("fzf"), fzf);
        let fuzzel_items: [&str; 5] = [
            "--dmenu",
            "--prompt",
            "{prompt}",
            "--index",
            "--log-level=info",
        ];
        let fuzzel = SelectorProfile {
            command: to_string_of("fuzzel"),
            args: strings_of(&fuzzel_items),
            env: StrMap::new(),
            entry_template: to_string_of("{marker}{name}{comment}"),
            marker_default: Some(to_string_of("★")),
            marker_xdg: Some(to_string_of("▶")),
            marker_available: Some(to_string_of("   ")),
            prompt_template: None,
            header_template: None,
        };
        assert(fuzzel.args.deep_view() =~= fuzzel_args());
        selector_profiles.insert(to_string_of("fuzzel"), fuzzel);
        proof {
            reveal_strlit("fzf");
            reveal_strlit("fuzzel");
            assert(selector_profiles.map().dom() =~= set!["fzf"@, "fuzzel"@]);
            assert("fzf"@.len() != "fuzzel"@.len());
            assert(selector_profiles.map()["fzf"@] == fzf_ghost);
        }
        Config {
            selector: SelectorSettings::default(),
            selector_profiles,
            marker_default: to_string_of("★ "),
            marker_xdg: to_string_of("▶ "),
            marker_available: to_string_of("  "),
            prompt_template: to_string_of("Open '{file}' with: "),
            header_template: to_string_of("★=Default ▶=XDG Associated  =Available"),
        }
    }
}

/// The marker that `marker_type` names, taken from the profile when it
/// sets one and from the configuration otherwise; an unknown type gets the
/// configuration's `available` marker.
pub open spec fn marker_spec(c: Config, p: SelectorProfile, marker_type: Seq<char>) -> Seq<char> {
    if marker_type == "default"@ {
        match p.marker_default {
            Some(m) => m@,
            None => c.marker_default@,
        }
    } else if marker_type == "xdg"@ {
        match p.marker_xdg {
            Some(m) => m@,
            None => c.marker_xdg@,
        }
    } else if marker_type == "available"@ {
        match p.marker_available {
            Some(m) => m@,
            None => c.marker_available@,
        }
    } else {
        c.marker_available@
    }
}

/// The prompt template of a profile, or else of the configuration.
pub open spec fn prompt_spec(c: Config, p: SelectorProfile) -> Seq<char> {
    match p.prompt_template {
        Some(t) => t@,
        None => c.prompt_template@,
    }
}

/// The header template of a profile, or else of the configuration.
pub open spec fn header_spec(c: Config, p: SelectorProfile) -> Seq<char> {
    match p.header_template {
        Some(t) => t@,
        None => c.header_template@,
    }
}

impl Config {
    /// The selector profile called `name`.
    pub fn get_selector_profile(&self, name: &str) -> (r: Option<&SelectorProfile>)
        ensures
            match r {
                Some(p) => self.selector_profiles.map().contains_key(name@) && *p
                    == self.selector_profiles.map()[name@],
                None => !self.selector_profiles.map().contains_key(name@),
            },
    {
        self.selector_profiles.get(name)
    }

    /// The marker of type `marker_type` (`default`, `xdg` or `available`).
    pub fn get_marker<'a>(&'a self, selector_profile: &'a SelectorProfile, marker_type: &str) -> (r:
        &'a str)
        ensures
            r@ == marker_spec(*self, *selector_profile, marker_type@),
    {
        if crate::text::str_eq(marker_type, "default") {
            match &selector_profile.marker_default {
                Some(m) => m.as_str(),
                None => self.marker_default.as_str(),
            }
        } else if crate::text::str_eq(marker_type, "xdg") {
            match &selector_profile.marker_xdg {
                Some(m) => m.as_str(),
                None => self.marker_xdg.as_str(),
            }
        } else if crate::text::str_eq(marker_type, "available") {
            match &selector_profile.marker_available {
                Some(m) => m.as_str(),
                None => self.marker_available.as_str(),
            }
        } else {
            self.marker_available.as_str()
        }
    }

    /// The prompt template to use with a profile.
    pub fn get_prompt_template<'a>(&'a self, selector_profile: &'a SelectorProfile) -> (r: &'a str)
        ensures
            r@ == prompt_spec(*self, *selector_profile),
    {
        match &selector_profile.prompt_template {
            Some(t) => t.as_str(),
            None => self.prompt_template.as_str(),
        }
    }

    /// The header template to use with a profile.
    pub fn get_header_template<'a>(&'a self, selector_profile: &'a SelectorProfile) -> (r: &'a str)
        ensures
            r@ == header_spec(*self, *selector_profile),
    {
        match &selector_profile.header_template {
            Some(t) => t.as_str(),
            None => self.header_template.as_str(),
        }
    }
}

} // verus!
