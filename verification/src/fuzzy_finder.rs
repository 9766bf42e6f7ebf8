//! Presenting applications in a fuzzy finder (fzf, fuzzel, ...) and
//! reading back which one was chosen.
use vstd::prelude::*;
use crate::application_finder::{first_where, ApplicationEntry};
use crate::config::{header_spec, marker_spec, prompt_spec, Config, SelectorProfile};
use crate::template::{render_spec, TemplateEngine};
use crate::text::{chars_of, contains_string, parse_usize_spec, str_eq, string_of, trim, trim_chars, to_string_of};
pub use crate::text::parse_index;

verus! {

/// What to run for a fuzzy finder: the program, its arguments, the
/// environment to add, and the lines to write to its input.
#[derive(Debug)]
pub struct FinderInvocation {
    pub command: String,
    pub args: Vec<String>,
    pub env: Vec<(String, String)>,
    pub entries: Vec<String>,
}

/// Why a fuzzy finder cannot be run.
#[derive(Debug, Clone)]
pub enum FinderError {
    /// No selector profile carries this name.
    NoConfiguration(String),
    /// Neither fzf nor fuzzel is both installed and configured.
    NoneAvailable,
}

impl FinderError {
    /// The message that describes the error.
    pub fn message(&self) -> (r: String)
        ensures
            match self {
                FinderError::NoConfiguration(name) => r@ == "No configuration found for fuzzy finder: "@
                    + name@,
                FinderError::NoneAvailable => r@ == "No fuzzy finder found. Install fzf or fuzzel."@,
            },
    {
        match self {
            FinderError::NoConfiguration(name) => {
                let mut m = to_string_of("No configuration found for fuzzy finder: ");
                m.push_str(name.as_str());
                m
            },
            FinderError::NoneAvailable => to_string_of("No fuzzy finder found. Install fzf or fuzzel."),
        }
    }
}

/// The kind of marker an application gets: `default`, else `xdg`, else
/// `available`.
pub open spec fn marker_type(a: ApplicationEntry) -> Seq<char> {
    if a.is_default {
        "default"@
    } else if a.is_xdg {
        "xdg"@
    } else {
        "available"@
    }
}

/// The comment part of an entry: ` - ` and the comment, or nothing.
pub open spec fn comment_text(c: Option<String>) -> Seq<char> {
    match c {
        Some(s) => " - "@ + s@,
        None => Seq::empty(),
    }
}

/// The variables an entry is rendered with.
pub open spec fn entry_vars(marker: Seq<char>, name: Seq<char>, comment: Seq<char>) -> Map<
    Seq<char>,
    Seq<char>,
> {
    Map::<Seq<char>, Seq<char>>::empty().insert("marker"@, marker).insert("name"@, name).insert(
        "comment"@,
        comment,
    )
}

/// The line that shows application `a` in a finder run with profile `p`.
pub open spec fn display_spec(c: Config, p: SelectorProfile, a: ApplicationEntry) -> Seq<char> {
    render_spec(
        entry_vars(marker_spec(c, p, marker_type(a)), a.name@, comment_text(a.comment)),
        p.entry_template@,
    )
}

/// The prompt shown for the file `file_name`.
pub open spec fn prompt_text(c: Config, p: SelectorProfile, file_name: Seq<char>) -> Seq<char> {
    render_spec(
        Map::<Seq<char>, Seq<char>>::empty().insert("file"@, file_name),
        prompt_spec(c, p),
    )
}

/// The variables the arguments of a profile are rendered with.
pub open spec fn arg_vars(c: Config, p: SelectorProfile, file_name: Seq<char>) -> Map<
    Seq<char>,
    Seq<char>,
> {
    Map::<Seq<char>, Seq<char>>::empty().insert("file"@, file_name).insert(
        "prompt"@,
        prompt_text(c, p, file_name),
    ).insert("header"@, header_spec(c, p))
}

/// Runs the configured fuzzy finders over a list of applications.
#[derive(Debug)]
pub struct FuzzyFinderRunner {
    pub config: Config,
}

/// The index of the application that a finder's output names: nothing
/// when the finder failed; with fuzzel in index mode, the index it prints;
/// otherwise the first application whose line is the trimmed output.
pub open spec fn selection_spec(
    c: Config,
    p: SelectorProfile,
    apps: Seq<ApplicationEntry>,
    success: bool,
    output: Seq<char>,
) -> Option<int> {
    if !success {
        None
    } else if p.command@ == "fuzzel"@ && p.args.deep_view().contains("--index"@) {
        match parse_usize_spec(trim(output)) {
            Some(v) => Some(v as int),
            None => None,
        }
    } else {
        first_where(apps.len() as int, shows(c, p, apps, trim(output)))
    }
}

/// Application `i` is shown by the line `line`.
pub open spec fn shows(c: Config, p: SelectorProfile, apps: Seq<ApplicationEntry>, line: Seq<char>) -> spec_fn(
    int,
) -> bool {
    |i: int| display_spec(c, p, apps[i]) == line
}

impl FuzzyFinderRunner {
    /// A runner with this configuration.
    pub fn new(config: Config) -> (r: Self)
        ensures
            r.config == config,
    {
        FuzzyFinderRunner { config }
    }

    /// The line that shows `app` in a finder run with `profile`.
    pub fn entry_display(&self, profile: &SelectorProfile, app: &ApplicationEntry) -> (r: String)
        ensures
            r@ == display_spec(self.config, *profile, *app),
    {
        let marker = if app.is_default {
            self.config.get_marker(profile, "default")
        } else if app.is_xdg {
            self.config.get_marker(profile, "xdg")
        } else {
            self.config.get_marker(profile, "available")
        };
        let comment = match &app.comment {
            Some(c) => {
                let mut t = to_string_of(" - ");
                t.push_str(c.as_str());
                t
            },
            None => String::new(),
        };
        let mut engine = TemplateEngine::new();
        engine.set("marker", marker).set("name", app.name.as_str()).set("comment", comment.as_str());
        engine.render(profile.entry_template.as_str())
    }

    /// What to run to let the user pick among `applications` for the file
    /// `file_name` with the finder `fuzzer_name`: the profile's command,
    /// its arguments rendered with the file, prompt and header, its
    /// environment, and one line per application.
    pub fn prepare(&self, applications: &[ApplicationEntry], file_name: &str, fuzzer_name: &str) -> (r:
        Result<FinderInvocation, FinderError>)
        ensures
            match r {
                Ok(inv) => {
                    &&& self.config.selector_profiles.map().contains_key(fuzzer_name@)
                    &&& {
                        let p = self.config.selector_profiles.map()[fuzzer_name@];
                        &&& inv.command@ == p.command@
                        &&& inv.args@.len() == p.args@.len()
                        &&& forall|i: int|
                            0 <= i < p.args@.len() ==> #[trigger] inv.args@[i]@ == render_spec(
                                arg_vars(self.config, p, file_name@),
                                p.args@[i]@,
                            )
                        &&& inv.env@.len() == p.env.pairs().len()
                        &&& forall|i: int|
                            0 <= i < inv.env@.len() ==> (#[trigger] inv.env@[i]).0@
                                == p.env.pairs()[i].0 && inv.env@[i].1@ == p.env.pairs()[i].1@
                        &&& inv.entries@.len() == applications@.len()
                        &&& forall|i: int|
                            0 <= i < applications@.len() ==> #[trigger] inv.entries@[i]@
                                == display_spec(self.config, p, applications@[i])
                    }
                },
                Err(FinderError::NoConfiguration(name)) => !self.config.selector_profiles.map().contains_key(
                    fuzzer_name@,
                ) && name@ == fuzzer_name@,
                Err(FinderError::NoneAvailable) => false,
            },
    {
        let profile = match self.config.get_selector_profile(fuzzer_name) {
            Some(p) => p,
            None => {
                return Err(FinderError::NoConfiguration(to_string_of(fuzzer_name)));
            },
        };
        let mut engine = TemplateEngine::new();
        engine.set("file", file_name);
        let prompt = engine.render(self.config.get_prompt_template(profile));
        let header = self.config.get_header_template(profile);
        engine.set("prompt", prompt.as_str()).set("header", header);
        let args = engine.render_args(profile.args.as_slice());
        let mut env: Vec<(String, String)> = Vec::new();
        let n = profile.env.len();
        let mut k: usize = 0;
        while k < n
            invariant
                n == profile.env.pairs().len(),
                k <= n,
                env@.len() == k,
                forall|i: int|
                    0 <= i < k ==> (#[trigger] env@[i]).0@ == profile.env.pairs()[i].0 && env@[i].1@
                        == profile.env.pairs()[i].1@,
            decreases n - k,
        {
            env.push((profile.env.key_at(k).clone(), profile.env.value_at(k).clone()));
            k = k + 1;
        }
        let mut entries: Vec<String> = Vec::new();
        let mut i: usize = 0;
        while i < applications.len()
            invariant
                i <= applications@.len(),
                entries@.len() == i,
                forall|j: int|
                    0 <= j < i ==> #[trigger] entries@[j]@ == display_spec(
                        self.config,
                        *profile,
                        applications@[j],
                    ),
            decreases applications@.len() - i,
        {
            entries.push(self.entry_display(profile, &applications[i]));
            i = i + 1;
        }
        Ok(FinderInvocation { command: profile.command.clone(), args, env, entries })
    }

    /// The fuzzy finder to use, given whether fzf and fuzzel are installed:
    /// fzf when it is installed and has a profile, else fuzzel when it is
    /// installed and has a profile.
    pub fn detect_available(&self, fzf_installed: bool, fuzzel_installed: bool) -> (r: Result<
        String,
        FinderError,
    >)
        ensures
            ({
                let fzf = fzf_installed && self.config.selector_profiles.map().contains_key("fzf"@);
                let fuzzel = fuzzel_installed && self.config.selector_profiles.map().contains_key(
                    "fuzzel"@,
                );
                &&& fzf ==> r is Ok && r->Ok_0@ == "fzf"@
                &&& !fzf && fuzzel ==> r is Ok && r->Ok_0@ == "fuzzel"@
                &&& !fzf && !fuzzel ==> r is Err && r->Err_0 is NoneAvailable
            }),
    {
        if fzf_installed && self.config.get_selector_profile("fzf").is_some() {
            Ok(to_string_of("fzf"))
        } else if fuzzel_installed && self.config.get_selector_profile("fuzzel").is_some() {
            Ok(to_string_of("fuzzel"))
        } else {
            Err(FinderError::NoneAvailable)
        }
    }

    /// The application the finder chose, from whether it succeeded and
    /// what it printed.
    pub fn resolve_selection(
        &self,
        profile: &SelectorProfile,
        applications: &[ApplicationEntry],
        success: bool,
        output: &str,
    ) -> (r: Option<usize>)
        ensures
            match selection_spec(self.config, *profile, applications@, success, output@) {
                Some(k) => r is Some && r->0 == k,
                None => r is None,
            },
    {
        if !success {
            return None;
        }
        let selected = string_of(trim_chars(chars_of(output).as_slice()).as_slice());
        let index_flag = to_string_of("--index");
        if str_eq(profile.command.as_str(), "fuzzel") && contains_string(&profile.args, &index_flag) {
            return parse_index(selected.as_str());
        }
        let ghost pred = shows(self.config, *profile, applications@, trim(output@));
        let mut i: usize = 0;
        while i < applications.len()
            invariant
                i <= applications@.len(),
                selected@ == trim(output@),
                pred == shows(self.config, *profile, applications@, trim(output@)),
                success,
                !(profile.command@ == "fuzzel"@ && profile.args.deep_view().contains("--index"@)),
                first_where(i as int, pred) is None,
            decreases applications@.len() - i,
        {
            let display = self.entry_display(profile, &applications[i]);
            if str_eq(display.as_str(), selected.as_str()) {
                proof {
                    assert(pred(i as int));
                    crate::application_finder::lemma_first_where_stable(
                        i + 1,
                        applications@.len() as int,
                        pred,
                    );
                }
                return Some(i);
            }
            assert(!pred(i as int));
            i = i + 1;
        }
        None
    }
}

} // verus!
