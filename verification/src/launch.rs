//! The decisions taken when a resource is opened: which applications are
//! offered, what is done with them, and which terminal runs the ones that
//! need one. Running programs and reading the environment is left to the
//! caller, which hands in what it observed.
use vstd::prelude::*;
use crate::application_finder::{
    app_views, apps_for_mime, first_where, lemma_first_where_bounds, lemma_first_where_least,
    lemma_first_where_stable,
    terminal_apps, terminal_flag, AppView, ApplicationEntry, ApplicationFinder,
};
use crate::cli::{SelectorKind, SelectorKindView};
use crate::config::{Config, SelectorSettings};
use crate::executor::{base_spec, exec_error_text, ApplicationExecutor, ExecError};
use crate::mime_associations::associations_for;
use crate::regex_handlers::{
    any_match, application_from_regex, first_is_regex_handler, matching, regex_app_spec,
    RegexHandlerStore,
};
use crate::shell::shell_split;
use crate::target::{target_text, LaunchTarget};
use crate::text::{has_prefix, to_string_of};

verus! {

/// Why a resource cannot be opened.
#[derive(Debug)]
pub enum LaunchError {
    /// No resource was named.
    NoTarget,
    /// Nothing can open this MIME type.
    NoApplications(String),
    /// No terminal emulator is known.
    NoTerminal,
    /// The terminal emulator's `Exec` line gives no command.
    TerminalCommand(String, ExecError),
}

/// The message that describes a launch error.
pub open spec fn launch_error_text(e: LaunchError) -> Seq<char> {
    match e {
        LaunchError::NoTarget => "No target provided"@,
        LaunchError::NoApplications(m) => "No applications found for MIME type: "@ + m@,
        LaunchError::NoTerminal => "No terminal emulator found. Install a terminal or associate one with x-scheme-handler/terminal."@,
        LaunchError::TerminalCommand(exec, err) => "Failed to prepare terminal command from `"@ + exec@
            + "`: "@ + exec_error_text(err),
    }
}

impl LaunchError {
    /// The message that describes the error.
    pub fn message(&self) -> (r: String)
        ensures
            r@ == launch_error_text(*self),
    {
        match self {
            LaunchError::NoTarget => to_string_of("No target provided"),
            LaunchError::NoApplications(m) => {
                let mut t = to_string_of("No applications found for MIME type: ");
                t.push_str(m.as_str());
                t
            },
            LaunchError::NoTerminal => to_string_of(
                "No terminal emulator found. Install a terminal or associate one with x-scheme-handler/terminal.",
            ),
            LaunchError::TerminalCommand(exec, err) => {
                let mut t = to_string_of("Failed to prepare terminal command from `");
                t.push_str(exec.as_str());
                t.push_str("`: ");
                t.push_str(err.message().as_str());
                t
            },
        }
    }
}

/// The application of the regex handler that claims `text`, if one does.
pub open spec fn regex_apps(store: RegexHandlerStore, text: Seq<char>) -> Seq<AppView> {
    match first_where(store.handler_seq().len() as int, matching(store.handler_seq(), text)) {
        Some(k) => seq![regex_app_spec(store.handler_seq()[k])],
        None => Seq::empty(),
    }
}

/// The applications the finder offers for `mime`.
pub open spec fn mime_apps(finder: ApplicationFinder, mime: Seq<char>, include_actions: bool) -> Seq<
    AppView,
> {
    apps_for_mime(
        finder.files(),
        associations_for(finder.associations().assoc_pairs(), finder.associations().assoc(), mime),
        mime,
        include_actions,
    )
}

/// The applications offered for a target: the application of the regex
/// handler that claims the target, if any, then those of its MIME type.
pub open spec fn offered_apps(
    finder: ApplicationFinder,
    store: RegexHandlerStore,
    target: LaunchTarget,
    mime: Seq<char>,
    include_actions: bool,
) -> Seq<AppView> {
    regex_apps(store, target_text(target)) + mime_apps(finder, mime, include_actions)
}

/// When some regex handler's pattern matches the target, the application
/// offered first is the entry of the first such handler in priority order,
/// and the applications of the MIME type follow it, in their order; when
/// no handler matches, exactly the applications of the MIME type are
/// offered.
pub proof fn law_regex_handler_offered_first(
    finder: ApplicationFinder,
    store: RegexHandlerStore,
    target: LaunchTarget,
    mime: Seq<char>,
    include_actions: bool,
)
    ensures
        ({
            let hs = store.handler_seq();
            let text = target_text(target);
            let offered = offered_apps(finder, store, target, mime, include_actions);
            let apps = mime_apps(finder, mime, include_actions);
            &&& (exists|i: int| 0 <= i < hs.len() && any_match(#[trigger] hs[i].pattern_texts(), text)) ==> exists|k: int|
                {
                    &&& 0 <= k < hs.len()
                    &&& any_match(#[trigger] hs[k].pattern_texts(), text)
                    &&& forall|i: int| 0 <= i < k ==> !any_match(#[trigger] hs[i].pattern_texts(), text)
                    &&& offered.len() == apps.len() + 1
                    &&& offered[0] == regex_app_spec(hs[k])
                    &&& offered.subrange(1, offered.len() as int) == apps
                }
            &&& (forall|i: int| 0 <= i < hs.len() ==> !any_match(#[trigger] hs[i].pattern_texts(), text))
                ==> offered == apps
        }),
{
    let hs = store.handler_seq();
    let text = target_text(target);
    let p = matching(hs, text);
    let n = hs.len() as int;
    lemma_first_where_bounds(n, p);
    lemma_first_where_least(n, p);
    let offered = offered_apps(finder, store, target, mime, include_actions);
    let apps = mime_apps(finder, mime, include_actions);
    if exists|i: int| 0 <= i < hs.len() && any_match(#[trigger] hs[i].pattern_texts(), text) {
        let i = choose|i: int| 0 <= i < hs.len() && any_match(#[trigger] hs[i].pattern_texts(), text);
        assert(p(i));
        let k = first_where(n, p)->0;
        assert(p(k));
        assert forall|j: int| 0 <= j < k implies !any_match(#[trigger] hs[j].pattern_texts(), text) by {
            assert(!p(j));
        }
        assert(offered == seq![regex_app_spec(hs[k])] + apps);
        assert(offered.subrange(1, offered.len() as int) =~= apps);
    }
    if forall|i: int| 0 <= i < hs.len() ==> !any_match(#[trigger] hs[i].pattern_texts(), text) {
        if first_where(n, p) is Some {
            let k = first_where(n, p)->0;
            assert(p(k));
        }
        assert(offered =~= apps);
    }
}

/// The applications to offer for `target`, of MIME type `mime_type`: the
/// application of the first regex handler (by priority) that claims the
/// target, then those of the MIME type; having none is an error.
pub fn applications_for_target(
    finder: &ApplicationFinder,
    store: &RegexHandlerStore,
    target: &LaunchTarget,
    mime_type: &str,
    include_actions: bool,
) -> (r: Result<Vec<ApplicationEntry>, LaunchError>)
    ensures
        ({
            let all = offered_apps(*finder, *store, *target, mime_type@, include_actions);
            &&& all.len() > 0 ==> r is Ok && app_views(r->Ok_0@) == all
            &&& all.len() == 0 ==> (r matches Err(LaunchError::NoApplications(m)) && m@ == mime_type@)
        }),
{
    let mut found = finder.find_for_mime(mime_type, include_actions);
    let mut applications: Vec<ApplicationEntry> = Vec::new();
    match store.find_handler(target.as_command_argument()) {
        Some(handler) => {
            applications.push(application_from_regex(handler));
        },
        None => {},
    }
    let ghost head = applications@;
    let ghost tail = found@;
    assert(app_views(head) =~= regex_apps(*store, target_text(*target)));
    applications.append(&mut found);
    assert(app_views(applications@) =~= app_views(head) + app_views(tail));
    if applications.len() == 0 {
        return Err(LaunchError::NoApplications(to_string_of(mime_type)));
    }
    Ok(applications)
}

/// What to do once the applications for a resource are known.
#[derive(Debug, Clone, Copy, PartialEq, Eq, Structural)]
pub enum LaunchStep {
    /// Print the target and the applications as JSON.
    PrintJson,
    /// Launch the first application.
    LaunchFirst,
    /// Let the user choose.
    Choose,
}

/// The step to take: JSON when asked for, or when the selector is enabled
/// but the output is not a terminal; with the selector disabled, or with
/// one application only, launch the first; otherwise let the user choose.
pub fn first_step(json: bool, stdout_is_terminal: bool, selector_enabled: bool, count: usize) -> (r:
    LaunchStep)
    ensures
        json || (!stdout_is_terminal && selector_enabled) ==> r == LaunchStep::PrintJson,
        !(json || (!stdout_is_terminal && selector_enabled)) && (!selector_enabled || count == 1)
            ==> r == LaunchStep::LaunchFirst,
        !(json || (!stdout_is_terminal && selector_enabled)) && selector_enabled && count != 1 ==> r
            == LaunchStep::Choose,
{
    if json || (!stdout_is_terminal && selector_enabled) {
        LaunchStep::PrintJson
    } else if !selector_enabled || count == 1 {
        LaunchStep::LaunchFirst
    } else {
        LaunchStep::Choose
    }
}

/// Before running a fuzzy finder: a single application is opened at once
/// when asked to open single ones, or when it comes from a regex handler.
pub fn open_single_directly(applications: &[ApplicationEntry], auto_open_single: bool) -> (r: bool)
    ensures
        r == (applications@.len() == 1 && (auto_open_single || has_prefix(
            applications@[0].desktop_file@,
            "regex-handler-"@,
        ))),
{
    applications.len() == 1 && (auto_open_single || first_is_regex_handler(applications))
}

/// How the user chooses among the applications.
#[derive(Debug)]
pub enum SelectorPlan {
    /// Run the fuzzy finder of this profile.
    Fuzzy(String),
    /// Run the selector these settings describe.
    Selector(SelectorSettings),
}

/// A copy of an optional string.
fn copy_opt(o: &Option<String>) -> (r: Option<String>)
    ensures
        match (o, r) {
            (Some(a), Some(b)) => a@ == b@,
            (None, None) => true,
            _ => false,
        },
{
    match o {
        Some(s) => Some(s.clone()),
        None => None,
    }
}

/// How to choose: without a selector command given on the command line, a
/// selector named on it that is the name of a profile runs that profile's
/// fuzzy finder; a named selector that is no profile's name is run as the
/// selector command; otherwise the configured selector runs.
pub fn selector_plan(kind: &SelectorKind, command_given: bool, config: &Config) -> (r: SelectorPlan)
    ensures
        match (kind@, command_given) {
            (SelectorKindView::Named(n), false) => if config.selector_profiles.map().contains_key(n) {
                r matches SelectorPlan::Fuzzy(f) && f@ == n
            } else {
                r matches SelectorPlan::Selector(s) && s.selector@ == n && s.enable_selector
                    == config.selector.enable_selector && s.expand_wildcards
                    == config.selector.expand_wildcards && match (s.term_exec_args, config.selector.term_exec_args) {
                    (Some(a), Some(b)) => a@ == b@,
                    (None, None) => true,
                    _ => false,
                }
            },
            _ => r matches SelectorPlan::Selector(s) && s.selector@ == config.selector.selector@
                && s.enable_selector == config.selector.enable_selector && s.expand_wildcards
                == config.selector.expand_wildcards && match (s.term_exec_args, config.selector.term_exec_args) {
                (Some(a), Some(b)) => a@ == b@,
                (None, None) => true,
                _ => false,
            },
        },
{
    let selector = match kind {
        SelectorKind::Named(name) if !command_given => {
            if config.get_selector_profile(name.as_str()).is_some() {
                return SelectorPlan::Fuzzy(name.clone());
            }
            name.clone()
        },
        _ => config.selector.selector.clone(),
    };
    SelectorPlan::Selector(
        SelectorSettings {
            enable_selector: config.selector.enable_selector,
            selector,
            term_exec_args: copy_opt(&config.selector.term_exec_args),
            expand_wildcards: config.selector.expand_wildcards,
        },
    )
}

/// The applications that can serve as terminal emulator: the handlers of
/// `x-scheme-handler/terminal`, or when there are none the entries in the
/// category `TerminalEmulator`.
pub open spec fn terminal_candidates(finder: ApplicationFinder) -> Seq<AppView> {
    let handlers = mime_apps(finder, "x-scheme-handler/terminal"@, false);
    if handlers.len() > 0 {
        handlers
    } else {
        terminal_apps(finder.files())
    }
}

/// Candidate `i` does not itself need a terminal.
pub open spec fn standalone(finder: ApplicationFinder, cands: Seq<AppView>) -> spec_fn(int) -> bool {
    |i: int| !terminal_flag(finder.files(), cands[i].desktop_file)
}

/// The terminal emulator used: the first candidate that does not itself
/// need a terminal, or else the first candidate.
pub open spec fn chosen_terminal(finder: ApplicationFinder) -> Option<AppView> {
    let cands = terminal_candidates(finder);
    if cands.len() == 0 {
        None
    } else {
        match first_where(cands.len() as int, standalone(finder, cands)) {
            Some(k) => Some(cands[k]),
            None => Some(cands[0]),
        }
    }
}

/// The command that runs terminal applications: the cleaned words of the
/// `Exec` line of the chosen terminal emulator.
pub fn terminal_launcher(finder: &ApplicationFinder) -> (r: Result<Vec<String>, LaunchError>)
    ensures
        match chosen_terminal(*finder) {
            None => r matches Err(LaunchError::NoTerminal),
            Some(t) => match base_spec(shell_split(t.exec_line)) {
                Ok(parts) => r is Ok && r->Ok_0.deep_view() == parts,
                Err(e) => r matches Err(LaunchError::TerminalCommand(x, f)) && x@ == t.exec_line && f@
                    == e,
            },
        },
{
    let mut candidates = finder.find_for_mime("x-scheme-handler/terminal", false);
    if candidates.len() == 0 {
        candidates = finder.find_terminal_emulators();
    }
    let ghost cands = app_views(candidates@);
    assert(cands == terminal_candidates(*finder));
    if candidates.len() == 0 {
        return Err(LaunchError::NoTerminal);
    }
    let ghost pred = standalone(*finder, cands);
    let mut chosen: usize = 0;
    let mut i: usize = 0;
    let mut found = false;
    while i < candidates.len()
        invariant
            cands == app_views(candidates@),
            cands == terminal_candidates(*finder),
            pred == standalone(*finder, cands),
            i <= candidates@.len(),
            chosen < candidates@.len(),
            !found ==> first_where(i as int, pred) is None && chosen == 0,
            found ==> first_where(candidates@.len() as int, pred) == Some(chosen as int),
        decreases candidates@.len() - i,
    {
        if !found && !finder.requires_terminal(&candidates[i]) {
            proof {
                assert(pred(i as int));
                lemma_first_where_stable(i + 1, candidates@.len() as int, pred);
            }
            chosen = i;
            found = true;
        } else if !found {
            assert(!pred(i as int));
        }
        i = i + 1;
    }
    let exec = &candidates[chosen].exec_line;
    match ApplicationExecutor::base_command_parts(exec.as_str()) {
        Ok(parts) => Ok(parts),
        Err(e) => Err(LaunchError::TerminalCommand(exec.clone(), e)),
    }
}

} // verus!
