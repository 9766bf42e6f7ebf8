//! The command-line arguments, as plain values.
use vstd::prelude::*;
use crate::text::{chars_of, lower_ascii, lower_ascii_chars, string_of, to_string_of, trim, trim_chars};

verus! {

/// Which selector profile to use.
#[derive(Debug, Clone, PartialEq, Eq)]
pub enum SelectorKind {
    /// Pick one by what is installed.
    Auto,
    /// The profile of this name.
    Named(String),
}

/// A selector kind, as text.
pub enum SelectorKindView {
    Auto,
    Named(Seq<char>),
}

impl View for SelectorKind {
    type V = SelectorKindView;

    open spec fn view(&self) -> SelectorKindView {
        match self {
            SelectorKind::Auto => SelectorKindView::Auto,
            SelectorKind::Named(n) => SelectorKindView::Named(n@),
        }
    }
}

/// The selector kind that `value` names: blank is refused; `auto`, `fzf`
/// and `fuzzel` are read in any case; any other name is kept trimmed.
pub open spec fn selector_kind_spec(value: Seq<char>) -> Result<SelectorKindView, Seq<char>> {
    let t = trim(value);
    let lower = lower_ascii(t);
    if t.len() == 0 {
        Err("Selector value cannot be empty"@)
    } else if lower == "auto"@ {
        Ok(SelectorKindView::Auto)
    } else if lower == "fzf"@ {
        Ok(SelectorKindView::Named("fzf"@))
    } else if lower == "fuzzel"@ {
        Ok(SelectorKindView::Named("fuzzel"@))
    } else {
        Ok(SelectorKindView::Named(t))
    }
}

impl SelectorKind {
    /// Reads a selector kind from the command line.
    pub fn parse(value: &str) -> (r: Result<Self, String>)
        ensures
            match selector_kind_spec(value@) {
                Ok(k) => r is Ok && r->Ok_0@ == k,
                Err(m) => r is Err && r->Err_0@ == m,
            },
    {
        let t = trim_chars(chars_of(value).as_slice());
        if t.len() == 0 {
            return Err(to_string_of("Selector value cannot be empty"));
        }
        let lower = lower_ascii_chars(t.as_slice());
        if crate::text::chars_eq(lower.as_slice(), chars_of("auto").as_slice()) {
            Ok(SelectorKind::Auto)
        } else if crate::text::chars_eq(lower.as_slice(), chars_of("fzf").as_slice()) {
            Ok(SelectorKind::Named(to_string_of("fzf")))
        } else if crate::text::chars_eq(lower.as_slice(), chars_of("fuzzel").as_slice()) {
            Ok(SelectorKind::Named(to_string_of("fuzzel")))
        } else {
            Ok(SelectorKind::Named(string_of(t.as_slice())))
        }
    }
}

/// The arguments of `open`.
#[derive(Debug, Clone)]
pub struct OpenArgs {
    /// Resource to open: a filesystem path or a URI.
    pub target: Option<String>,
    /// Selector profile to use.
    pub selector: SelectorKind,
    /// Output JSON instead of interactive mode.
    pub json: bool,
    /// Show desktop actions as separate entries.
    pub actions: bool,
    /// Clear the desktop file cache.
    pub clear_cache: bool,
    /// Verbose output.
    pub verbose: bool,
    /// Show build information.
    pub build_info: bool,
    /// Generate the default configuration file.
    pub generate_config: bool,
    /// Path to the configuration file.
    pub config: Option<String>,
    /// Open directly when only one application is available.
    pub auto_open_single: bool,
    /// Override of whether the selector is enabled.
    pub enable_selector: Option<bool>,
    /// Override of the selector command.
    pub selector_command: Option<String>,
    /// Override of the terminal arguments given to selector commands.
    pub term_exec_args: Option<String>,
}

/// The message given when `open` has nothing to do.
pub open spec fn missing_target_text() -> Seq<char> {
    "A target argument is required unless using --build-info, --clear-cache, or --generate-config"@
}

impl OpenArgs {
    /// A target is required unless build information, cache clearing or
    /// configuration generation is asked for.
    pub fn validate(&self) -> (r: Result<(), String>)
        ensures
            r is Ok <==> (self.build_info || self.clear_cache || self.generate_config
                || self.target is Some),
            r is Err ==> r->Err_0@ == missing_target_text(),
    {
        if !self.build_info && !self.clear_cache && !self.generate_config && self.target.is_none() {
            return Err(
                to_string_of(
                    "A target argument is required unless using --build-info, --clear-cache, or --generate-config",
                ),
            );
        }
        Ok(())
    }

    /// The target, when one is given.
    pub fn get_target(&self) -> (r: Option<&str>)
        ensures
            match self.target {
                Some(t) => r is Some && r->0@ == t@,
                None => r is None,
            },
    {
        match &self.target {
            Some(t) => Some(t.as_str()),
            None => None,
        }
    }
}

/// The arguments of `set` and `add`.
#[derive(Debug, Clone)]
pub struct EditArgs {
    /// MIME type or file extension to update.
    pub mime: String,
    /// Desktop file to apply.
    pub handler: String,
    /// Expand wildcard patterns to the MIME keys already present.
    pub expand_wildcards: bool,
}

/// The arguments of `remove`.
#[derive(Debug, Clone)]
pub struct RemoveArgs {
    /// MIME type or file extension to update.
    pub mime: String,
    /// Desktop file to remove.
    pub handler: String,
    /// Expand wildcard patterns to the MIME keys already present.
    pub expand_wildcards: bool,
}

/// The arguments of `unset`.
#[derive(Debug, Clone)]
pub struct UnsetArgs {
    /// MIME type or file extension to update.
    pub mime: String,
    /// Expand wildcard patterns to the MIME keys already present.
    pub expand_wildcards: bool,
}

/// The arguments of `list`.
#[derive(Debug, Clone)]
pub struct ListArgs {
    /// Output handler info as JSON.
    pub json: bool,
}

/// The arguments of `get`.
#[derive(Debug, Clone)]
pub struct GetArgs {
    /// MIME type or file extension to query.
    pub mime: String,
    /// Output as JSON.
    pub json: bool,
    /// Show desktop actions as separate entries.
    pub actions: bool,
}

} // verus!
