//! What is to be opened: a local file or a URI.
use vstd::prelude::*;
use crate::paths::{file_name_of, file_name_spec};
use crate::text::{chars_of, find_char, slice_subrange, split_once, str_eq, string_of, to_string_of};

verus! {

/// The resource that the launched application is given.
#[derive(Debug, Clone, PartialEq, Eq)]
pub enum LaunchTarget {
    /// A path on the local filesystem.
    File(String),
    /// A URI, in its serialized form, handed over as it is.
    Uri(String),
}

/// The text of the path or URI of a target.
pub open spec fn target_text(t: LaunchTarget) -> Seq<char> {
    match t {
        LaunchTarget::File(p) => p@,
        LaunchTarget::Uri(u) => u@,
    }
}

/// The label of a target: a file's name, or its whole path when it has
/// none; a URI as it is.
pub open spec fn display_spec(t: LaunchTarget) -> Seq<char> {
    match t {
        LaunchTarget::File(p) => match file_name_spec(p@) {
            Some(n) => n,
            None => p@,
        },
        LaunchTarget::Uri(u) => u@,
    }
}

impl LaunchTarget {
    /// The argument given to the launched application.
    pub fn as_command_argument(&self) -> (r: &str)
        ensures
            r@ == target_text(*self),
    {
        match self {
            LaunchTarget::File(p) => p.as_str(),
            LaunchTarget::Uri(u) => u.as_str(),
        }
    }

    /// A label for the target, used when presenting the choice.
    pub fn display_name(&self) -> (r: String)
        ensures
            r@ == display_spec(*self),
    {
        match self {
            LaunchTarget::File(p) => match file_name_of(p.as_str()) {
                Some(n) => n,
                None => p.clone(),
            },
            LaunchTarget::Uri(u) => u.clone(),
        }
    }

    /// The path of a file target.
    pub fn as_path(&self) -> (r: Option<&str>)
        ensures
            match *self {
                LaunchTarget::File(p) => r is Some && r->0@ == p@,
                LaunchTarget::Uri(_) => r is None,
            },
    {
        match self {
            LaunchTarget::File(p) => Some(p.as_str()),
            LaunchTarget::Uri(_) => None,
        }
    }
}

/// The MIME type that `mime_guess` gives a path by its extension, or
/// `application/octet-stream` when it knows none.
pub uninterp spec fn path_guess(path: Seq<char>) -> Seq<char>;

/// `mime_guess::from_path(path).first_or_octet_stream()`, as text; which
/// type it is, `path_guess` names.
#[verifier::external_body]
fn guess_from_path(path: &str) -> (r: String)
    ensures
        r@ == path_guess(path@),
{
    mime_guess::from_path(path).first_or_octet_stream().to_string()
}

/// The scheme of a serialized URI: the text before its first `:`.
pub open spec fn scheme_of(uri: Seq<char>) -> Seq<char> {
    match split_once(uri, ':') {
        Some(parts) => parts.0,
        None => uri,
    }
}

/// The MIME type under which applications for a target are looked up: a
/// directory is `inode/directory`, another file is guessed from its name,
/// and a URI is `x-scheme-handler/` and its scheme.
pub open spec fn target_mime_spec(t: LaunchTarget, is_dir: bool) -> Seq<char> {
    match t {
        LaunchTarget::File(p) => if is_dir {
            "inode/directory"@
        } else {
            path_guess(p@)
        },
        LaunchTarget::Uri(u) => "x-scheme-handler/"@ + scheme_of(u@),
    }
}

/// The MIME type of a target; `is_dir` says whether a file target is a
/// directory.
pub fn mime_for_target(target: &LaunchTarget, is_dir: bool) -> (r: String)
    ensures
        r@ == target_mime_spec(*target, is_dir),
{
    match target {
        LaunchTarget::File(p) => {
            if is_dir {
                to_string_of("inode/directory")
            } else {
                guess_from_path(p.as_str())
            }
        },
        LaunchTarget::Uri(u) => {
            let cs = chars_of(u.as_str());
            let scheme = match find_char(cs.as_slice(), ':') {
                Some(k) => {
                    proof {
                        crate::text::lemma_index_of(cs@, ':');
                    }
                    slice_subrange(cs.as_slice(), 0, k)
                },
                None => cs,
            };
            let mut m = to_string_of("x-scheme-handler/");
            m.push_str(string_of(scheme.as_slice()).as_str());
            m
        },
    }
}

/// What `url::Url::parse` makes of `raw`, when it parses: the URL's scheme
/// and its serialization.
pub uninterp spec fn url_parsed(raw: Seq<char>) -> Option<(Seq<char>, Seq<char>)>;

/// The path that `url::Url::to_file_path` gives for the URL parsed from
/// `raw`, when it parses and has one.
pub uninterp spec fn url_file_path(raw: Seq<char>) -> Option<Seq<char>>;

/// `url::Url::parse(raw)`, given as the scheme (`Url::scheme`) and the
/// serialization (`Url::as_str`) of the URL, or `None` where parsing
/// fails; both are named by `url_parsed`.
#[verifier::external_body]
fn parse_url(raw: &str) -> (r: Option<(String, String)>)
    ensures
        match url_parsed(raw@) {
            Some(u) => r matches Some(p) && p.0@ == u.0 && p.1@ == u.1,
            None => r is None,
        },
{
    match url::Url::parse(raw) {
        Ok(u) => Some((u.scheme().to_string(), u.as_str().to_string())),
        Err(_) => None,
    }
}

/// `url::Url::to_file_path` of the URL parsed from `raw`, as text, or
/// `None` where parsing or the conversion fails; named by `url_file_path`.
#[verifier::external_body]
fn file_path_of_url(raw: &str) -> (r: Option<String>)
    ensures
        match url_file_path(raw@) {
            Some(p) => r is Some && r->0@ == p,
            None => r is None,
        },
{
    match url::Url::parse(raw) {
        Ok(u) => match u.to_file_path() {
            Ok(p) => Some(p.to_string_lossy().into_owned()),
            Err(()) => None,
        },
        Err(_) => None,
    }
}

/// Where a target named on the command line is found, before the
/// filesystem is asked about it.
#[derive(Debug, Clone, PartialEq, Eq)]
pub enum TargetSource {
    /// A URI other than a `file:` one, in its serialized form.
    Uri(String),
    /// The path of a `file:` URI.
    FileUri(String),
    /// Text that is no URI, taken as a path.
    Path(String),
}

/// Why a target cannot be read.
#[derive(Debug, Clone, PartialEq, Eq)]
pub enum TargetError {
    /// A `file:` URI without a local path.
    InvalidFileUri(String),
}

impl TargetError {
    /// The message that describes the error.
    pub fn message(&self) -> (r: String)
        ensures
            match self {
                TargetError::InvalidFileUri(raw) => r@ == "Invalid file URI: "@ + raw@,
            },
    {
        match self {
            TargetError::InvalidFileUri(raw) => {
                let mut m = to_string_of("Invalid file URI: ");
                m.push_str(raw.as_str());
                m
            },
        }
    }
}

/// Reads a target as given: text that parses as a URL is a URI, whose
/// path is taken when its scheme is `file` (an error when it has none);
/// other text is a path.
pub fn classify_target(raw: &str) -> (r: Result<TargetSource, TargetError>)
    ensures
        match url_parsed(raw@) {
            None => r matches Ok(TargetSource::Path(p)) && p@ == raw@,
            Some(u) => if u.0 == "file"@ {
                match url_file_path(raw@) {
                    Some(path) => r matches Ok(TargetSource::FileUri(p)) && p@ == path,
                    None => r matches Err(TargetError::InvalidFileUri(x)) && x@ == raw@,
                }
            } else {
                r matches Ok(TargetSource::Uri(s)) && s@ == u.1
            },
        },
{
    match parse_url(raw) {
        None => Ok(TargetSource::Path(to_string_of(raw))),
        Some((scheme, serialized)) => {
            if str_eq(scheme.as_str(), "file") {
                match file_path_of_url(raw) {
                    Some(p) => Ok(TargetSource::FileUri(p)),
                    None => Err(TargetError::InvalidFileUri(to_string_of(raw))),
                }
            } else {
                Ok(TargetSource::Uri(serialized))
            }
        },
    }
}

} // verus!
