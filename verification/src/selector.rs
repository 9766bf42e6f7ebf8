//! Running an external selector (rofi, dmenu, ...) over application names.
use vstd::prelude::*;
use crate::application_finder::{first_where, ApplicationEntry};
use crate::config::SelectorSettings;
use crate::shell::{shell_split, split_error_text, split_words};
use crate::text::{chars_of, join_with, push_separated, push_string, str_eq, string_of, to_string_of, trim, trim_chars};

verus! {

/// Why the selector could not be run, or what it answered that cannot be
/// used.
#[derive(Debug, Clone)]
pub enum SelectorError {
    /// The selector command is blank or has no words.
    EmptyCommand,
    /// The selector command leaves a quote open.
    ParseCommand,
    /// The terminal arguments leave a quote open.
    ParseTermArgs,
    /// The selector printed a name that no application has.
    UnknownSelection { selection: String, expected: String },
}

impl SelectorError {
    /// The message that describes the error.
    pub fn message(&self) -> (r: String)
        ensures
            r@ == selector_error_text(*self),
    {
        match self {
            SelectorError::EmptyCommand => to_string_of("Selector command is empty"),
            SelectorError::ParseCommand => {
                let mut m = to_string_of("Failed to parse selector command: ");
                m.push_str("missing closing quote");
                m
            },
            SelectorError::ParseTermArgs => {
                let mut m = to_string_of("Failed to parse selector terminal arguments: ");
                m.push_str("missing closing quote");
                m
            },
            SelectorError::UnknownSelection { selection, expected } => {
                let mut m = to_string_of("Selector returned unknown selection `");
                m.push_str(selection.as_str());
                m.push_str("` (expected one of [");
                m.push_str(expected.as_str());
                m.push_str("])");
                m
            },
        }
    }
}

/// The message of each error.
pub open spec fn selector_error_text(e: SelectorError) -> Seq<char> {
    match e {
        SelectorError::EmptyCommand => "Selector command is empty"@,
        SelectorError::ParseCommand => "Failed to parse selector command: "@ + split_error_text(),
        SelectorError::ParseTermArgs => "Failed to parse selector terminal arguments: "@
            + split_error_text(),
        SelectorError::UnknownSelection { selection, expected } => "Selector returned unknown selection `"@
            + selection@ + "` (expected one of ["@ + expected@ + "])"@,
    }
}

/// The command line of the selector from the words of its command and,
/// when terminal arguments are given, their words: the command must split
/// and have a word; the arguments, when present, must split, and follow.
pub open spec fn assemble_spec(
    main: Option<Seq<Seq<char>>>,
    extra: Option<Option<Seq<Seq<char>>>>,
) -> Result<Seq<Seq<char>>, SelectorError> {
    match main {
        None => Err(SelectorError::ParseCommand),
        Some(m) => if m.len() == 0 {
            Err(SelectorError::EmptyCommand)
        } else {
            match extra {
                None => Ok(m),
                Some(None) => Err(SelectorError::ParseTermArgs),
                Some(Some(e)) => Ok(m + e),
            }
        },
    }
}

/// The command line of the selector that `settings` describe: a blank
/// command is refused; terminal arguments count when they are not blank.
pub open spec fn command_spec(settings: SelectorSettings) -> Result<Seq<Seq<char>>, SelectorError> {
    if trim(settings.selector@).len() == 0 {
        Err(SelectorError::EmptyCommand)
    } else {
        assemble_spec(
            shell_split(trim(settings.selector@)),
            match settings.term_exec_args {
                Some(x) => if trim(x@).len() > 0 {
                    Some(shell_split(x@))
                } else {
                    None
                },
                None => None,
            },
        )
    }
}

/// Names of the applications.
pub open spec fn app_names(apps: Seq<ApplicationEntry>) -> Seq<Seq<char>> {
    apps.map_values(|a: ApplicationEntry| a.name@)
}

/// Application `i` is called `name`.
pub open spec fn named(apps: Seq<ApplicationEntry>, name: Seq<char>) -> spec_fn(int) -> bool {
    |i: int| apps[i].name@ == name
}

/// What the selector's answer means: nothing when it failed or printed
/// nothing but blanks; otherwise the first application with the trimmed
/// answer as its name, and an error naming all of them when there is none.
pub open spec fn selection_spec(
    apps: Seq<ApplicationEntry>,
    success: bool,
    output: Seq<char>,
) -> Result<Option<int>, SelectorError> {
    if !success || trim(output).len() == 0 {
        Ok(None)
    } else {
        match first_where(apps.len() as int, named(apps, trim(output))) {
            Some(i) => Ok(Some(i)),
            None => Err(
                SelectorError::UnknownSelection {
                    selection: arbitrary_with_view(trim(output)),
                    expected: arbitrary_with_view(join_with(app_names(apps), ", "@)),
                },
            ),
        }
    }
}

/// A chosen application bears the name the selector printed.
pub proof fn law_selection_names_application(apps: Seq<ApplicationEntry>, success: bool, output: Seq<char>)
    requires
        selection_spec(apps, success, output) matches Ok(Some(_)),
    ensures
        ({
            let i = selection_spec(apps, success, output)->Ok_0->0;
            0 <= i < apps.len() && apps[i].name@ == trim(output)
        }),
{
    crate::application_finder::lemma_first_where_bounds(apps.len() as int, named(apps, trim(output)));
}

/// A string whose text is `s`.
pub open spec fn arbitrary_with_view(s: Seq<char>) -> String {
    choose|t: String| t@ == s
}

/// The text written to the selector: each name on a line of its own.
pub open spec fn input_spec(names: Seq<Seq<char>>) -> Seq<char>
    decreases names.len(),
{
    if names.len() == 0 {
        Seq::empty()
    } else {
        input_spec(names.drop_last()) + names.last() + seq!['\n']
    }
}

/// Runs a selector command over the names of the applications.
#[derive(Debug)]
pub struct SelectorRunner;

impl SelectorRunner {
    /// A runner (the type holds no state).
    pub fn new() -> (r: Self)
        ensures
            r == SelectorRunner,
    {
        SelectorRunner
    }

    /// The command line from the words of the selector command and of the
    /// terminal arguments, as `assemble_spec` says.
    pub fn assemble_command(main: Option<Vec<String>>, extra: Option<Option<Vec<String>>>) -> (r: Result<
        Vec<String>,
        SelectorError,
    >)
        ensures
            match assemble_spec(
                match main {
                    Some(m) => Some(m.deep_view()),
                    None => None,
                },
                match extra {
                    Some(Some(e)) => Some(Some(e.deep_view())),
                    Some(None) => Some(None),
                    None => None,
                },
            ) {
                Ok(parts) => r is Ok && r->Ok_0.deep_view() == parts,
                Err(e) => r is Err && r->Err_0 == e,
            },
    {
        let mut parts = match main {
            None => {
                return Err(SelectorError::ParseCommand);
            },
            Some(m) => m,
        };
        if parts.len() == 0 {
            return Err(SelectorError::EmptyCommand);
        }
        match extra {
            None => Ok(parts),
            Some(None) => Err(SelectorError::ParseTermArgs),
            Some(Some(e)) => {
                let ghost pv = parts.deep_view();
                let mut e = e;
                let ghost ev = e.deep_view();
                parts.append(&mut e);
                assert(parts.deep_view() =~= pv + ev);
                Ok(parts)
            },
        }
    }

    /// The command line that runs the selector of `settings`, or nothing
    /// when there is no application to choose from.
    pub fn command_parts(&self, settings: &SelectorSettings, applications: &[ApplicationEntry]) -> (r:
        Result<Option<Vec<String>>, SelectorError>)
        ensures
            applications@.len() == 0 ==> r matches Ok(None),
            applications@.len() > 0 ==> match command_spec(*settings) {
                Ok(parts) => r matches Ok(Some(v)) && v.deep_view() == parts,
                Err(e) => r is Err && r->Err_0 == e,
            },
    {
        if applications.len() == 0 {
            return Ok(None);
        }
        let trimmed = trim_chars(chars_of(settings.selector.as_str()).as_slice());
        if trimmed.len() == 0 {
            return Err(SelectorError::EmptyCommand);
        }
        let spec_text = string_of(trimmed.as_slice());
        let main = split_words(spec_text.as_str());
        let extra = match &settings.term_exec_args {
            Some(x) => {
                let t = trim_chars(chars_of(x.as_str()).as_slice());
                if t.len() > 0 {
                    Some(split_words(x.as_str()))
                } else {
                    None
                }
            },
            None => None,
        };
        match Self::assemble_command(main, extra) {
            Ok(parts) => Ok(Some(parts)),
            Err(e) => Err(e),
        }
    }

    /// The text to write to the selector: each application's name on a
    /// line of its own.
    pub fn input_text(applications: &[ApplicationEntry]) -> (r: String)
        ensures
            r@ == input_spec(app_names(applications@)),
    {
        let mut r = String::new();
        let ghost names = app_names(applications@);
        let mut i: usize = 0;
        assert(names.take(0) =~= Seq::<Seq<char>>::empty());
        while i < applications.len()
            invariant
                names == app_names(applications@),
                i <= applications@.len(),
                r@ == input_spec(names.take(i as int)),
            decreases applications@.len() - i,
        {
            r.push_str(applications[i].name.as_str());
            r.push('\n');
            proof {
                assert(names.take(i + 1).drop_last() =~= names.take(i as int));
                assert(r@ =~= input_spec(names.take(i + 1)));
            }
            i = i + 1;
        }
        assert(names.take(applications@.len() as int) =~= names);
        r
    }

    /// What the selector's answer means, from whether it succeeded and what
    /// it printed.
    pub fn resolve_selection(&self, applications: &[ApplicationEntry], success: bool, output: &str) -> (r:
        Result<Option<usize>, SelectorError>)
        ensures
            match selection_spec(applications@, success, output@) {
                Ok(None) => r matches Ok(None),
                Ok(Some(i)) => r matches Ok(Some(j)) && j == i,
                Err(SelectorError::UnknownSelection { selection, expected }) => r matches Err(
                    SelectorError::UnknownSelection { selection: s2, expected: x2 },
                ) && s2@ == selection@ && x2@ == expected@,
                Err(_) => false,
            },
    {
        if !success {
            return Ok(None);
        }
        let trimmed = trim_chars(chars_of(output).as_slice());
        if trimmed.len() == 0 {
            return Ok(None);
        }
        let selection = string_of(trimmed.as_slice());
        let ghost pred = named(applications@, trim(output@));
        let mut i: usize = 0;
        while i < applications.len()
            invariant
                i <= applications@.len(),
                selection@ == trim(output@),
                pred == named(applications@, trim(output@)),
                first_where(i as int, pred) is None,
                success,
                trim(output@).len() > 0,
            decreases applications@.len() - i,
        {
            if str_eq(applications[i].name.as_str(), selection.as_str()) {
                proof {
                    assert(pred(i as int));
                    crate::application_finder::lemma_first_where_stable(
                        i + 1,
                        applications@.len() as int,
                        pred,
                    );
                }
                return Ok(Some(i));
            }
            assert(!pred(i as int));
            i = i + 1;
        }
        let mut names: Vec<String> = Vec::new();
        let mut k: usize = 0;
        while k < applications.len()
            invariant
                k <= applications@.len(),
                names.deep_view() == app_names(applications@).take(k as int),
            decreases applications@.len() - k,
        {
            push_string(&mut names, applications[k].name.clone());
            k = k + 1;
            assert(names.deep_view() =~= app_names(applications@).take(k as int));
        }
        assert(app_names(applications@).take(applications@.len() as int) =~= app_names(applications@));
        let mut expected = String::new();
        push_separated(&mut expected, &names, ", ");
        assert(expected@ =~= join_with(app_names(applications@), ", "@));
        Err(SelectorError::UnknownSelection { selection, expected })
    }
}

impl Default for SelectorRunner {
    fn default() -> (r: Self) {
        SelectorRunner
    }
}

} // verus!
