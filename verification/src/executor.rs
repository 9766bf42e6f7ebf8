//! Turning a desktop entry's `Exec` line into the command that launches it.
use vstd::prelude::*;
use crate::application_finder::ApplicationEntry;
use crate::desktop_parser::opt_view;
use crate::shell::{shell_split, split_error_text, split_words};
use crate::target::{target_text, LaunchTarget};
use crate::text::{chars_of, has_prefix, push_string, string_of, to_string_of, trim, trim_chars};

verus! {

/// Why no command could be built.
#[derive(Debug, Clone)]
pub enum ExecError {
    /// The `Exec` line leaves a quote open.
    ParseExec,
    /// Nothing is left of the `Exec` line once field codes are removed.
    EmptyExec,
    /// The terminal arguments leave a quote open.
    ParseTermArgs(String),
    /// The launch prefix leaves a quote open.
    ParsePrefix(String),
    /// The launch prefix has no words.
    EmptyPrefix,
    /// The command is empty once the prefix is applied.
    EmptyAfterPrefix,
}

/// An error, as text.
pub enum ExecFault {
    ParseExec,
    EmptyExec,
    ParseTermArgs(Seq<char>),
    ParsePrefix(Seq<char>),
    EmptyPrefix,
    EmptyAfterPrefix,
}

impl View for ExecError {
    type V = ExecFault;

    open spec fn view(&self) -> ExecFault {
        match self {
            ExecError::ParseExec => ExecFault::ParseExec,
            ExecError::EmptyExec => ExecFault::EmptyExec,
            ExecError::ParseTermArgs(a) => ExecFault::ParseTermArgs(a@),
            ExecError::ParsePrefix(p) => ExecFault::ParsePrefix(p@),
            ExecError::EmptyPrefix => ExecFault::EmptyPrefix,
            ExecError::EmptyAfterPrefix => ExecFault::EmptyAfterPrefix,
        }
    }
}

/// The message of each error.
pub open spec fn exec_error_text(e: ExecError) -> Seq<char> {
    match e {
        ExecError::ParseExec => "Failed to parse exec command: "@ + split_error_text(),
        ExecError::EmptyExec => "Empty exec command"@,
        ExecError::ParseTermArgs(a) => "Failed to parse terminal exec args `"@ + a@ + "`: "@
            + split_error_text(),
        ExecError::ParsePrefix(p) => "Failed to parse app launch prefix `"@ + p@ + "`: "@
            + split_error_text(),
        ExecError::EmptyPrefix => "App launch prefix produced no command parts"@,
        ExecError::EmptyAfterPrefix => "Empty command after applying launch prefix"@,
    }
}

impl ExecError {
    /// The message that describes the error.
    pub fn message(&self) -> (r: String)
        ensures
            r@ == exec_error_text(*self),
    {
        match self {
            ExecError::ParseExec => {
                let mut m = to_string_of("Failed to parse exec command: ");
                m.push_str("missing closing quote");
                m
            },
            ExecError::EmptyExec => to_string_of("Empty exec command"),
            ExecError::ParseTermArgs(a) => {
                let mut m = to_string_of("Failed to parse terminal exec args `");
                m.push_str(a.as_str());
                m.push_str("`: ");
                m.push_str("missing closing quote");
                m
            },
            ExecError::ParsePrefix(p) => {
                let mut m = to_string_of("Failed to parse app launch prefix `");
                m.push_str(p.as_str());
                m.push_str("`: ");
                m.push_str("missing closing quote");
                m
            },
            ExecError::EmptyPrefix => to_string_of("App launch prefix produced no command parts"),
            ExecError::EmptyAfterPrefix => to_string_of("Empty command after applying launch prefix"),
        }
    }
}

/// `s` with every occurrence of `pat`, from left to right and without
/// overlap, replaced by `rep` (`str::replace` with a non-empty pattern).
pub open spec fn replace_all(s: Seq<char>, pat: Seq<char>, rep: Seq<char>) -> Seq<char>
    decreases s.len(),
{
    if s.len() == 0 {
        s
    } else if pat.len() > 0 && has_prefix(s, pat) {
        rep + replace_all(s.skip(pat.len() as int), pat, rep)
    } else {
        seq![s[0]] + replace_all(s.skip(1), pat, rep)
    }
}

/// The field codes that are dropped from an `Exec` word.
pub open spec fn field_codes() -> Seq<Seq<char>> {
    seq!["%u"@, "%U"@, "%f"@, "%F"@, "%i"@, "%c"@, "%k"@]
}

/// `s` with each of `codes` removed in turn.
pub open spec fn remove_codes(s: Seq<char>, codes: Seq<Seq<char>>) -> Seq<char>
    decreases codes.len(),
{
    if codes.len() == 0 {
        s
    } else {
        remove_codes(replace_all(s, codes[0], Seq::empty()), codes.skip(1))
    }
}

/// A word of an `Exec` line once `%%` reads `%` and the field codes are
/// gone.
pub open spec fn clean_word(w: Seq<char>) -> Seq<char> {
    remove_codes(replace_all(w, "%%"@, "%"@), field_codes())
}

/// The cleaned words that are not blank, in order.
pub open spec fn clean_words(ws: Seq<Seq<char>>) -> Seq<Seq<char>>
    decreases ws.len(),
{
    if ws.len() == 0 {
        Seq::empty()
    } else if trim(clean_word(ws.last())).len() == 0 {
        clean_words(ws.drop_last())
    } else {
        clean_words(ws.drop_last()).push(clean_word(ws.last()))
    }
}

/// The command of an `Exec` line from its words: the cleaned words, which
/// must not all vanish.
pub open spec fn base_spec(words: Option<Seq<Seq<char>>>) -> Result<Seq<Seq<char>>, ExecFault> {
    match words {
        None => Err(ExecFault::ParseExec),
        Some(ws) => if clean_words(ws).len() == 0 {
            Err(ExecFault::EmptyExec)
        } else {
            Ok(clean_words(ws))
        },
    }
}

/// The command that opens `target` with the `Exec` line `exec`.
pub open spec fn prepare_spec(exec: Seq<char>, target: LaunchTarget) -> Result<Seq<Seq<char>>, ExecFault> {
    match base_spec(shell_split(exec)) {
        Ok(parts) => Ok(parts.push(target_text(target))),
        Err(e) => Err(e),
    }
}

/// The command after a terminal is put in front, when one is given: the
/// terminal's words, then the words of the terminal arguments when they
/// are not empty, then the command.
pub open spec fn terminal_spec(
    cmd: Seq<Seq<char>>,
    term_args: Option<Seq<char>>,
    launcher: Option<Seq<Seq<char>>>,
) -> Result<Seq<Seq<char>>, ExecFault> {
    match launcher {
        None => Ok(cmd),
        Some(l) => match term_args {
            Some(a) => if a.len() > 0 {
                match shell_split(a) {
                    None => Err(ExecFault::ParseTermArgs(a)),
                    Some(w) => Ok(l + w + cmd),
                }
            } else {
                Ok(l + cmd)
            },
            None => Ok(l + cmd),
        },
    }
}

/// The command after the launch prefix is put in front, when there is one.
pub open spec fn prefix_spec(cmd: Seq<Seq<char>>, prefix: Option<Seq<char>>) -> Result<Seq<Seq<char>>, ExecFault> {
    let with_prefix = match prefix {
        None => Ok(cmd),
        Some(p) => match shell_split(p) {
            None => Err(ExecFault::ParsePrefix(p)),
            Some(w) => if w.len() == 0 {
                Err(ExecFault::EmptyPrefix)
            } else {
                Ok(w + cmd)
            },
        },
    };
    match with_prefix {
        Ok(c) => if c.len() == 0 {
            Err(ExecFault::EmptyAfterPrefix)
        } else {
            Ok(c)
        },
        Err(e) => Err(e),
    }
}

/// The full command that launches `exec` on `target`, in a terminal when
/// one is given, behind the launch prefix when there is one.
pub open spec fn launch_spec(
    prefix: Option<Seq<char>>,
    term_args: Option<Seq<char>>,
    exec: Seq<char>,
    target: LaunchTarget,
    launcher: Option<Seq<Seq<char>>>,
) -> Result<Seq<Seq<char>>, ExecFault> {
    match prepare_spec(exec, target) {
        Err(e) => Err(e),
        Ok(cmd) => match terminal_spec(cmd, term_args, launcher) {
            Err(e) => Err(e),
            Ok(c) => prefix_spec(c, prefix),
        },
    }
}

proof fn lemma_clean_words_nonblank(ws: Seq<Seq<char>>)
    ensures
        forall|i: int| 0 <= i < clean_words(ws).len() ==> trim(#[trigger] clean_words(ws)[i]).len() > 0,
    decreases ws.len(),
{
    if ws.len() > 0 {
        lemma_clean_words_nonblank(ws.drop_last());
        let prev = clean_words(ws.drop_last());
        if trim(clean_word(ws.last())).len() > 0 {
            assert forall|i: int| 0 <= i < clean_words(ws).len() implies trim(#[trigger] clean_words(ws)[i]).len()
                > 0 by {
                if i < prev.len() {
                    assert(clean_words(ws)[i] == prev[i]);
                }
            }
        }
    }
}

/// A prepared command has a program and the target as its last argument,
/// and no word before the target is blank.
pub proof fn law_prepared_command_shape(exec: Seq<char>, target: LaunchTarget)
    requires
        prepare_spec(exec, target) is Ok,
    ensures
        prepare_spec(exec, target)->Ok_0.len() >= 2,
        prepare_spec(exec, target)->Ok_0.last() == target_text(target),
        forall|i: int|
            0 <= i < prepare_spec(exec, target)->Ok_0.len() - 1 ==> trim(
                #[trigger] prepare_spec(exec, target)->Ok_0[i],
            ).len() > 0,
{
    let ws = shell_split(exec)->0;
    lemma_clean_words_nonblank(ws);
    let parts = prepare_spec(exec, target)->Ok_0;
    assert forall|i: int| 0 <= i < parts.len() - 1 implies trim(#[trigger] parts[i]).len() > 0 by {
        assert(parts[i] == clean_words(ws)[i]);
    }
}

/// A launch prefix goes in front of the whole command, the terminal
/// included: with a prefix whose words are `w` (at least one), the
/// command is `w`, then the terminal launcher `l` when there is one and the
/// words `tw` of the terminal arguments (none when they are absent or
/// empty), then the prepared command (the `Exec` words and the target).
pub proof fn law_prefix_comes_first(
    p: Seq<char>,
    w: Seq<Seq<char>>,
    term_args: Option<Seq<char>>,
    tw: Seq<Seq<char>>,
    exec: Seq<char>,
    target: LaunchTarget,
    l: Seq<Seq<char>>,
)
    requires
        shell_split(p) == Some(w),
        w.len() > 0,
        prepare_spec(exec, target) is Ok,
        match term_args {
            None => tw == Seq::<Seq<char>>::empty(),
            Some(a) => if a.len() == 0 {
                tw == Seq::<Seq<char>>::empty()
            } else {
                shell_split(a) == Some(tw)
            },
        },
    ensures
        launch_spec(Some(p), term_args, exec, target, Some(l)) == Ok::<Seq<Seq<char>>, ExecFault>(
            w + l + tw + prepare_spec(exec, target)->Ok_0,
        ),
        launch_spec(Some(p), term_args, exec, target, None) == Ok::<Seq<Seq<char>>, ExecFault>(
            w + prepare_spec(exec, target)->Ok_0,
        ),
{
    let cmd = prepare_spec(exec, target)->Ok_0;
    assert(l + tw + cmd =~= l + (tw + cmd));
    match term_args {
        Some(a) => {
            if a.len() == 0 {
                assert(l + cmd =~= l + tw + cmd);
            }
        },
        None => {
            assert(l + cmd =~= l + tw + cmd);
        },
    }
    assert(w + (l + tw + cmd) =~= w + l + tw + cmd);
    assert((w + (l + tw + cmd)).len() > 0);
    assert((w + cmd).len() > 0);
}

/// Without terminal arguments, or with empty ones, a command run in a
/// terminal is the terminal's command followed directly by the
/// application's: nothing is put between them.
pub proof fn law_no_term_args_add_nothing(
    cmd: Seq<Seq<char>>,
    term_args: Option<Seq<char>>,
    launcher: Seq<Seq<char>>,
)
    requires
        term_args is None || term_args == Some(Seq::<char>::empty()),
    ensures
        terminal_spec(cmd, term_args, Some(launcher)) == Ok::<Seq<Seq<char>>, ExecFault>(launcher + cmd),
{
}

/// `s` with every occurrence of `pat` replaced by `rep`.
fn replace_chars(s: &Vec<char>, pat: &Vec<char>, rep: &Vec<char>) -> (r: Vec<char>)
    requires
        pat@.len() > 0,
    ensures
        r@ == replace_all(s@, pat@, rep@),
{
    let mut out: Vec<char> = Vec::new();
    let mut i: usize = 0;
    assert(s@.skip(0) =~= s@);
    while i < s.len()
        invariant
            i <= s@.len(),
            pat@.len() > 0,
            out@ + replace_all(s@.skip(i as int), pat@, rep@) == replace_all(s@, pat@, rep@),
        decreases s@.len() - i,
    {
        let ghost rest = s@.skip(i as int);
        let tail = crate::text::slice_subrange(s.as_slice(), i, s.len());
        assert(tail@ == rest);
        if crate::text::starts_with_chars(tail.as_slice(), pat.as_slice()) {
            crate::text::push_all(&mut out, rep.as_slice());
            proof {
                assert(rest.skip(pat@.len() as int) =~= s@.skip(i + pat@.len()));
            }
            i = i + pat.len();
        } else {
            let ghost before = out@;
            out.push(s[i]);
            proof {
                assert(rest.skip(1) =~= s@.skip(i + 1));
                assert(before + (seq![rest[0]] + replace_all(rest.skip(1), pat@, rep@)) =~= out@
                    + replace_all(rest.skip(1), pat@, rep@));
            }
            i = i + 1;
        }
    }
    assert(s@.skip(i as int).len() == 0);
    assert(out@ + Seq::<char>::empty() =~= out@);
    out
}

/// A word with `%%` read as `%` and the field codes removed.
pub fn clean_exec_word(w: &str) -> (r: String)
    ensures
        r@ == clean_word(w@),
{
    let cs = chars_of(w);
    proof {
        reveal_strlit("%%");
        reveal_strlit("%");
    }
    let mut cur = replace_chars(&cs, &chars_of("%%"), &chars_of("%"));
    let codes: [&str; 7] = ["%u", "%U", "%f", "%F", "%i", "%c", "%k"];
    let ghost cv = codes@.map_values(|c: &str| c@);
    assert(cv =~= field_codes());
    let empty: Vec<char> = Vec::new();
    let mut k: usize = 0;
    assert(cv.skip(0) =~= cv);
    while k < 7
        invariant
            k <= 7,
            codes@.len() == 7,
            cv == codes@.map_values(|c: &str| c@),
            cv == field_codes(),
            empty@ == Seq::<char>::empty(),
            remove_codes(cur@, cv.skip(k as int)) == clean_word(w@),
        decreases 7 - k,
    {
        proof {
            reveal_strlit("%u");
            reveal_strlit("%U");
            reveal_strlit("%f");
            reveal_strlit("%F");
            reveal_strlit("%i");
            reveal_strlit("%c");
            reveal_strlit("%k");
        }
        let code = chars_of(codes[k]);
        assert(code@ == cv[k as int]);
        let next = replace_chars(&cur, &code, &empty);
        proof {
            assert(cv.skip(k as int)[0] == cv[k as int]);
            assert(cv.skip(k as int).skip(1) =~= cv.skip(k + 1));
        }
        cur = next;
        k = k + 1;
    }
    assert(cv.skip(7).len() == 0);
    string_of(cur.as_slice())
}

/// Launches desktop applications: builds the command line, with an
/// optional launch prefix and terminal.
#[derive(Debug)]
pub struct ApplicationExecutor {
    app_launch_prefix: Option<String>,
    terminal_exec_args: Option<String>,
}

impl ApplicationExecutor {
    /// The launch prefix put before every command.
    pub closed spec fn prefix(self) -> Option<Seq<char>> {
        opt_view(self.app_launch_prefix)
    }

    /// The arguments put between a terminal and the command it runs.
    pub closed spec fn term_args(self) -> Option<Seq<char>> {
        opt_view(self.terminal_exec_args)
    }

    /// An executor with no prefix and no terminal arguments.
    pub fn new() -> (r: Self)
        ensures
            r.prefix() is None,
            r.term_args() is None,
    {
        ApplicationExecutor { app_launch_prefix: None, terminal_exec_args: None }
    }

    /// An executor with these options; the prefix is trimmed, and a blank
    /// one is dropped.
    pub fn with_options(app_launch_prefix: Option<String>, terminal_exec_args: Option<String>) -> (r:
        Self)
        ensures
            r.prefix() == match app_launch_prefix {
                Some(p) => if trim(p@).len() == 0 {
                    None
                } else {
                    Some(trim(p@))
                },
                None => None,
            },
            r.term_args() == opt_view(terminal_exec_args),
    {
        let normalized = match app_launch_prefix {
            Some(p) => {
                let t = trim_chars(chars_of(p.as_str()).as_slice());
                if t.len() == 0 {
                    None
                } else {
                    Some(string_of(t.as_slice()))
                }
            },
            None => None,
        };
        ApplicationExecutor { app_launch_prefix: normalized, terminal_exec_args }
    }

    /// An executor with this launch prefix and no terminal arguments.
    pub fn with_launch_prefix(prefix: Option<String>) -> (r: Self)
        ensures
            r.prefix() == match prefix {
                Some(p) => if trim(p@).len() == 0 {
                    None
                } else {
                    Some(trim(p@))
                },
                None => None,
            },
            r.term_args() is None,
    {
        Self::with_options(prefix, None)
    }

    /// The command from the words of an `Exec` line, as `base_spec` says.
    pub fn clean_command_words(words: Option<Vec<String>>) -> (r: Result<Vec<String>, ExecError>)
        ensures
            match base_spec(
                match words {
                    Some(w) => Some(w.deep_view()),
                    None => None,
                },
            ) {
                Ok(parts) => r is Ok && r->Ok_0.deep_view() == parts,
                Err(e) => r is Err && r->Err_0@ == e,
            },
    {
        let raw = match words {
            Some(w) => w,
            None => {
                return Err(ExecError::ParseExec);
            },
        };
        let ghost rv = raw.deep_view();
        let mut parts: Vec<String> = Vec::new();
        let mut i: usize = 0;
        assert(rv.take(0) =~= Seq::<Seq<char>>::empty());
        assert(parts.deep_view() =~= Seq::<Seq<char>>::empty());
        while i < raw.len()
            invariant
                rv == raw.deep_view(),
                i <= raw@.len(),
                parts.deep_view() == clean_words(rv.take(i as int)),
            decreases raw@.len() - i,
        {
            let cleaned = clean_exec_word(raw[i].as_str());
            proof {
                assert(rv.take(i + 1).drop_last() =~= rv.take(i as int));
                assert(rv.take(i + 1).last() == raw@[i as int]@);
            }
            let t = trim_chars(chars_of(cleaned.as_str()).as_slice());
            if t.len() > 0 {
                push_string(&mut parts, cleaned);
            }
            i = i + 1;
        }
        assert(rv.take(raw@.len() as int) =~= rv);
        if parts.len() == 0 {
            Err(ExecError::EmptyExec)
        } else {
            Ok(parts)
        }
    }

    /// The words of an `Exec` line, cleaned of field codes.
    pub fn base_command_parts(exec: &str) -> (r: Result<Vec<String>, ExecError>)
        ensures
            match base_spec(shell_split(exec@)) {
                Ok(parts) => r is Ok && r->Ok_0.deep_view() == parts,
                Err(e) => r is Err && r->Err_0@ == e,
            },
    {
        Self::clean_command_words(split_words(exec))
    }

    /// The command that opens `target` with the `Exec` line `exec`: its
    /// cleaned words, then the target.
    pub fn prepare_command(exec: &str, target: &LaunchTarget) -> (r: Result<Vec<String>, ExecError>)
        ensures
            match prepare_spec(exec@, *target) {
                Ok(parts) => r is Ok && r->Ok_0.deep_view() == parts,
                Err(e) => r is Err && r->Err_0@ == e,
            },
    {
        let mut parts = Self::base_command_parts(exec)?;
        push_string(&mut parts, to_string_of(target.as_command_argument()));
        Ok(parts)
    }

    /// The command that launches `app` on `target`: in the terminal
    /// `terminal_launcher` when one is given, behind the launch prefix when
    /// there is one.
    pub fn build_command(
        &self,
        app: &ApplicationEntry,
        target: &LaunchTarget,
        terminal_launcher: Option<Vec<String>>,
    ) -> (r: Result<Vec<String>, ExecError>)
        ensures
            match launch_spec(
                self.prefix(),
                self.term_args(),
                app.exec_line@,
                *target,
                match terminal_launcher {
                    Some(l) => Some(l.deep_view()),
                    None => None,
                },
            ) {
                Ok(parts) => r is Ok && r->Ok_0.deep_view() == parts,
                Err(e) => r is Err && r->Err_0@ == e,
            },
    {
        let mut command_parts = Self::prepare_command(app.exec_line.as_str(), target)?;
        match terminal_launcher {
            Some(launcher) => {
                let mut launcher_parts = launcher;
                let ghost lv = launcher_parts.deep_view();
                let ghost cv = command_parts.deep_view();
                match &self.terminal_exec_args {
                    Some(args) => {
                        if chars_of(args.as_str()).len() > 0 {
                            match split_words(args.as_str()) {
                                Some(words) => {
                                    let mut words = words;
                                    let ghost wv = words.deep_view();
                                    launcher_parts.append(&mut words);
                                    assert(launcher_parts.deep_view() =~= lv + wv);
                                },
                                None => {
                                    return Err(ExecError::ParseTermArgs(args.clone()));
                                },
                            }
                        }
                    },
                    None => {},
                }
                let ghost before = launcher_parts.deep_view();
                launcher_parts.append(&mut command_parts);
                assert(launcher_parts.deep_view() =~= before + cv);
                command_parts = launcher_parts;
            },
            None => {},
        }
        match &self.app_launch_prefix {
            Some(prefix) => {
                match split_words(prefix.as_str()) {
                    Some(words) => {
                        if words.len() == 0 {
                            return Err(ExecError::EmptyPrefix);
                        }
                        let mut prefix_parts = words;
                        let ghost pv = prefix_parts.deep_view();
                        let ghost cv = command_parts.deep_view();
                        prefix_parts.append(&mut command_parts);
                        assert(prefix_parts.deep_view() =~= pv + cv);
                        command_parts = prefix_parts;
                    },
                    None => {
                        return Err(ExecError::ParsePrefix(prefix.clone()));
                    },
                }
            },
            None => {},
        }
        if command_parts.len() == 0 {
            return Err(ExecError::EmptyAfterPrefix);
        }
        Ok(command_parts)
    }
}

impl Default for ApplicationExecutor {
    fn default() -> (r: Self)
        ensures
            r.prefix() is None,
            r.term_args() is None,
    {
        Self::new()
    }
}

} // verus!
