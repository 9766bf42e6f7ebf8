//! Handlers chosen by regular expressions on the target, before the
//! desktop applications.
use vstd::prelude::*;
use crate::application_finder::{first_where, AppView, ApplicationEntry};
use crate::text::{has_prefix, int_text, int_to_text, join_with, push_separated, to_string_of};

verus! {

/// Whether the regular expression `pattern` compiles.
pub uninterp spec fn regex_valid(pattern: Seq<char>) -> bool;

/// Whether the regular expression `pattern` matches somewhere in `text`
/// (`Regex::is_match`, for a pattern that compiles).
pub uninterp spec fn regex_is_match(pattern: Seq<char>, text: Seq<char>) -> bool;

/// `regex::Regex::new(pattern).is_ok()`; whether it compiles is named by
/// `regex_valid`.
#[verifier::external_body]
fn regex_compiles(pattern: &str) -> (r: bool)
    ensures
        r == regex_valid(pattern@),
{
    regex::Regex::new(pattern).is_ok()
}

/// `regex::Regex::new(pattern)` and then `is_match(text)`, or `false` for a
/// pattern that does not compile; the answer is named by `regex_is_match`.
#[verifier::external_body]
fn regex_matches(pattern: &str, text: &str) -> (r: bool)
    ensures
        r == regex_is_match(pattern@, text@),
{
    match regex::Regex::new(pattern) {
        Ok(re) => re.is_match(text),
        Err(_) => false,
    }
}

/// A handler as written in the configuration.
#[derive(Debug, Clone)]
pub struct RegexHandlerDefinition {
    pub exec_line: String,
    pub regexes: Vec<String>,
    pub terminal: bool,
    pub priority: i32,
    pub notes: Option<String>,
}

impl Default for RegexHandlerDefinition {
    /// No command, no pattern, no terminal, priority 0, no notes.
    fn default() -> (r: Self)
        ensures
            r.exec_line@ == Seq::<char>::empty(),
            r.regexes@.len() == 0,
            !r.terminal,
            r.priority == 0,
            r.notes is None,
    {
        RegexHandlerDefinition {
            exec_line: String::new(),
            regexes: Vec::new(),
            terminal: false,
            priority: 0,
            notes: None,
        }
    }
}

/// A handler ready to be matched: its command, whether it runs in a
/// terminal, its priority, its notes and its patterns.
#[derive(Debug, Clone)]
pub struct RegexHandler {
    pub exec_line: String,
    pub terminal: bool,
    pub priority: i32,
    pub notes: Option<String>,
    pub patterns: Vec<String>,
}

/// Whether some pattern of the list matches `text`.
pub open spec fn any_match(patterns: Seq<Seq<char>>, text: Seq<char>) -> bool {
    exists|i: int| 0 <= i < patterns.len() && regex_is_match(#[trigger] patterns[i], text)
}

impl RegexHandler {
    /// The patterns of the handler.
    pub open spec fn pattern_texts(self) -> Seq<Seq<char>> {
        self.patterns.deep_view()
    }

    /// Whether one of the handler's patterns matches `candidate`.
    pub fn matches(&self, candidate: &str) -> (r: bool)
        ensures
            r == any_match(self.pattern_texts(), candidate@),
    {
        let mut i: usize = 0;
        while i < self.patterns.len()
            invariant
                i <= self.patterns@.len(),
                forall|k: int| 0 <= k < i ==> !regex_is_match(#[trigger] self.pattern_texts()[k], candidate@),
            decreases self.patterns@.len() - i,
        {
            assert(self.pattern_texts()[i as int] == self.patterns@[i as int]@);
            if regex_matches(self.patterns[i].as_str(), candidate) {
                return true;
            }
            i = i + 1;
        }
        false
    }

    /// The patterns of the handler.
    pub fn patterns(&self) -> (r: &[String])
        ensures
            r.deep_view() == self.pattern_texts(),
    {
        self.patterns.as_slice()
    }
}

/// Where a handler goes among handlers sorted by decreasing priority:
/// after every handler of the same or a higher priority.
pub open spec fn insert_by_priority(sorted: Seq<RegexHandler>, h: RegexHandler) -> Seq<RegexHandler>
    decreases sorted.len(),
{
    if sorted.len() == 0 {
        seq![h]
    } else if sorted.last().priority >= h.priority {
        sorted.push(h)
    } else {
        insert_by_priority(sorted.drop_last(), h).push(sorted.last())
    }
}

/// The handlers in decreasing priority, those of equal priority in their
/// original order (a stable sort).
pub open spec fn sort_by_priority(s: Seq<RegexHandler>) -> Seq<RegexHandler>
    decreases s.len(),
{
    if s.len() == 0 {
        s
    } else {
        insert_by_priority(sort_by_priority(s.drop_last()), s.last())
    }
}

/// Inserting at the position found by scanning from the back.
proof fn lemma_insert_at(sorted: Seq<RegexHandler>, h: RegexHandler, j: int)
    requires
        0 <= j <= sorted.len(),
        forall|k: int| j <= k < sorted.len() ==> (#[trigger] sorted[k]).priority < h.priority,
        j > 0 ==> sorted[j - 1].priority >= h.priority,
    ensures
        insert_by_priority(sorted, h) == sorted.take(j).push(h) + sorted.skip(j),
    decreases sorted.len(),
{
    if sorted.len() == 0 {
        assert(sorted.take(j).push(h) + sorted.skip(j) =~= seq![h]);
    } else if j == sorted.len() {
        assert(sorted.take(j) =~= sorted);
        assert(sorted.push(h) + sorted.skip(j) =~= sorted.push(h));
    } else {
        let t = sorted.drop_last();
        assert forall|k: int| j <= k < t.len() implies (#[trigger] t[k]).priority < h.priority by {
            assert(t[k] == sorted[k]);
        }
        if j > 0 {
            assert(t[j - 1] == sorted[j - 1]);
        }
        lemma_insert_at(t, h, j);
        assert(sorted[sorted.len() - 1].priority < h.priority);
        assert(t.take(j) =~= sorted.take(j));
        assert((t.take(j).push(h) + t.skip(j)).push(sorted.last()) =~= sorted.take(j).push(h) + sorted.skip(j));
    }
}

/// Priorities that never increase along the sequence.
pub open spec fn by_decreasing_priority(s: Seq<RegexHandler>) -> bool {
    forall|i: int, j: int| 0 <= i < j < s.len() ==> (#[trigger] s[i]).priority >= (#[trigger] s[j]).priority
}

proof fn lemma_insert_bound(sorted: Seq<RegexHandler>, h: RegexHandler, m: int)
    requires
        forall|k: int| 0 <= k < sorted.len() ==> (#[trigger] sorted[k]).priority >= m,
        h.priority >= m,
    ensures
        insert_by_priority(sorted, h).len() == sorted.len() + 1,
        forall|k: int|
            0 <= k < insert_by_priority(sorted, h).len() ==> (#[trigger] insert_by_priority(sorted, h)[k]).priority
                >= m,
    decreases sorted.len(),
{
    if sorted.len() > 0 && sorted.last().priority < h.priority {
        let t = sorted.drop_last();
        assert forall|k: int| 0 <= k < t.len() implies (#[trigger] t[k]).priority >= m by {
            assert(t[k] == sorted[k]);
        }
        lemma_insert_bound(t, h, m);
        let r = insert_by_priority(t, h);
        assert(sorted[sorted.len() - 1] == sorted.last());
        assert forall|k: int| 0 <= k < r.push(sorted.last()).len() implies (#[trigger] r.push(
            sorted.last(),
        )[k]).priority >= m by {
            if k < r.len() {
                assert(r.push(sorted.last())[k] == r[k]);
            }
        }
    } else if sorted.len() > 0 {
        assert forall|k: int| 0 <= k < sorted.push(h).len() implies (#[trigger] sorted.push(h)[k]).priority
            >= m by {
            if k < sorted.len() {
                assert(sorted.push(h)[k] == sorted[k]);
            }
        }
    }
}

proof fn lemma_insert_sorted(sorted: Seq<RegexHandler>, h: RegexHandler)
    requires
        by_decreasing_priority(sorted),
    ensures
        by_decreasing_priority(insert_by_priority(sorted, h)),
    decreases sorted.len(),
{
    if sorted.len() > 0 {
        let l = sorted.last();
        assert(sorted[sorted.len() - 1] == l);
        if l.priority >= h.priority {
            let r = sorted.push(h);
            assert forall|i: int, j: int| 0 <= i < j < r.len() implies (#[trigger] r[i]).priority >= (
            #[trigger] r[j]).priority by {
                if j == sorted.len() {
                    assert(r[i] == sorted[i]);
                    if i < sorted.len() - 1 {
                        assert(sorted[i].priority >= sorted[sorted.len() - 1].priority);
                    }
                } else {
                    assert(r[i] == sorted[i] && r[j] == sorted[j]);
                }
            }
        } else {
            let t = sorted.drop_last();
            assert(by_decreasing_priority(t)) by {
                assert forall|i: int, j: int| 0 <= i < j < t.len() implies (#[trigger] t[i]).priority >= (
                #[trigger] t[j]).priority by {
                    assert(t[i] == sorted[i] && t[j] == sorted[j]);
                }
            }
            lemma_insert_sorted(t, h);
            assert forall|k: int| 0 <= k < t.len() implies (#[trigger] t[k]).priority >= l.priority by {
                assert(t[k] == sorted[k]);
                assert(sorted[k].priority >= sorted[sorted.len() - 1].priority);
            }
            lemma_insert_bound(t, h, l.priority as int);
            let ri = insert_by_priority(t, h);
            let r = ri.push(l);
            assert forall|i: int, j: int| 0 <= i < j < r.len() implies (#[trigger] r[i]).priority >= (
            #[trigger] r[j]).priority by {
                if j == ri.len() {
                    assert(r[i] == ri[i]);
                } else {
                    assert(r[i] == ri[i] && r[j] == ri[j]);
                }
            }
        }
    }
}

/// The handlers are tried in decreasing priority, and none is lost or
/// added.
pub proof fn law_handlers_by_priority(s: Seq<RegexHandler>)
    ensures
        by_decreasing_priority(sort_by_priority(s)),
        sort_by_priority(s).len() == s.len(),
    decreases s.len(),
{
    if s.len() > 0 {
        law_handlers_by_priority(s.drop_last());
        lemma_insert_sorted(sort_by_priority(s.drop_last()), s.last());
        lemma_insert_bound(sort_by_priority(s.drop_last()), s.last(), i32::MIN as int);
    }
}

/// Why the regex handlers cannot be loaded.
#[derive(Debug, Clone)]
pub enum RegexError {
    /// A pattern of a handler does not compile.
    Compile { pattern: String, exec_line: String },
}

/// The message of each error.
pub open spec fn regex_error_text(e: RegexError) -> Seq<char> {
    match e {
        RegexError::Compile { pattern, exec_line } => "Failed to compile regex `"@ + pattern@
            + "` for handler `"@ + exec_line@ + "`"@,
    }
}

impl RegexError {
    /// The message that describes the error.
    pub fn message(&self) -> (r: String)
        ensures
            r@ == regex_error_text(*self),
    {
        match self {
            RegexError::Compile { pattern, exec_line } => {
                let mut m = to_string_of("Failed to compile regex `");
                m.push_str(pattern.as_str());
                m.push_str("` for handler `");
                m.push_str(exec_line.as_str());
                m.push_str("`");
                m
            },
        }
    }
}

/// Whether every pattern of every definition compiles.
pub open spec fn all_compile(defs: Seq<RegexHandlerDefinition>) -> bool {
    forall|i: int, j: int|
        0 <= i < defs.len() && 0 <= j < defs[i].regexes@.len() ==> regex_valid(
            #[trigger] defs[i].regexes@[j]@,
        )
}

/// The handler a definition gives.
pub open spec fn handler_of(d: RegexHandlerDefinition, h: RegexHandler) -> bool {
    &&& h.exec_line == d.exec_line
    &&& h.terminal == d.terminal
    &&& h.priority == d.priority
    &&& h.notes == d.notes
    &&& h.pattern_texts() == d.regexes.deep_view()
}

/// The handlers, in decreasing priority, that the configuration defines.
#[derive(Debug, Clone)]
pub struct RegexHandlerStore {
    definitions: Vec<RegexHandlerDefinition>,
    handlers: Vec<RegexHandler>,
}

impl RegexHandlerStore {
    /// The handlers, in the order they are tried.
    pub closed spec fn handler_seq(self) -> Seq<RegexHandler> {
        self.handlers@
    }

    /// The definitions the handlers were made from, in their order.
    pub closed spec fn definition_seq(self) -> Seq<RegexHandlerDefinition> {
        self.definitions@
    }

    /// A store with no handlers.
    pub fn empty() -> (r: Self)
        ensures
            r.handler_seq().len() == 0,
            r.definition_seq().len() == 0,
    {
        RegexHandlerStore { definitions: Vec::new(), handlers: Vec::new() }
    }

    /// Compiles the definitions: an error names the first pattern, in
    /// definition order, that does not compile; otherwise the handlers are
    /// sorted by decreasing priority, those of equal priority in definition
    /// order.
    pub fn from_definitions(definitions: Vec<RegexHandlerDefinition>) -> (r: Result<Self, RegexError>)
        ensures
            r is Ok <==> all_compile(definitions@),
            match r {
                Ok(store) => {
                    &&& store.definition_seq() == definitions@
                    &&& exists|made: Seq<RegexHandler>|
                        {
                            &&& made.len() == definitions@.len()
                            &&& forall|i: int| 0 <= i < made.len() ==> handler_of(#[trigger] definitions@[i], made[i])
                            &&& store.handler_seq() == sort_by_priority(made)
                        }
                },
                Err(RegexError::Compile { pattern, exec_line }) => exists|i: int, j: int|
                    0 <= i < definitions@.len() && 0 <= j < definitions@[i].regexes@.len()
                        && !regex_valid(#[trigger] definitions@[i].regexes@[j]@) && pattern@
                        == definitions@[i].regexes@[j]@ && exec_line == definitions@[i].exec_line,
            },
    {
        let mut sorted: Vec<RegexHandler> = Vec::new();
        let ghost mut made: Seq<RegexHandler> = Seq::empty();
        let mut i: usize = 0;
        while i < definitions.len()
            invariant
                i <= definitions@.len(),
                made.len() == i,
                forall|k: int| 0 <= k < i ==> handler_of(#[trigger] definitions@[k], made[k]),
                sorted@ == sort_by_priority(made),
                forall|a: int, b: int|
                    0 <= a < i && 0 <= b < definitions@[a].regexes@.len() ==> regex_valid(
                        #[trigger] definitions@[a].regexes@[b]@,
                    ),
            decreases definitions@.len() - i,
        {
            let def = &definitions[i];
            let mut j: usize = 0;
            while j < def.regexes.len()
                invariant
                    j <= def.regexes@.len(),
                    i < definitions@.len(),
                    *def == definitions@[i as int],
                    forall|b: int| 0 <= b < j ==> regex_valid(#[trigger] def.regexes@[b]@),
                decreases def.regexes@.len() - j,
            {
                if !regex_compiles(def.regexes[j].as_str()) {
                    assert(!regex_valid(definitions@[i as int].regexes@[j as int]@));
                    assert(!all_compile(definitions@));
                    return Err(
                        RegexError::Compile {
                            pattern: def.regexes[j].clone(),
                            exec_line: def.exec_line.clone(),
                        },
                    );
                }
                j = j + 1;
            }
            let patterns = def.regexes.clone();
            assert(patterns@ =~= def.regexes@);
            let h = RegexHandler {
                exec_line: def.exec_line.clone(),
                terminal: def.terminal,
                priority: def.priority,
                notes: match &def.notes {
                    Some(n) => Some(n.clone()),
                    None => None,
                },
                patterns,
            };
            let mut pos = sorted.len();
            while pos > 0 && sorted[pos - 1].priority < h.priority
                invariant
                    pos <= sorted@.len(),
                    forall|k: int| pos <= k < sorted@.len() ==> (#[trigger] sorted@[k]).priority < h.priority,
                decreases pos,
            {
                pos = pos - 1;
            }
            proof {
                lemma_insert_at(sorted@, h, pos as int);
                assert(made.push(h).drop_last() =~= made);
            }
            sorted.insert(pos, h);
            proof {
                made = made.push(h);
                assert(sorted@ =~= sort_by_priority(made));
            }
            i = i + 1;
        }
        Ok(RegexHandlerStore { definitions, handlers: sorted })
    }

    /// How many handlers there are.
    pub fn len(&self) -> (r: usize)
        ensures
            r == self.handler_seq().len(),
    {
        self.handlers.len()
    }

    /// Whether there is no handler.
    pub fn is_empty(&self) -> (r: bool)
        ensures
            r == (self.handler_seq().len() == 0),
    {
        self.handlers.len() == 0
    }

    /// The handlers, in the order they are tried.
    pub fn handlers(&self) -> (r: &[RegexHandler])
        ensures
            r@ == self.handler_seq(),
    {
        self.handlers.as_slice()
    }

    /// The definitions, for saving.
    pub fn definitions(&self) -> (r: &[RegexHandlerDefinition])
        ensures
            r@ == self.definition_seq(),
    {
        self.definitions.as_slice()
    }

    /// The first handler, in priority order, with a pattern that matches
    /// `candidate`.
    pub fn find_handler(&self, candidate: &str) -> (r: Option<&RegexHandler>)
        ensures
            match first_where(
                self.handler_seq().len() as int,
                matching(self.handler_seq(), candidate@),
            ) {
                Some(k) => r is Some && *r->0 == self.handler_seq()[k],
                None => r is None,
            },
    {
        let ghost pred = matching(self.handler_seq(), candidate@);
        let mut i: usize = 0;
        while i < self.handlers.len()
            invariant
                i <= self.handlers@.len(),
                pred == matching(self.handler_seq(), candidate@),
                first_where(i as int, pred) is None,
            decreases self.handlers@.len() - i,
        {
            if self.handlers[i].matches(candidate) {
                proof {
                    assert(pred(i as int));
                    crate::application_finder::lemma_first_where_stable(
                        i + 1,
                        self.handlers@.len() as int,
                        pred,
                    );
                }
                return Some(&self.handlers[i]);
            }
            assert(!pred(i as int));
            i = i + 1;
        }
        None
    }
}

/// Handler `i` has a pattern that matches `text`.
pub open spec fn matching(hs: Seq<RegexHandler>, text: Seq<char>) -> spec_fn(int) -> bool {
    |i: int| any_match(hs[i].pattern_texts(), text)
}

/// The desktop file name given to the entry of a regex handler.
pub open spec fn regex_desktop_file(priority: int) -> Seq<char> {
    "regex-handler-"@ + int_text(priority) + ".desktop"@
}

/// The entry under which a regex handler is offered: named after its notes
/// or its priority, described by its command and patterns, and ranked by
/// its priority.
pub open spec fn regex_app_spec(h: RegexHandler) -> AppView {
    AppView {
        name: match h.notes {
            Some(n) => n@,
            None => "Regex handler (prio "@ + int_text(h.priority as int) + ")"@,
        },
        exec_line: h.exec_line@,
        desktop_file: regex_desktop_file(h.priority as int),
        comment: Some(
            if h.pattern_texts().len() == 0 || join_with(h.pattern_texts(), ", "@).len() == 0 {
                "Regex handler -> "@ + h.exec_line@
            } else {
                "Regex handler -> "@ + h.exec_line@ + " ["@ + join_with(h.pattern_texts(), ", "@)
                    + "]"@
            },
        ),
        icon: None,
        is_xdg: false,
        xdg_priority: h.priority as int,
        is_default: false,
        action_id: None,
    }
}

/// The entry under which a regex handler is offered.
pub fn application_from_regex(handler: &RegexHandler) -> (r: ApplicationEntry)
    ensures
        r@ == regex_app_spec(*handler),
{
    let prio = int_to_text(handler.priority);
    let name = match &handler.notes {
        Some(n) => n.clone(),
        None => {
            let mut t = to_string_of("Regex handler (prio ");
            t.push_str(prio.as_str());
            t.push_str(")");
            t
        },
    };
    let mut patterns = String::new();
    let pats = handler.patterns.clone();
    assert(pats@ =~= handler.patterns@);
    push_separated(&mut patterns, &pats, ", ");
    assert(patterns@ =~= join_with(handler.pattern_texts(), ", "@));
    let mut comment = to_string_of("Regex handler -> ");
    comment.push_str(handler.exec_line.as_str());
    let pc = crate::text::chars_of(patterns.as_str());
    if pc.len() > 0 {
        comment.push_str(" [");
        comment.push_str(patterns.as_str());
        comment.push_str("]");
    }
    let mut file = to_string_of("regex-handler-");
    file.push_str(prio.as_str());
    file.push_str(".desktop");
    ApplicationEntry {
        name,
        exec_line: handler.exec_line.clone(),
        desktop_file: file,
        comment: Some(comment),
        icon: None,
        is_xdg: false,
        xdg_priority: handler.priority,
        is_default: false,
        action_id: None,
    }
}

/// Whether the first application offered comes from a regex handler.
pub fn first_is_regex_handler(applications: &[ApplicationEntry]) -> (r: bool)
    ensures
        r == (applications@.len() > 0 && has_prefix(applications@[0].desktop_file@, "regex-handler-"@)),
{
    if applications.len() == 0 {
        return false;
    }
    let d = crate::text::chars_of(applications[0].desktop_file.as_str());
    crate::text::starts_with_chars(d.as_slice(), crate::text::chars_of("regex-handler-").as_slice())
}

} // verus!
