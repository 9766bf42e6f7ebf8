//! String templates with `{name}` placeholders.
use vstd::prelude::*;
use crate::strmap::StrMap;
use crate::text::{
    chars_of, find_char, find_char_from, has_prefix, index_of, parse_index, parse_usize_spec, push_range,
    slice_subrange, split_once, starts_with_chars, string_of,
};

verus! {

/// `v` cut to its first `n` characters, with `...` after them, when it is
/// longer than that.
pub open spec fn truncate_spec(v: Seq<char>, n: nat) -> Seq<char> {
    if v.len() > n {
        v.take(n as int) + "..."@
    } else {
        v
    }
}

/// What the placeholder `{content}` stands for: the value of the variable
/// `content` when it is set; else, for `name|truncate:N`, the value of
/// `name` cut to `N` characters; else nothing.
pub open spec fn placeholder_value(vars: Map<Seq<char>, Seq<char>>, content: Seq<char>) -> Option<
    Seq<char>,
> {
    if vars.contains_key(content) {
        Some(vars[content])
    } else {
        match split_once(content, '|') {
            Some(parts) => if vars.contains_key(parts.0) && has_prefix(parts.1, "truncate:"@) {
                match parse_usize_spec(parts.1.skip(9)) {
                    Some(n) => Some(truncate_spec(vars[parts.0], n)),
                    None => None,
                }
            } else {
                None
            },
            None => None,
        }
    }
}

/// The text that rendering `t` gives with the variables `vars`: `{...}`
/// becomes what it stands for (see `placeholder_value`) when the brace
/// closes, and stays as it is otherwise; `{{` stays as it is; anything
/// else is copied.
pub open spec fn render_spec(vars: Map<Seq<char>, Seq<char>>, t: Seq<char>) -> Seq<char>
    decreases t.len(),
{
    if t.len() == 0 {
        Seq::<char>::empty()
    } else if t[0] == '{' && t.len() > 1 {
        if t[1] == '{' {
            seq!['{', '{'] + render_spec(vars, t.skip(2))
        } else {
            match index_of(t.skip(1), '}') {
                Some(j) => {
                    proof {
                        crate::text::lemma_index_of(t.skip(1), '}');
                    }
                    let name = t.skip(1).take(j as int);
                    match placeholder_value(vars, name) {
                        Some(v) => v + render_spec(vars, t.skip(j as int + 2)),
                        None => t.take(j as int + 2) + render_spec(vars, t.skip(j as int + 2)),
                    }
                },
                None => t,
            }
        }
    } else {
        seq![t[0]] + render_spec(vars, t.skip(1))
    }
}

/// Rendering a text without `{` gives it back unchanged, whatever the
/// variables.
pub proof fn law_render_without_braces(vars: Map<Seq<char>, Seq<char>>, t: Seq<char>)
    requires
        !t.contains('{'),
    ensures
        render_spec(vars, t) == t,
    decreases t.len(),
{
    if t.len() > 0 {
        assert(t[0] != '{');
        let rest = t.skip(1);
        assert(!rest.contains('{')) by {
            if rest.contains('{') {
                let k = choose|k: int| 0 <= k < rest.len() && rest[k] == '{';
                assert(t[k + 1] == '{');
            }
        }
        law_render_without_braces(vars, rest);
        assert(seq![t[0]] + rest =~= t);
    }
}

/// A text of one placeholder `{content}` renders to what the placeholder
/// stands for, when that is something.
proof fn lemma_render_one_placeholder(vars: Map<Seq<char>, Seq<char>>, content: Seq<char>)
    requires
        !content.contains('}'),
        content.len() > 0 ==> content[0] != '{',
        placeholder_value(vars, content) is Some,
    ensures
        render_spec(vars, seq!['{'] + content + seq!['}']) == placeholder_value(vars, content)->0,
{
    let t = seq!['{'] + content + seq!['}'];
    let body = t.skip(1);
    assert(body =~= content + seq!['}']);
    crate::text::lemma_index_of(body, '}');
    assert(index_of(body, '}') == Some(content.len())) by {
        assert(body[content.len() as int] == '}');
        match index_of(body, '}') {
            Some(j) => {
                if j < content.len() {
                    assert(body[j as int] == content[j as int]);
                    assert(content.contains('}'));
                }
            },
            None => {
                assert(body.contains('}')) by {
                    assert(body[content.len() as int] == '}');
                }
            },
        }
    }
    assert(body.take(content.len() as int) =~= content);
    assert(t.skip(content.len() as int + 2).len() == 0);
    if content.len() > 0 {
        assert(t[1] == content[0]);
    } else {
        assert(t[1] == '}');
    }
    let v = placeholder_value(vars, content)->0;
    assert(render_spec(vars, t.skip(content.len() as int + 2)) =~= Seq::<char>::empty());
    assert(v + Seq::<char>::empty() =~= v);
}

/// A placeholder `{key}` of a set variable renders to the variable's
/// value, when the key holds no `}` and does not start with `{`.
pub proof fn law_render_set_variable(vars: Map<Seq<char>, Seq<char>>, key: Seq<char>, value: Seq<char>)
    requires
        !key.contains('}'),
        key.len() > 0 ==> key[0] != '{',
    ensures
        render_spec(vars.insert(key, value), seq!['{'] + key + seq!['}']) == value,
{
    lemma_render_one_placeholder(vars.insert(key, value), key);
}

/// `{key|truncate:N}` renders to the value of `key` cut to `N` characters,
/// with `...` after them when it was longer, when the key holds no `}` or
/// `|` and does not start with `{`, `N` is written in digits, and no
/// variable is named after the whole placeholder.
pub proof fn law_render_truncate(
    vars: Map<Seq<char>, Seq<char>>,
    key: Seq<char>,
    value: Seq<char>,
    digits: Seq<char>,
)
    requires
        !key.contains('}'),
        !key.contains('|'),
        key.len() > 0 ==> key[0] != '{',
        !digits.contains('}'),
        parse_usize_spec(digits) is Some,
        !vars.contains_key(key + "|truncate:"@ + digits),
    ensures
        render_spec(
            vars.insert(key, value),
            seq!['{'] + key + "|truncate:"@ + digits + seq!['}'],
        ) == truncate_spec(value, parse_usize_spec(digits)->0),
{
    reveal_strlit("|truncate:");
    reveal_strlit("truncate:");
    let m = vars.insert(key, value);
    let content = key + "|truncate:"@ + digits;
    assert(content.len() == key.len() + 10 + digits.len());
    assert(content[key.len() as int] == '|');
    crate::text::lemma_index_of(content, '|');
    assert(index_of(content, '|') == Some(key.len())) by {
        match index_of(content, '|') {
            Some(j) => {
                if j < key.len() {
                    assert(content[j as int] == key[j as int]);
                    assert(key.contains('|'));
                }
            },
            None => {
                assert(content.contains('|'));
            },
        }
    }
    assert(content.take(key.len() as int) =~= key);
    let rest = content.skip(key.len() as int + 1);
    assert(rest =~= "truncate:"@ + digits);
    assert(rest.take(9) =~= "truncate:"@);
    assert(rest.skip(9) =~= digits);
    assert(has_prefix(rest, "truncate:"@));
    assert(content != key);
    assert(!m.contains_key(content));
    assert(placeholder_value(m, content) == Some(truncate_spec(value, parse_usize_spec(digits)->0)));
    assert(!content.contains('}')) by {
        if content.contains('}') {
            let k = choose|k: int| 0 <= k < content.len() && content[k] == '}';
            if k < key.len() {
                assert(key[k] == '}');
            } else if k >= key.len() + 10 {
                assert(digits[k - key.len() - 10] == '}');
            } else {
                assert(("|truncate:"@)[k - key.len()] == '}');
            }
        }
    }
    if key.len() == 0 {
        assert(content[0] == '|');
    } else {
        assert(content[0] == key[0]);
    }
    lemma_render_one_placeholder(m, content);
    assert(seq!['{'] + key + "|truncate:"@ + digits + seq!['}'] =~= seq!['{'] + content + seq!['}']);
}

/// A simple template engine for string substitution.
#[derive(Debug, Clone)]
pub struct TemplateEngine {
    pub variables: StrMap<String>,
}

impl TemplateEngine {
    /// The variables and their values.
    pub closed spec fn vars(self) -> Map<Seq<char>, Seq<char>> {
        self.variables.map().map_values(|v: String| v@)
    }

    /// Create a new template engine with no variables.
    pub fn new() -> (r: Self)
        ensures
            r.vars() == Map::<Seq<char>, Seq<char>>::empty(),
    {
        let r = TemplateEngine { variables: StrMap::new() };
        assert(r.vars() =~= Map::<Seq<char>, Seq<char>>::empty());
        r
    }

    /// Set a variable for template substitution; the engine is handed back
    /// so that calls can be chained.
    pub fn set(&mut self, key: &str, value: &str) -> (r: &mut Self)
        ensures
            r.vars() == old(self).vars().insert(key@, value@),
            *final(self) == *final(r),
    {
        let k = string_of(chars_of(key).as_slice());
        let v = string_of(chars_of(value).as_slice());
        let ghost old_map = self.variables.map();
        self.variables.insert(k, v);
        assert(self.vars() =~= old(self).vars().insert(key@, value@));
        self
    }

    /// Clear all variables.
    pub fn clear(&mut self)
        ensures
            final(self).vars() == Map::<Seq<char>, Seq<char>>::empty(),
    {
        self.variables.clear();
        assert(self.vars() =~= Map::<Seq<char>, Seq<char>>::empty());
    }

    /// Check if a variable is set.
    pub fn has_variable(&self, key: &str) -> (r: bool)
        ensures
            r == self.vars().contains_key(key@),
    {
        self.variables.contains_key(key)
    }

    /// Get the value of a variable.
    pub fn get_variable(&self, key: &str) -> (r: Option<&str>)
        ensures
            match r {
                Some(v) => self.vars().contains_key(key@) && v@ == self.vars()[key@],
                None => !self.vars().contains_key(key@),
            },
    {
        match self.variables.get(key) {
            Some(v) => Some(v.as_str()),
            None => None,
        }
    }

    /// What the placeholder with content `name` stands for.
    fn placeholder(&self, name: &Vec<char>) -> (r: Option<Vec<char>>)
        ensures
            match placeholder_value(self.vars(), name@) {
                Some(v) => r is Some && r->0@ == v,
                None => r is None,
            },
    {
        let key = string_of(name.as_slice());
        match self.variables.get(key.as_str()) {
            Some(v) => {
                return Some(chars_of(v.as_str()));
            },
            None => {},
        }
        let k = match find_char(name.as_slice(), '|') {
            Some(k) => k,
            None => {
                return None;
            },
        };
        proof {
            crate::text::lemma_index_of(name@, '|');
        }
        let n = name.len();
        let left = slice_subrange(name.as_slice(), 0, k);
        let right = slice_subrange(name.as_slice(), k + 1, n);
        assert(left@ == name@.take(k as int));
        assert(right@ == name@.skip(k + 1));
        let base = string_of(left.as_slice());
        let value = match self.variables.get(base.as_str()) {
            Some(v) => v,
            None => {
                return None;
            },
        };
        let prefix = chars_of("truncate:");
        proof {
            reveal_strlit("truncate:");
        }
        if !starts_with_chars(right.as_slice(), prefix.as_slice()) {
            return None;
        }
        let digits = slice_subrange(right.as_slice(), 9, right.len());
        assert(digits@ == right@.skip(9));
        let limit = match parse_index(string_of(digits.as_slice()).as_str()) {
            Some(l) => l,
            None => {
                return None;
            },
        };
        let vc = chars_of(value.as_str());
        if vc.len() > limit {
            let mut out = slice_subrange(vc.as_slice(), 0, limit);
            let dots = chars_of("...");
            push_range(&mut out, dots.as_slice(), 0, dots.len());
            assert(dots@.subrange(0, dots@.len() as int) == dots@);
            assert(out@ =~= vc@.take(limit as int) + "..."@);
            Some(out)
        } else {
            Some(vc)
        }
    }

    /// One step of rendering: handles the text that starts at `i` and hands
    /// back where the next step starts.
    fn render_step(&self, t: &Vec<char>, i: usize, out: &mut Vec<char>) -> (next: usize)
        requires
            i < t@.len(),
        ensures
            i < next <= t@.len(),
            final(out)@ + render_spec(self.vars(), t@.skip(next as int)) == old(out)@
                + render_spec(self.vars(), t@.skip(i as int)),
    {
        let n = t.len();
        let ghost vars = self.vars();
        let ghost s = t@.skip(i as int);
        assert(s[0] == t@[i as int]);
        if t[i] == '{' && i + 1 < n {
            assert(s[1] == t@[i + 1]);
            if t[i + 1] == '{' {
                out.push('{');
                out.push('{');
                assert(s.skip(2) == t@.skip(i + 2));
                assert(out@ + render_spec(vars, t@.skip(i + 2)) =~= old(out)@ + render_spec(
                    vars,
                    s,
                ));
                i + 2
            } else {
                assert(s.skip(1) == t@.skip(i + 1));
                match find_char_from(t.as_slice(), i + 1, '}') {
                    Some(j) => {
                        let ghost jr = (j - (i + 1)) as int;
                        let name_chars = slice_subrange(t.as_slice(), i + 1, j);
                        assert(name_chars@ == s.skip(1).take(jr));
                        match self.placeholder(&name_chars) {
                            Some(vc) => {
                                push_range(out, vc.as_slice(), 0, vc.len());
                                assert(vc@.subrange(0, vc@.len() as int) == vc@);
                            },
                            None => {
                                push_range(out, t.as_slice(), i, j + 1);
                                assert(t@.subrange(i as int, j + 1) == s.take(jr + 2));
                            },
                        }
                        assert(s.skip(jr + 2) == t@.skip(j + 1));
                        assert(out@ + render_spec(vars, t@.skip(j + 1)) =~= old(out)@
                            + render_spec(vars, s));
                        j + 1
                    },
                    None => {
                        push_range(out, t.as_slice(), i, n);
                        assert(t@.subrange(i as int, n as int) == s);
                        assert(t@.skip(n as int).len() == 0);
                        assert(out@ + render_spec(vars, t@.skip(n as int)) =~= old(out)@
                            + render_spec(vars, s));
                        n
                    },
                }
            }
        } else {
            out.push(t[i]);
            assert(s.skip(1) == t@.skip(i + 1));
            assert(out@ + render_spec(vars, t@.skip(i + 1)) =~= old(out)@ + render_spec(
                vars,
                s,
            ));
            i + 1
        }
    }

    /// Render a template string by substituting variables.
    pub fn render(&self, template: &str) -> (r: String)
        ensures
            r@ == render_spec(self.vars(), template@),
    {
        let t = chars_of(template);
        let n = t.len();
        let mut out: Vec<char> = Vec::new();
        let mut i: usize = 0;
        assert(t@.skip(0) == t@);
        while i < n
            invariant
                0 <= i <= n,
                n == t@.len(),
                t@ == template@,
                out@ + render_spec(self.vars(), t@.skip(i as int)) == render_spec(
                    self.vars(),
                    template@,
                ),
            decreases n - i,
        {
            i = self.render_step(&t, i, &mut out);
        }
        assert(t@.skip(n as int).len() == 0);
        assert(out@ =~= render_spec(self.vars(), template@));
        string_of(out.as_slice())
    }

    /// Render template arguments by substituting variables in each argument.
    pub fn render_args(&self, args: &[String]) -> (r: Vec<String>)
        ensures
            r@.len() == args@.len(),
            forall|i: int|
                0 <= i < args@.len() ==> #[trigger] r@[i]@ == render_spec(self.vars(), args@[i]@),
    {
        let mut r: Vec<String> = Vec::new();
        let mut i: usize = 0;
        while i < args.len()
            invariant
                0 <= i <= args@.len(),
                r@.len() == i,
                forall|k: int|
                    0 <= k < i ==> #[trigger] r@[k]@ == render_spec(self.vars(), args@[k]@),
            decreases args@.len() - i,
        {
            r.push(self.render(args[i].as_str()));
            i = i + 1;
        }
        r
    }
}

impl Default for TemplateEngine {
    fn default() -> (r: Self)
        ensures
            r.vars() == Map::<Seq<char>, Seq<char>>::empty(),
    {
        Self::new()
    }
}

} // verus!
