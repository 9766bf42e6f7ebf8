//! The user's `mimeapps.list`: reading, editing and writing it.
use vstd::prelude::*;
use crate::mime_associations::{added_section, default_section};
use crate::strmap::{keys_sorted, lemma_pairs_to_map, StrMap};
use crate::mime_pattern::{glob_match, wildcard_matches};
use crate::text::{
    lex_lt, push_all, add_unseen, add_unseen_into, chars_eq, chars_of, contains_string, lines, lines_of, no_dups,
    push_string, split_char, split_on, split_once, str_eq, string_of, trim, trim_chars,
    trimmed_nonempty, trimmed_nonempty_of, is_ws, index_of, strip_cr, text_of,
};

verus! {

/// The members of `s` that `keep` marks, in order.
pub open spec fn filter_keep<A>(s: Seq<A>, keep: Seq<bool>) -> Seq<A>
    decreases s.len(),
{
    if s.len() == 0 {
        Seq::<A>::empty()
    } else {
        let prev = filter_keep(s.drop_last(), keep.drop_last());
        if keep.last() {
            prev.push(s.last())
        } else {
            prev
        }
    }
}

/// `s` without the members equal to `t`.
pub open spec fn remove_all(s: Seq<Seq<char>>, t: Seq<char>) -> Seq<Seq<char>>
    decreases s.len(),
{
    if s.len() == 0 {
        Seq::<Seq<char>>::empty()
    } else {
        let prev = remove_all(s.drop_last(), t);
        if s.last() != t {
            prev.push(s.last())
        } else {
            prev
        }
    }
}

/// `s` with each member first occurring once, in order of first occurrence.
pub open spec fn dedup(s: Seq<Seq<char>>) -> Seq<Seq<char>> {
    add_unseen(Seq::<Seq<char>>::empty(), s)
}

/// The handler queue captured for a MIME type.
#[derive(Debug, Default, Clone, PartialEq, Eq)]
pub struct DesktopList(Vec<String>);

impl DesktopList {
    /// The handlers in order.
    pub closed spec fn handlers(self) -> Seq<Seq<char>> {
        self.0.deep_view()
    }

    /// The handlers as strings, in order.
    pub closed spec fn items(self) -> Seq<String> {
        self.0@
    }

    /// Views of the items are the handlers.
    pub proof fn lemma_items(self)
        ensures
            self.items().len() == self.handlers().len(),
            forall|i: int| 0 <= i < self.items().len() ==> #[trigger] self.items()[i]@ == self.handlers()[i],
    {
    }

    /// An empty list.
    pub fn new() -> (r: Self)
        ensures
            r.handlers() == Seq::<Seq<char>>::empty(),
    {
        let r = DesktopList(Vec::new());
        assert(r.handlers() =~= Seq::<Seq<char>>::empty());
        r
    }

    /// Appends every handler of `items`, in order.
    pub fn extend(&mut self, items: Vec<String>)
        ensures
            final(self).handlers() == old(self).handlers() + items.deep_view(),
    {
        let mut items = items;
        let ghost before = self.0.deep_view();
        let ghost iv = items.deep_view();
        self.0.append(&mut items);
        assert(self.0.deep_view() =~= before + iv);
    }

    /// Appends one handler.
    pub fn push_back(&mut self, handler: String)
        ensures
            final(self).handlers() == old(self).handlers().push(handler@),
    {
        push_string(&mut self.0, handler);
    }

    /// Removes every handler.
    pub fn clear(&mut self)
        ensures
            final(self).handlers() == Seq::<Seq<char>>::empty(),
    {
        self.0.clear();
        assert(self.0.deep_view() =~= Seq::<Seq<char>>::empty());
    }

    /// Keeps the handlers for which `f` answers `true`, in order.
    pub fn retain<F: Fn(&String) -> bool>(&mut self, f: F)
        requires
            forall|h: &String| #[trigger] f.requires((h,)),
        ensures
            exists|keep: Seq<bool>|
                {
                    &&& keep.len() == old(self).items().len()
                    &&& forall|i: int|
                        0 <= i < keep.len() ==> #[trigger] f.ensures((&old(self).items()[i],), keep[i])
                    &&& final(self).items() == filter_keep(old(self).items(), keep)
                },
    {
        let ghost old_v = self.0@;
        let mut kept: Vec<String> = Vec::new();
        let mut all: Vec<String> = Vec::new();
        std::mem::swap(&mut all, &mut self.0);
        let ghost mut keep: Seq<bool> = Seq::empty();
        let n = all.len();
        let mut i: usize = 0;
        while i < n
            invariant
                0 <= i <= n,
                n == all@.len(),
                all@ == old_v,
                keep.len() == i,
                forall|j: int| 0 <= j < i ==> #[trigger] f.ensures((&old_v[j],), keep[j]),
                forall|h: &String| #[trigger] f.requires((h,)),
                kept@ == filter_keep(old_v.take(i as int), keep),
            decreases n - i,
        {
            let b = f(&all[i]);
            let ghost kept_before = kept@;
            let ghost keep_before = keep;
            proof {
                keep = keep.push(b);
            }
            if b {
                kept.push(all[i].clone());
            }
            proof {
                assert(keep.drop_last() =~= keep_before);
                assert(old_v.take(i + 1).drop_last() =~= old_v.take(i as int));
                assert(old_v.take(i + 1).last() == old_v[i as int]);
                assert(kept@ =~= filter_keep(old_v.take(i + 1), keep));
                assert forall|j: int| 0 <= j < i + 1 implies #[trigger] f.ensures(
                    (&old_v[j],),
                    keep[j],
                ) by {
                    if j < i {
                        assert(keep[j] == keep_before[j]);
                    }
                }
            }
            i = i + 1;
        }
        assert(old_v.take(n as int) =~= old_v);
        self.0 = kept;
        assert(self.items() == filter_keep(old_v, keep));
        assert(old_v == old(self).items());
        assert(forall|j: int|
            0 <= j < keep.len() ==> #[trigger] f.ensures((&old(self).items()[j],), keep[j]));
    }

    /// Whether the list is empty.
    pub fn is_empty(&self) -> (r: bool)
        ensures
            r == (self.handlers().len() == 0),
    {
        self.0.len() == 0
    }

    /// Whether `handler` is in the list.
    pub fn contains(&self, handler: &str) -> (r: bool)
        ensures
            r == self.handlers().contains(handler@),
    {
        let h = string_of(chars_of(handler).as_slice());
        contains_string(&self.0, &h)
    }

    /// The handlers in order.
    pub fn iter(&self) -> (r: &[String])
        ensures
            r@ == self.items(),
            r.deep_view() == self.handlers(),
    {
        self.0.as_slice()
    }

    /// Keeps the first occurrence of each handler, in order.
    pub fn dedup(&mut self)
        ensures
            final(self).handlers() == dedup(old(self).handlers()),
            no_dups(final(self).handlers()),
    {
        let mut out: Vec<String> = Vec::new();
        assert(out.deep_view() =~= Seq::<Seq<char>>::empty());
        add_unseen_into(&mut out, &self.0);
        self.0 = out;
    }
}


/// Every member that `filter_keep` keeps is a member of `s` that `keep`
/// marks.
#[verifier::spinoff_prover]
proof fn lemma_filter_keep_from(s: Seq<String>, keep: Seq<bool>)
    requires
        keep.len() == s.len(),
    ensures
        forall|j: int|
            0 <= j < filter_keep(s, keep).len() ==> exists|i: int|
                0 <= i < s.len() && keep[i] && #[trigger] filter_keep(s, keep)[j] == s[i],
    decreases s.len(),
{
    if s.len() > 0 {
        let t = s.drop_last();
        let k = keep.drop_last();
        lemma_filter_keep_from(t, k);
        let prev = filter_keep(t, k);
        assert forall|j: int| 0 <= j < filter_keep(s, keep).len() implies exists|i: int|
            0 <= i < s.len() && keep[i] && #[trigger] filter_keep(s, keep)[j] == s[i] by {
            if j < prev.len() {
                assert(filter_keep(s, keep)[j] == prev[j]);
                let i = choose|i: int| 0 <= i < t.len() && k[i] && #[trigger] prev[j] == t[i];
                assert(keep[i] == k[i] && s[i] == t[i]);
            } else {
                assert(filter_keep(s, keep)[j] == s[s.len() - 1]);
                assert(keep[s.len() - 1] == keep.last());
            }
        }
    }
}

/// What `contains` answers across the edits of a handler list: a handler
/// pushed with `push_back`, or among those appended with `extend`, is
/// contained afterwards, and every handler contained before still is; after
/// `clear` no handler is; after `retain` with a test that refused every
/// copy of `h`, `h` is not contained.
pub proof fn law_contains_across_edits(l: DesktopList, h: Seq<char>, items: Seq<Seq<char>>, keep: Seq<bool>)
    ensures
        l.handlers().push(h).contains(h),
        items.contains(h) ==> (l.handlers() + items).contains(h),
        forall|x: Seq<char>|
            l.handlers().contains(x) ==> #[trigger] l.handlers().push(h).contains(x) && (l.handlers()
                + items).contains(x),
        !Seq::<Seq<char>>::empty().contains(h),
        keep.len() == l.items().len() && (forall|i: int|
            0 <= i < keep.len() && #[trigger] keep[i] ==> l.items()[i]@ != h) ==> forall|j: int|
            0 <= j < filter_keep(l.items(), keep).len() ==> (#[trigger] filter_keep(l.items(), keep)[j])@
                != h,
{
    let hs = l.handlers();
    assert(hs.push(h)[hs.len() as int] == h);
    if items.contains(h) {
        let q = choose|q: int| 0 <= q < items.len() && items[q] == h;
        assert((hs + items)[hs.len() + q] == h);
    }
    assert forall|x: Seq<char>| hs.contains(x) implies #[trigger] hs.push(h).contains(x) && (hs
        + items).contains(x) by {
        let q = choose|q: int| 0 <= q < hs.len() && hs[q] == x;
        assert(hs.push(h)[q] == x);
        assert((hs + items)[q] == x);
    }
    if keep.len() == l.items().len() && (forall|i: int|
        0 <= i < keep.len() && #[trigger] keep[i] ==> l.items()[i]@ != h) {
        lemma_filter_keep_from(l.items(), keep);
        assert forall|j: int| 0 <= j < filter_keep(l.items(), keep).len() implies (
        #[trigger] filter_keep(l.items(), keep)[j])@ != h by {
            let i = choose|i: int|
                0 <= i < l.items().len() && keep[i] && #[trigger] filter_keep(l.items(), keep)[j]
                    == l.items()[i];
        }
    }
}

/// The two sections of `mimeapps.list` that hold handlers.
#[derive(Debug, Clone, Copy, PartialEq, Eq, Structural)]
pub enum Section {
    DefaultApplications,
    AddedAssociations,
}

/// The section that a header line opens.
pub open spec fn section_header(line: Seq<char>) -> Option<Section> {
    if line == default_section() {
        Some(Section::DefaultApplications)
    } else if line == added_section() {
        Some(Section::AddedAssociations)
    } else {
        None
    }
}

/// A `key=handler;handler;` line: the trimmed key and the trimmed non-empty
/// handlers.
pub open spec fn assignment(line: Seq<char>) -> Option<(Seq<char>, Seq<Seq<char>>)> {
    match split_once(line, '=') {
        Some((k, v)) => Some((trim(k), trimmed_nonempty(split_char(v, ';')))),
        None => None,
    }
}

/// The handler lists that a map of desktop lists holds.
pub open spec fn handler_map(m: Map<Seq<char>, DesktopList>) -> Map<Seq<char>, Seq<Seq<char>>> {
    m.map_values(|l: DesktopList| l.handlers())
}

/// The (key, handlers) pairs of a sequence of desktop lists.
pub open spec fn handler_pairs(s: Seq<(Seq<char>, DesktopList)>) -> Seq<(Seq<char>, Seq<Seq<char>>)> {
    s.map_values(|p: (Seq<char>, DesktopList)| (p.0, p.1.handlers()))
}

/// `map` after adding `hs` to the list of `key` (created when missing) and
/// keeping the first occurrence of each handler.
pub open spec fn merge_into(
    map: Map<Seq<char>, Seq<Seq<char>>>,
    key: Seq<char>,
    hs: Seq<Seq<char>>,
) -> Map<Seq<char>, Seq<Seq<char>>> {
    let prev = if map.contains_key(key) {
        map[key]
    } else {
        Seq::<Seq<char>>::empty()
    };
    map.insert(key, dedup(prev + hs))
}

/// The state of reading `mimeapps.list`: the current section, the default
/// applications and the added associations.
pub type ParseState = (Option<Section>, Map<Seq<char>, Seq<Seq<char>>>, Map<Seq<char>, Seq<Seq<char>>>);

/// The state after one line. Blank lines and comments change nothing; the
/// two known headers switch section (others are read as lines like any
/// other); a `key=handlers` line with handlers extends the list of `key` in
/// the current section.
pub open spec fn apps_step(st: ParseState, raw: Seq<char>) -> ParseState {
    let line = trim(raw);
    if line.len() == 0 || line[0] == '#' {
        st
    } else if section_header(line) is Some {
        (section_header(line), st.1, st.2)
    } else {
        match assignment(line) {
            Some((mime, hs)) => {
                if hs.len() == 0 {
                    st
                } else {
                    match st.0 {
                        Some(Section::DefaultApplications) => (st.0, merge_into(st.1, mime, hs), st.2),
                        Some(Section::AddedAssociations) => (st.0, st.1, merge_into(st.2, mime, hs)),
                        None => st,
                    }
                }
            },
            None => st,
        }
    }
}

/// The state after the lines `ls`.
pub open spec fn apps_fold(ls: Seq<Seq<char>>, st: ParseState) -> ParseState
    decreases ls.len(),
{
    if ls.len() == 0 {
        st
    } else {
        apps_step(apps_fold(ls.drop_last(), st), ls.last())
    }
}

/// The associations of a `mimeapps.list` text.
pub open spec fn parse_spec(contents: Seq<char>) -> ParseState {
    apps_fold(lines(contents), (None, Map::empty(), Map::empty()))
}

proof fn lemma_add_unseen_no_dups(acc: Seq<Seq<char>>, hs: Seq<Seq<char>>)
    requires
        no_dups(acc),
    ensures
        no_dups(add_unseen(acc, hs)),
        forall|x: Seq<char>| hs.contains(x) ==> #[trigger] add_unseen(acc, hs).contains(x),
    decreases hs.len(),
{
    if hs.len() > 0 {
        let t = hs.drop_last();
        lemma_add_unseen_no_dups(acc, t);
        let a = add_unseen(acc, t);
        let r = add_unseen(acc, hs);
        if a.contains(hs.last()) {
            assert(r == a);
        } else {
            assert(r == a.push(hs.last()));
        }
        assert forall|x: Seq<char>| hs.contains(x) implies #[trigger] add_unseen(acc, hs).contains(x) by {
            let k = choose|k: int| 0 <= k < hs.len() && hs[k] == x;
            if k < hs.len() - 1 {
                assert(t[k] == x);
                assert(t.contains(x));
                assert(a.contains(x));
                let j = choose|j: int| 0 <= j < a.len() && a[j] == x;
                assert(r[j] == x);
            } else if !a.contains(x) {
                assert(r[a.len() as int] == x);
            }
        }
        if !a.contains(hs.last()) {
            assert forall|i: int, j: int| 0 <= i < j < r.len() implies r[i] != r[j] by {
                if j == a.len() {
                    assert(r[i] == a[i]);
                    assert(a.contains(a[i]));
                } else {
                    assert(r[i] == a[i] && r[j] == a[j]);
                }
            }
        }
    }
}

/// Editing the list of one MIME type.
proof fn lemma_edit_one(m: Map<Seq<char>, Seq<Seq<char>>>, k: Seq<char>, e: EditSpec)
    ensures
        edit_targets(m, seq![k], e) == m.insert(
            k,
            apply_edit(
                e,
                if m.contains_key(k) {
                    m[k]
                } else {
                    Seq::<Seq<char>>::empty()
                },
            ),
        ),
{
    assert(seq![k].drop_last() =~= Seq::<Seq<char>>::empty());
    assert(edit_targets(m, seq![k].drop_last(), e) == m);
}

proof fn lemma_add_unseen_of_distinct(s: Seq<Seq<char>>)
    requires
        no_dups(s),
    ensures
        add_unseen(Seq::<Seq<char>>::empty(), s) == s,
    decreases s.len(),
{
    if s.len() > 0 {
        let t = s.drop_last();
        assert(no_dups(t)) by {
            assert forall|i: int, j: int| 0 <= i < j < t.len() implies t[i] != t[j] by {
                assert(t[i] == s[i] && t[j] == s[j]);
            }
        }
        lemma_add_unseen_of_distinct(t);
        assert(!t.contains(s.last())) by {
            if t.contains(s.last()) {
                let k = choose|k: int| 0 <= k < t.len() && t[k] == s.last();
                assert(s[k] == s[s.len() - 1]);
            }
        }
        assert(t.push(s.last()) =~= s);
    }
}

/// Keeping the first occurrence of each handler twice over is the same as
/// doing it once, and leaves no handler twice.
pub proof fn law_dedup_idempotent(s: Seq<Seq<char>>)
    ensures
        no_dups(dedup(s)),
        dedup(dedup(s)) == dedup(s),
{
    lemma_add_unseen_no_dups(Seq::<Seq<char>>::empty(), s);
    lemma_add_unseen_of_distinct(dedup(s));
}

/// Adding a handler to a MIME type twice is the same as adding it once.
pub proof fn law_add_handler_idempotent(m: Map<Seq<char>, Seq<Seq<char>>>, mime: Seq<char>, h: Seq<char>)
    ensures
        edit_targets(edit_targets(m, seq![mime], EditSpec::Add(h)), seq![mime], EditSpec::Add(h))
            == edit_targets(m, seq![mime], EditSpec::Add(h)),
{
    let once = edit_targets(m, seq![mime], EditSpec::Add(h));
    lemma_edit_one(m, mime, EditSpec::Add(h));
    lemma_edit_one(once, mime, EditSpec::Add(h));
    assert(once.contains_key(mime));
    assert(once[mime].contains(h)) by {
        let prev = if m.contains_key(mime) {
            m[mime]
        } else {
            Seq::<Seq<char>>::empty()
        };
        if !prev.contains(h) {
            assert(prev.push(h)[prev.len() as int] == h);
        }
    }
    assert(edit_targets(once, seq![mime], EditSpec::Add(h)) =~= once);
}

/// Adding a handler keeps the handlers already there, in order, the
/// default first, and lists the new one.
pub proof fn law_add_handler_keeps_default(m: Map<Seq<char>, Seq<Seq<char>>>, mime: Seq<char>, h: Seq<char>)
    ensures
        ({
            let before = if m.contains_key(mime) {
                m[mime]
            } else {
                Seq::<Seq<char>>::empty()
            };
            let after = edit_targets(m, seq![mime], EditSpec::Add(h))[mime];
            &&& after.contains(h)
            &&& after.len() >= before.len()
            &&& after.take(before.len() as int) == before
        }),
{
    let before = if m.contains_key(mime) {
        m[mime]
    } else {
        Seq::<Seq<char>>::empty()
    };
    lemma_edit_one(m, mime, EditSpec::Add(h));
    let after = edit_targets(m, seq![mime], EditSpec::Add(h))[mime];
    if before.contains(h) {
        assert(after == before);
        assert(before.take(before.len() as int) =~= before);
    } else {
        assert(after == before.push(h));
        assert(after[before.len() as int] == h);
        assert(after.take(before.len() as int) =~= before);
    }
}

/// Setting the handlers of a MIME type makes them its handlers, each once.
pub proof fn law_set_handler_replaces(
    m: Map<Seq<char>, Seq<Seq<char>>>,
    mime: Seq<char>,
    hs: Seq<Seq<char>>,
)
    ensures
        edit_targets(m, seq![mime], EditSpec::Replace(hs))[mime] == dedup(hs),
        edit_targets(m, seq![mime], EditSpec::Replace(hs)).remove(mime) == m.remove(mime),
{
    lemma_edit_one(m, mime, EditSpec::Replace(hs));
    assert(edit_targets(m, seq![mime], EditSpec::Replace(hs)).remove(mime) =~= m.remove(mime));
}

proof fn lemma_remove_all_filter(s: Seq<Seq<char>>, t: Seq<char>)
    ensures
        remove_all(s, t) == s.filter(|x: Seq<char>| x != t),
    decreases s.len(),
{
    reveal(Seq::filter);
    if s.len() > 0 {
        lemma_remove_all_filter(s.drop_last(), t);
    } else {
        assert(remove_all(s, t) =~= s);
    }
}

/// Removing handler `h` from a MIME type drops every occurrence of `h`
/// from its list, wherever it stands, and keeps every other handler in
/// order: the new list is the old one filtered by `x != h` (so `[a, b]`
/// minus `b` is `[a]`); no other MIME type changes.
pub proof fn law_remove_handler_drops_every_occurrence(
    m: Map<Seq<char>, Seq<Seq<char>>>,
    mime: Seq<char>,
    h: Seq<char>,
)
    ensures
        ({
            let before = if m.contains_key(mime) {
                m[mime]
            } else {
                Seq::<Seq<char>>::empty()
            };
            let after = edit_targets(m, seq![mime], EditSpec::Remove(Some(h)));
            &&& after.contains_key(mime)
            &&& after[mime] == before.filter(|x: Seq<char>| x != h)
            &&& !after[mime].contains(h)
            &&& forall|x: Seq<char>| x != h ==> (#[trigger] after[mime].contains(x) <==> before.contains(x))
            &&& after.remove(mime) == m.remove(mime)
        }),
{
    let before = if m.contains_key(mime) {
        m[mime]
    } else {
        Seq::<Seq<char>>::empty()
    };
    lemma_edit_one(m, mime, EditSpec::Remove(Some(h)));
    let after = edit_targets(m, seq![mime], EditSpec::Remove(Some(h)));
    lemma_remove_all_filter(before, h);
    let pred = |x: Seq<char>| x != h;
    let f = before.filter(pred);
    assert(after[mime] == f);
    assert(!f.contains(h)) by {
        if f.contains(h) {
            let i = choose|i: int| 0 <= i < f.len() && f[i] == h;
            before.lemma_filter_pred(pred, i);
        }
    }
    assert forall|x: Seq<char>| x != h implies (#[trigger] f.contains(x) <==> before.contains(x)) by {
        if f.contains(x) {
            before.lemma_filter_contains_rev(pred, x);
        }
        if before.contains(x) {
            let i = choose|i: int| 0 <= i < before.len() && before[i] == x;
            before.lemma_filter_contains(pred, i);
        }
    }
    assert(after.remove(mime) =~= m.remove(mime));
}

/// Removing the only handler of a MIME type, or unsetting it, leaves no
/// entry for it.
pub proof fn law_remove_only_handler_drops_entry(m: Map<Seq<char>, Seq<Seq<char>>>, mime: Seq<char>, h: Seq<char>)
    ensures
        !drop_empty(
            edit_targets(
                edit_targets(m, seq![mime], EditSpec::Replace(seq![h])),
                seq![mime],
                EditSpec::Remove(Some(h)),
            ),
        ).contains_key(mime),
        !drop_empty(edit_targets(m, seq![mime], EditSpec::Remove(None))).contains_key(mime),
{
    lemma_edit_one(m, mime, EditSpec::Replace(seq![h]));
    let set = edit_targets(m, seq![mime], EditSpec::Replace(seq![h]));
    lemma_edit_one(set, mime, EditSpec::Remove(Some(h)));
    lemma_edit_one(m, mime, EditSpec::Remove(None));
    assert(seq![h].drop_last() =~= Seq::<Seq<char>>::empty());
    assert(dedup(seq![h]) =~= seq![h]) by {
        assert(add_unseen(Seq::<Seq<char>>::empty(), seq![h].drop_last()) =~= Seq::<Seq<char>>::empty());
    }
    assert(remove_all(seq![h], h) =~= Seq::<Seq<char>>::empty()) by {
        assert(remove_all(seq![h].drop_last(), h) =~= Seq::<Seq<char>>::empty());
    }
}

// ---------------------------------------------------------------------
// Writing and reading back
// ---------------------------------------------------------------------

/// The line of one entry: `mime=handler;handler;`.
pub open spec fn entry_line(mime: Seq<char>, hs: Seq<Seq<char>>) -> Seq<char> {
    mime + seq!['='] + join_semi(hs) + seq![';']
}

/// The lines of the entries that have handlers, in order.
pub open spec fn entry_line_seq(pairs: Seq<(Seq<char>, Seq<Seq<char>>)>) -> Seq<Seq<char>>
    decreases pairs.len(),
{
    if pairs.len() == 0 {
        Seq::empty()
    } else {
        let prev = entry_line_seq(pairs.drop_last());
        if pairs.last().1.len() == 0 {
            prev
        } else {
            prev.push(entry_line(pairs.last().0, pairs.last().1))
        }
    }
}

/// The lines of a section: its header, its entries and an empty line, or
/// nothing for a section without entries.
pub open spec fn section_lines(name: Seq<char>, pairs: Seq<(Seq<char>, Seq<Seq<char>>)>) -> Seq<Seq<char>> {
    if pairs.len() == 0 {
        Seq::empty()
    } else {
        seq![name] + entry_line_seq(pairs) + seq![Seq::<char>::empty()]
    }
}

/// A MIME type that a `mimeapps.list` line can carry and give back: no
/// whitespace at either end, not starting with `#`, and no `=` or newline
/// in it (the empty key is one).
pub open spec fn valid_mime(k: Seq<char>) -> bool {
    &&& k.len() > 0 ==> !is_ws(k[0]) && !is_ws(k.last()) && k[0] != '#'
    &&& !k.contains('=')
    &&& !k.contains('\n')
}

/// A handler that a `mimeapps.list` line can carry and give back: not
/// empty, no whitespace at either end, and no `;` or newline in it.
pub open spec fn valid_handler(h: Seq<char>) -> bool {
    &&& h.len() > 0
    &&& !is_ws(h[0])
    &&& !is_ws(h.last())
    &&& !h.contains(';')
    &&& !h.contains('\n')
}

/// A handler list that a `mimeapps.list` line can carry and give back: not
/// empty, no handler twice, each handler valid.
pub open spec fn valid_list(hs: Seq<Seq<char>>) -> bool {
    &&& hs.len() > 0
    &&& no_dups(hs)
    &&& forall|j: int| 0 <= j < hs.len() ==> valid_handler(#[trigger] hs[j])
}

/// Every entry of `m` can be written and read back.
pub open spec fn valid_map(m: Map<Seq<char>, Seq<Seq<char>>>) -> bool {
    forall|k: Seq<char>| #[trigger] m.contains_key(k) ==> valid_mime(k) && valid_list(m[k])
}

proof fn lemma_add_unseen_from(acc: Seq<Seq<char>>, hs: Seq<Seq<char>>)
    ensures
        forall|j: int|
            0 <= j < add_unseen(acc, hs).len() ==> acc.contains(#[trigger] add_unseen(acc, hs)[j])
                || hs.contains(add_unseen(acc, hs)[j]),
    decreases hs.len(),
{
    if hs.len() > 0 {
        let t = hs.drop_last();
        lemma_add_unseen_from(acc, t);
        let a = add_unseen(acc, t);
        assert forall|j: int| 0 <= j < add_unseen(acc, hs).len() implies acc.contains(
            #[trigger] add_unseen(acc, hs)[j],
        ) || hs.contains(add_unseen(acc, hs)[j]) by {
            let x = add_unseen(acc, hs)[j];
            if j < a.len() {
                assert(x == a[j]);
                if t.contains(x) {
                    let m = choose|m: int| 0 <= m < t.len() && t[m] == x;
                    assert(hs[m] == x);
                }
            } else {
                assert(x == hs[hs.len() - 1]);
            }
        }
    }
}

/// Merging valid handlers under a valid key keeps a map valid.
proof fn lemma_merge_valid(m: Map<Seq<char>, Seq<Seq<char>>>, key: Seq<char>, hs: Seq<Seq<char>>)
    requires
        valid_map(m),
        valid_mime(key),
        hs.len() > 0,
        forall|j: int| 0 <= j < hs.len() ==> valid_handler(#[trigger] hs[j]),
    ensures
        valid_map(merge_into(m, key, hs)),
{
    let prev = if m.contains_key(key) {
        m[key]
    } else {
        Seq::<Seq<char>>::empty()
    };
    let all = prev + hs;
    let d = dedup(all);
    lemma_add_unseen_no_dups(Seq::<Seq<char>>::empty(), all);
    lemma_add_unseen_from(Seq::<Seq<char>>::empty(), all);
    assert(all.contains(hs[0])) by {
        assert(all[prev.len() as int] == hs[0]);
    }
    assert(d.contains(hs[0]));
    assert forall|j: int| 0 <= j < d.len() implies valid_handler(#[trigger] d[j]) by {
        assert(!Seq::<Seq<char>>::empty().contains(d[j]));
        let q = choose|q: int| 0 <= q < all.len() && all[q] == d[j];
        if q < prev.len() {
            assert(all[q] == prev[q]);
        } else {
            assert(all[q] == hs[q - prev.len()]);
        }
    }
    assert(valid_list(d));
}

/// The key and the handlers of an assignment line can be written and read
/// back.
proof fn lemma_assignment_valid(raw: Seq<char>)
    requires
        !raw.contains('\n'),
        trim(raw).len() > 0,
        trim(raw)[0] != '#',
        assignment(trim(raw)) is Some,
    ensures
        valid_mime((assignment(trim(raw))->0).0),
        forall|j: int|
            0 <= j < (assignment(trim(raw))->0).1.len() ==> valid_handler(
                #[trigger] (assignment(trim(raw))->0).1[j],
            ),
{
    let line = trim(raw);
    let lb = crate::text::lemma_trim_props(raw);
    crate::text::lemma_subrange_lacks(raw, lb.0, lb.1, '\n');
    crate::text::lemma_index_of(line, '=');
    let i = index_of(line, '=')->0 as int;
    let before = line.take(i);
    let after = line.skip(i + 1);
    assert(!before.contains('=')) by {
        if before.contains('=') {
            let q = choose|q: int| 0 <= q < before.len() && before[q] == '=';
            assert(line[q] == '=');
        }
    }
    assert(before =~= line.subrange(0, i));
    crate::text::lemma_subrange_lacks(line, 0, i, '\n');
    assert(after =~= line.subrange(i + 1, line.len() as int));
    crate::text::lemma_subrange_lacks(line, i + 1, line.len() as int, '\n');
    let key = trim(before);
    let kb = crate::text::lemma_trim_props(before);
    crate::text::lemma_subrange_lacks(before, kb.0, kb.1, '=');
    crate::text::lemma_subrange_lacks(before, kb.0, kb.1, '\n');
    if key.len() > 0 {
        assert(before.len() > 0);
        assert(before[0] == line[0]);
        assert(!is_ws(line[0]));
        assert(key[0] == before[0]);
    }
    let pieces = split_char(after, ';');
    crate::text::lemma_split_char_lacks(after, ';', '\n');
    lemma_trimmed_pieces_valid(pieces);
}

/// The trimmed non-empty pieces of pieces without `;` or newline are valid
/// handlers.
proof fn lemma_trimmed_pieces_valid(parts: Seq<Seq<char>>)
    requires
        forall|m: int| 0 <= m < parts.len() ==> !(#[trigger] parts[m]).contains(';') && !parts[m].contains(
            '\n',
        ),
    ensures
        forall|j: int| 0 <= j < trimmed_nonempty(parts).len() ==> valid_handler(
            #[trigger] trimmed_nonempty(parts)[j],
        ),
    decreases parts.len(),
{
    if parts.len() > 0 {
        let t = parts.drop_last();
        assert forall|m: int| 0 <= m < t.len() implies !(#[trigger] t[m]).contains(';') && !t[m].contains(
            '\n',
        ) by {
            assert(t[m] == parts[m]);
        }
        lemma_trimmed_pieces_valid(t);
        let p = parts.last();
        assert(p == parts[parts.len() - 1]);
        let pb = crate::text::lemma_trim_props(p);
        crate::text::lemma_subrange_lacks(p, pb.0, pb.1, ';');
        crate::text::lemma_subrange_lacks(p, pb.0, pb.1, '\n');
        let prev = trimmed_nonempty(t);
        assert forall|j: int| 0 <= j < trimmed_nonempty(parts).len() implies valid_handler(
            #[trigger] trimmed_nonempty(parts)[j],
        ) by {
            if j < prev.len() {
                assert(trimmed_nonempty(parts)[j] == prev[j]);
            } else {
                assert(trimmed_nonempty(parts)[j] == trim(p));
            }
        }
    }
}

/// One line keeps both maps valid.
proof fn lemma_step_valid(st: ParseState, raw: Seq<char>)
    requires
        valid_map(st.1),
        valid_map(st.2),
        !raw.contains('\n'),
    ensures
        valid_map(apps_step(st, raw).1),
        valid_map(apps_step(st, raw).2),
{
    let line = trim(raw);
    if line.len() == 0 || line[0] == '#' {
    } else if section_header(line) is Some {
    } else {
        match assignment(line) {
            Some((mime, hs)) => {
                if hs.len() > 0 {
                    lemma_assignment_valid(raw);
                    lemma_merge_valid(st.1, mime, hs);
                    lemma_merge_valid(st.2, mime, hs);
                }
            },
            None => {},
        }
    }
}

/// Lines without newlines keep both maps valid.
proof fn lemma_fold_valid(ls: Seq<Seq<char>>, st: ParseState)
    requires
        valid_map(st.1),
        valid_map(st.2),
        forall|i: int| 0 <= i < ls.len() ==> !(#[trigger] ls[i]).contains('\n'),
    ensures
        valid_map(apps_fold(ls, st).1),
        valid_map(apps_fold(ls, st).2),
    decreases ls.len(),
{
    if ls.len() > 0 {
        let t = ls.drop_last();
        assert forall|i: int| 0 <= i < t.len() implies !(#[trigger] t[i]).contains('\n') by {
            assert(t[i] == ls[i]);
        }
        lemma_fold_valid(t, st);
        assert(ls.last() == ls[ls.len() - 1]);
        lemma_step_valid(apps_fold(t, st), ls.last());
    }
}

/// Whatever a `mimeapps.list` text holds, every entry that reading it
/// gives, in either section, can be written and read back: its key has no
/// whitespace at either end, no `=` or newline and does not start with `#`,
/// and its handlers are non-empty, distinct and valid.
pub proof fn law_parsed_entries_valid(contents: Seq<char>)
    ensures
        valid_map(parse_spec(contents).1),
        valid_map(parse_spec(contents).2),
{
    crate::text::lemma_lines_lack_newline(contents);
    let init: ParseState = (None, Map::empty(), Map::empty());
    lemma_fold_valid(lines(contents), init);
}

/// Sorted pairs whose handler map is valid are valid entries.
proof fn lemma_valid_entries_of(s: Seq<(Seq<char>, DesktopList)>)
    requires
        keys_sorted(s),
        valid_map(handler_map(crate::strmap::pairs_to_map(s))),
    ensures
        valid_entries(handler_pairs(s)),
{
    lemma_pairs_to_map(s);
    let hp = handler_pairs(s);
    let hm = handler_map(crate::strmap::pairs_to_map(s));
    assert forall|i: int| 0 <= i < hp.len() implies valid_mime(#[trigger] hp[i].0) && hp[i].1.len() > 0
        && no_dups(hp[i].1) by {
        assert(hp[i] == (s[i].0, s[i].1.handlers()));
        assert(crate::strmap::pairs_to_map(s).contains_key(s[i].0));
        assert(hm.contains_key(s[i].0));
        assert(hm[s[i].0] == s[i].1.handlers());
    }
    assert forall|i: int, j: int| 0 <= i < hp.len() && 0 <= j < hp[i].1.len() implies valid_handler(
        #[trigger] hp[i].1[j],
    ) by {
        assert(hp[i] == (s[i].0, s[i].1.handlers()));
        assert(hm.contains_key(s[i].0));
        assert(hm[s[i].0] == s[i].1.handlers());
    }
    assert forall|i: int, j: int| 0 <= i < j < hp.len() implies #[trigger] hp[i].0 != #[trigger] hp[j].0 by {
        crate::strmap::lemma_sorted_keys_distinct(s, i, j);
    }
}

/// No key occurs twice.
pub open spec fn distinct_keys(pairs: Seq<(Seq<char>, Seq<Seq<char>>)>) -> bool {
    forall|i: int, j: int| 0 <= i < j < pairs.len() ==> #[trigger] pairs[i].0 != #[trigger] pairs[j].0
}

/// Entries that survive being written and read back: distinct valid MIME
/// types, each with a non-empty list of distinct valid handlers.
pub open spec fn valid_entries(pairs: Seq<(Seq<char>, Seq<Seq<char>>)>) -> bool {
    &&& distinct_keys(pairs)
    &&& forall|i: int|
        0 <= i < pairs.len() ==> valid_mime(#[trigger] pairs[i].0) && pairs[i].1.len() > 0 && no_dups(
            pairs[i].1,
        )
    &&& forall|i: int, j: int|
        0 <= i < pairs.len() && 0 <= j < pairs[i].1.len() ==> valid_handler(#[trigger] pairs[i].1[j])
}

proof fn lemma_entry_lines_text(pairs: Seq<(Seq<char>, Seq<Seq<char>>)>)
    ensures
        entry_lines(pairs) == text_of(entry_line_seq(pairs)),
    decreases pairs.len(),
{
    if pairs.len() > 0 {
        lemma_entry_lines_text(pairs.drop_last());
        let (mime, hs) = pairs.last();
        if hs.len() > 0 {
            let prev = entry_line_seq(pairs.drop_last());
            assert(prev.push(entry_line(mime, hs)).drop_last() =~= prev);
            assert(text_of(prev.push(entry_line(mime, hs))) =~= entry_lines(pairs));
        }
    }
}

proof fn lemma_section_text(name: Seq<char>, pairs: Seq<(Seq<char>, Seq<Seq<char>>)>)
    ensures
        section_text(name, pairs) == text_of(section_lines(name, pairs)),
{
    if pairs.len() > 0 {
        let es = entry_line_seq(pairs);
        lemma_entry_lines_text(pairs);
        crate::text::lemma_text_of_append(seq![name], es);
        crate::text::lemma_text_of_append(seq![name] + es, seq![Seq::<char>::empty()]);
        assert(seq![name].drop_last() =~= Seq::<Seq<char>>::empty());
        assert(text_of(Seq::<Seq<char>>::empty()) =~= Seq::<char>::empty());
        assert(text_of(seq![name]) =~= Seq::<char>::empty() + name + seq!['\n']);
        assert(text_of(seq![name]) =~= name + seq!['\n']);
        let e1 = seq![Seq::<char>::empty()];
        assert(e1.drop_last() =~= Seq::<Seq<char>>::empty());
        assert(text_of(e1) =~= Seq::<char>::empty() + Seq::<char>::empty() + seq!['\n']);
        assert(text_of(e1) =~= seq!['\n']);
        assert(section_text(name, pairs) =~= text_of(section_lines(name, pairs)));
    } else {
        assert(section_lines(name, pairs) =~= Seq::<Seq<char>>::empty());
    }
}

proof fn lemma_join_avoids(hs: Seq<Seq<char>>, c: char)
    requires
        c != ';',
        forall|i: int| 0 <= i < hs.len() ==> !(#[trigger] hs[i]).contains(c),
    ensures
        !join_semi(hs).contains(c),
    decreases hs.len(),
{
    if hs.len() > 1 {
        let t = hs.drop_last();
        assert forall|i: int| 0 <= i < t.len() implies !(#[trigger] t[i]).contains(c) by {
            assert(t[i] == hs[i]);
        }
        lemma_join_avoids(t, c);
        let j = join_semi(hs);
        let a = join_semi(t);
        let l = hs.last();
        assert(!l.contains(c)) by {
            assert(hs[hs.len() - 1] == l);
        }
        if j.contains(c) {
            let k = choose|k: int| 0 <= k < j.len() && j[k] == c;
            if k < a.len() {
                assert(j[k] == a[k]);
            } else if k == a.len() {
                assert(j[k] == ';');
            } else {
                assert(j[k] == l[k - a.len() - 1]);
            }
        }
    } else if hs.len() == 1 {
        assert(hs[0] == join_semi(hs));
    }
}

proof fn lemma_split_join(hs: Seq<Seq<char>>)
    requires
        hs.len() > 0,
        forall|i: int| 0 <= i < hs.len() ==> !(#[trigger] hs[i]).contains(';'),
    ensures
        split_char(join_semi(hs), ';') == hs,
    decreases hs.len(),
{
    if hs.len() == 1 {
        crate::text::lemma_split_char_extend(Seq::<char>::empty(), hs[0], ';');
        assert(Seq::<char>::empty() + hs[0] =~= hs[0]);
        assert(split_char(Seq::<char>::empty(), ';') =~= seq![Seq::<char>::empty()]);
        assert(Seq::<char>::empty() + hs[0] =~= hs[0]);
        assert(split_char(hs[0], ';') =~= hs);
    } else {
        let t = hs.drop_last();
        assert forall|i: int| 0 <= i < t.len() implies !(#[trigger] t[i]).contains(';') by {
            assert(t[i] == hs[i]);
        }
        lemma_split_join(t);
        let a = join_semi(t);
        let l = hs.last();
        assert(!l.contains(';')) by {
            assert(hs[hs.len() - 1] == l);
        }
        assert(a.push(';').drop_last() =~= a);
        assert(split_char(a.push(';'), ';') =~= t.push(Seq::<char>::empty()));
        crate::text::lemma_split_char_extend(a.push(';'), l, ';');
        assert(join_semi(hs) =~= a.push(';') + l);
        assert(Seq::<char>::empty() + l =~= l);
        assert(split_char(join_semi(hs), ';') =~= hs);
    }
}

proof fn lemma_trimmed_nonempty_unchanged(hs: Seq<Seq<char>>)
    requires
        forall|i: int| 0 <= i < hs.len() ==> valid_handler(#[trigger] hs[i]),
    ensures
        trimmed_nonempty(hs) == hs,
    decreases hs.len(),
{
    if hs.len() > 0 {
        let t = hs.drop_last();
        assert forall|i: int| 0 <= i < t.len() implies valid_handler(#[trigger] t[i]) by {
            assert(t[i] == hs[i]);
        }
        lemma_trimmed_nonempty_unchanged(t);
        let l = hs.last();
        assert(valid_handler(l)) by {
            assert(hs[hs.len() - 1] == l);
        }
        crate::text::lemma_trim_unchanged(l);
        assert(t.push(l) =~= hs);
    }
}

/// What one entry line reads back as.
proof fn lemma_entry_line_reads(k: Seq<char>, hs: Seq<Seq<char>>)
    requires
        valid_mime(k),
        hs.len() > 0,
        forall|i: int| 0 <= i < hs.len() ==> valid_handler(#[trigger] hs[i]),
    ensures
        trim(entry_line(k, hs)) == entry_line(k, hs),
        entry_line(k, hs).len() > 0,
        entry_line(k, hs)[0] != '#',
        section_header(entry_line(k, hs)) is None,
        assignment(entry_line(k, hs)) == Some((k, hs)),
        !entry_line(k, hs).contains('\n'),
        strip_cr(entry_line(k, hs)) == entry_line(k, hs),
{
    let j = join_semi(hs);
    let line = entry_line(k, hs);
    assert(line.len() == k.len() + j.len() + 2);
    if k.len() > 0 {
        assert(line[0] == k[0]);
    } else {
        assert(line[0] == '=');
    }
    assert(line.last() == ';');
    crate::text::lemma_trim_unchanged(line);
    assert(section_header(line) is None) by {
        reveal_strlit("[Default Applications]");
        reveal_strlit("[Added Associations]");
        assert(default_section().last() == ']');
        assert(added_section().last() == ']');
    }
    assert forall|i: int| 0 <= i < hs.len() implies !(#[trigger] hs[i]).contains('\n') by {
        assert(valid_handler(hs[i]));
    }
    lemma_join_avoids(hs, '\n');
    assert(!line.contains('\n')) by {
        if line.contains('\n') {
            let p = choose|p: int| 0 <= p < line.len() && line[p] == '\n';
            if p < k.len() {
                assert(line[p] == k[p]);
            } else if p > k.len() && p < k.len() + 1 + j.len() {
                assert(line[p] == j[p - k.len() - 1]);
            }
        }
    }
    crate::text::lemma_index_of(line, '=');
    assert(line[k.len() as int] == '=');
    assert(index_of(line, '=') == Some(k.len())) by {
        match index_of(line, '=') {
            Some(q) => {
                if q < k.len() {
                    assert(line[q as int] == k[q as int]);
                }
            },
            None => {
                assert(line.contains('='));
            },
        }
    }
    assert(line.take(k.len() as int) =~= k);
    assert(line.skip(k.len() as int + 1) =~= j.push(';'));
    crate::text::lemma_trim_unchanged(k);
    assert forall|i: int| 0 <= i < hs.len() implies !(#[trigger] hs[i]).contains(';') by {
        assert(valid_handler(hs[i]));
    }
    lemma_split_join(hs);
    assert(j.push(';').drop_last() =~= j);
    assert(split_char(j.push(';'), ';') =~= hs.push(Seq::<char>::empty()));
    lemma_trimmed_nonempty_unchanged(hs);
    assert(hs.push(Seq::<char>::empty()).drop_last() =~= hs);
    assert(trim(Seq::<char>::empty()).len() == 0);
    assert(trimmed_nonempty(hs.push(Seq::<char>::empty())) == hs);
}

proof fn lemma_apps_fold_append(a: Seq<Seq<char>>, b: Seq<Seq<char>>, st: ParseState)
    ensures
        apps_fold(a + b, st) == apps_fold(b, apps_fold(a, st)),
    decreases b.len(),
{
    if b.len() == 0 {
        assert(a + b =~= a);
    } else {
        lemma_apps_fold_append(a, b.drop_last(), st);
        assert((a + b).drop_last() =~= a + b.drop_last());
        assert((a + b).last() == b.last());
    }
}

proof fn lemma_ptm_keys<V>(s: Seq<(Seq<char>, V)>, k: Seq<char>)
    requires
        crate::strmap::pairs_to_map(s).contains_key(k),
    ensures
        exists|i: int| 0 <= i < s.len() && s[i].0 == k,
    decreases s.len(),
{
    if s.len() > 0 && s.last().0 != k {
        lemma_ptm_keys(s.drop_last(), k);
        let i = choose|i: int| 0 <= i < s.drop_last().len() && s.drop_last()[i].0 == k;
        assert(s[i].0 == k);
    } else if s.len() > 0 {
        assert(s[s.len() - 1].0 == k);
    }
}

proof fn lemma_valid_prefix(pairs: Seq<(Seq<char>, Seq<Seq<char>>)>)
    requires
        valid_entries(pairs),
        pairs.len() > 0,
    ensures
        valid_entries(pairs.drop_last()),
        valid_mime(pairs.last().0),
        pairs.last().1.len() > 0,
        no_dups(pairs.last().1),
        forall|j: int| 0 <= j < pairs.last().1.len() ==> valid_handler(#[trigger] pairs.last().1[j]),
        !crate::strmap::pairs_to_map(pairs.drop_last()).contains_key(pairs.last().0),
{
    let t = pairs.drop_last();
    let n = pairs.len() - 1;
    assert(valid_entries(t)) by {
        assert forall|i: int, j: int| 0 <= i < j < t.len() implies #[trigger] t[i].0 != #[trigger] t[j].0 by {
            assert(pairs[i].0 != pairs[j].0);
        }
        assert forall|i: int| 0 <= i < t.len() implies valid_mime(#[trigger] t[i].0) && t[i].1.len() > 0
            && no_dups(t[i].1) by {
            assert(t[i] == pairs[i]);
            assert(valid_mime(pairs[i].0));
        }
        assert forall|i: int, j: int| 0 <= i < t.len() && 0 <= j < t[i].1.len() implies valid_handler(
            #[trigger] t[i].1[j],
        ) by {
            assert(t[i] == pairs[i]);
            assert(valid_handler(pairs[i].1[j]));
        }
    }
    assert(valid_mime(pairs[n].0));
    assert forall|j: int| 0 <= j < pairs.last().1.len() implies valid_handler(#[trigger] pairs.last().1[j]) by {
        assert(valid_handler(pairs[n].1[j]));
    }
    if crate::strmap::pairs_to_map(t).contains_key(pairs.last().0) {
        lemma_ptm_keys(t, pairs.last().0);
        let i = choose|i: int| 0 <= i < t.len() && t[i].0 == pairs.last().0;
        assert(pairs[i].0 != pairs[n].0);
    }
}

/// Reading the entry lines of the Default Applications.
proof fn lemma_fold_default_entries(pairs: Seq<(Seq<char>, Seq<Seq<char>>)>, other: Map<Seq<char>, Seq<Seq<char>>>)
    requires
        valid_entries(pairs),
    ensures
        apps_fold(entry_line_seq(pairs), (Some(Section::DefaultApplications), Map::empty(), other)) == (
            Some(Section::DefaultApplications),
            crate::strmap::pairs_to_map(pairs),
            other,
        ),
    decreases pairs.len(),
{
    if pairs.len() > 0 {
        lemma_valid_prefix(pairs);
        lemma_fold_default_entries(pairs.drop_last(), other);
        let (k, hs) = pairs.last();
        lemma_entry_line_reads(k, hs);
        lemma_add_unseen_of_distinct(hs);
        let prev = entry_line_seq(pairs.drop_last());
        assert(prev.push(entry_line(k, hs)).drop_last() =~= prev);
        assert(Seq::<Seq<char>>::empty() + hs =~= hs);
    }
}

/// Reading the entry lines of the Added Associations.
proof fn lemma_fold_added_entries(pairs: Seq<(Seq<char>, Seq<Seq<char>>)>, other: Map<Seq<char>, Seq<Seq<char>>>)
    requires
        valid_entries(pairs),
    ensures
        apps_fold(entry_line_seq(pairs), (Some(Section::AddedAssociations), other, Map::empty())) == (
            Some(Section::AddedAssociations),
            other,
            crate::strmap::pairs_to_map(pairs),
        ),
    decreases pairs.len(),
{
    if pairs.len() > 0 {
        lemma_valid_prefix(pairs);
        lemma_fold_added_entries(pairs.drop_last(), other);
        let (k, hs) = pairs.last();
        lemma_entry_line_reads(k, hs);
        lemma_add_unseen_of_distinct(hs);
        let prev = entry_line_seq(pairs.drop_last());
        assert(prev.push(entry_line(k, hs)).drop_last() =~= prev);
        assert(Seq::<Seq<char>>::empty() + hs =~= hs);
    }
}

proof fn lemma_entry_lines_plain(pairs: Seq<(Seq<char>, Seq<Seq<char>>)>)
    requires
        valid_entries(pairs),
    ensures
        forall|i: int| 0 <= i < entry_line_seq(pairs).len() ==> !(#[trigger] entry_line_seq(pairs)[i]).contains('\n')
            && strip_cr(entry_line_seq(pairs)[i]) == entry_line_seq(pairs)[i],
    decreases pairs.len(),
{
    if pairs.len() > 0 {
        lemma_valid_prefix(pairs);
        lemma_entry_lines_plain(pairs.drop_last());
        let (k, hs) = pairs.last();
        lemma_entry_line_reads(k, hs);
        let prev = entry_line_seq(pairs.drop_last());
        assert forall|i: int| 0 <= i < entry_line_seq(pairs).len() implies !(#[trigger] entry_line_seq(
            pairs,
        )[i]).contains('\n') && strip_cr(entry_line_seq(pairs)[i]) == entry_line_seq(pairs)[i] by {
            if i < prev.len() {
                assert(entry_line_seq(pairs)[i] == prev[i]);
            }
        }
    }
}

proof fn lemma_section_lines_plain(name: Seq<char>, pairs: Seq<(Seq<char>, Seq<Seq<char>>)>)
    requires
        valid_entries(pairs),
        !name.contains('\n'),
        strip_cr(name) == name,
    ensures
        forall|i: int| 0 <= i < section_lines(name, pairs).len() ==> !(#[trigger] section_lines(
            name,
            pairs,
        )[i]).contains('\n') && strip_cr(section_lines(name, pairs)[i]) == section_lines(name, pairs)[i],
{
    if pairs.len() > 0 {
        lemma_entry_lines_plain(pairs);
        let es = entry_line_seq(pairs);
        let sl = section_lines(name, pairs);
        assert forall|i: int| 0 <= i < sl.len() implies !(#[trigger] sl[i]).contains('\n') && strip_cr(sl[i])
            == sl[i] by {
            if i == 0 {
                assert(sl[0] == name);
            } else if i <= es.len() {
                assert(sl[i] == es[i - 1]);
            } else {
                assert(sl[i] == Seq::<char>::empty());
            }
        }
    }
}

proof fn lemma_handler_pairs_map<V>(s: Seq<(Seq<char>, DesktopList)>)
    ensures
        crate::strmap::pairs_to_map(handler_pairs(s)) == handler_map(crate::strmap::pairs_to_map(s)),
    decreases s.len(),
{
    if s.len() > 0 {
        lemma_handler_pairs_map::<V>(s.drop_last());
        assert(handler_pairs(s).drop_last() =~= handler_pairs(s.drop_last()));
        assert(handler_pairs(s).last() == (s.last().0, s.last().1.handlers()));
        assert(crate::strmap::pairs_to_map(handler_pairs(s)) =~= handler_map(
            crate::strmap::pairs_to_map(s),
        ));
    } else {
        assert(handler_map(crate::strmap::pairs_to_map(s)) =~= Map::<Seq<char>, Seq<Seq<char>>>::empty());
    }
}


/// Reading one line.
proof fn lemma_fold_one(x: Seq<char>, st: ParseState)
    ensures
        apps_fold(seq![x], st) == apps_step(st, x),
{
    assert(seq![x].drop_last() =~= Seq::<Seq<char>>::empty());
    assert(apps_fold(Seq::<Seq<char>>::empty(), st) == st);
}

/// The header lines are plain lines that open their sections.
proof fn lemma_headers()
    ensures
        trim(default_section()) == default_section(),
        trim(added_section()) == added_section(),
        default_section().len() > 0 && default_section()[0] != '#',
        added_section().len() > 0 && added_section()[0] != '#',
        section_header(default_section()) == Some(Section::DefaultApplications),
        section_header(added_section()) == Some(Section::AddedAssociations),
        !default_section().contains('\n') && strip_cr(default_section()) == default_section(),
        !added_section().contains('\n') && strip_cr(added_section()) == added_section(),
{
    reveal_strlit("[Default Applications]");
    reveal_strlit("[Added Associations]");
    let d = default_section();
    let a = added_section();
    assert(d[0] == '[' && d.last() == ']');
    assert(a[0] == '[' && a.last() == ']');
    crate::text::lemma_trim_unchanged(d);
    crate::text::lemma_trim_unchanged(a);
    assert(d != a) by {
        assert(d.len() != a.len());
    }
    assert(!d.contains('\n')) by {
        assert forall|i: int| 0 <= i < d.len() implies d[i] != '\n' by {}
    }
    assert(!a.contains('\n')) by {
        assert forall|i: int| 0 <= i < a.len() implies a[i] != '\n' by {}
    }
}

/// Reading the lines of the Default Applications section from the start.
proof fn lemma_fold_default_section(pairs: Seq<(Seq<char>, Seq<Seq<char>>)>)
    requires
        valid_entries(pairs),
    ensures
        apps_fold(
            section_lines(default_section(), pairs),
            (None, Map::empty(), Map::empty()),
        ).1 == crate::strmap::pairs_to_map(pairs),
        apps_fold(
            section_lines(default_section(), pairs),
            (None, Map::empty(), Map::empty()),
        ).2 == Map::<Seq<char>, Seq<Seq<char>>>::empty(),
{
    let init: ParseState = (None, Map::empty(), Map::empty());
    if pairs.len() == 0 {
        assert(section_lines(default_section(), pairs) =~= Seq::<Seq<char>>::empty());
        assert(crate::strmap::pairs_to_map(pairs) == Map::<Seq<char>, Seq<Seq<char>>>::empty());
    } else {
        lemma_headers();
        let es = entry_line_seq(pairs);
        let hd = seq![default_section()];
        let tail = seq![Seq::<char>::empty()];
        lemma_apps_fold_append(hd + es, tail, init);
        lemma_apps_fold_append(hd, es, init);
        lemma_fold_one(default_section(), init);
        lemma_fold_default_entries(pairs, Map::empty());
        let st = apps_fold(hd + es, init);
        lemma_fold_one(Seq::<char>::empty(), st);
        assert(trim(Seq::<char>::empty()).len() == 0);
    }
}

/// Reading the lines of the Added Associations section after the others.
proof fn lemma_fold_added_section(pairs: Seq<(Seq<char>, Seq<Seq<char>>)>, st: ParseState)
    requires
        valid_entries(pairs),
        st.2 == Map::<Seq<char>, Seq<Seq<char>>>::empty(),
    ensures
        apps_fold(section_lines(added_section(), pairs), st).1 == st.1,
        apps_fold(section_lines(added_section(), pairs), st).2 == crate::strmap::pairs_to_map(pairs),
{
    if pairs.len() == 0 {
        assert(section_lines(added_section(), pairs) =~= Seq::<Seq<char>>::empty());
    } else {
        lemma_headers();
        let es = entry_line_seq(pairs);
        let hd = seq![added_section()];
        let tail = seq![Seq::<char>::empty()];
        lemma_apps_fold_append(hd + es, tail, st);
        lemma_apps_fold_append(hd, es, st);
        lemma_fold_one(added_section(), st);
        lemma_fold_added_entries(pairs, st.1);
        let s2 = apps_fold(hd + es, st);
        lemma_fold_one(Seq::<char>::empty(), s2);
        assert(trim(Seq::<char>::empty()).len() == 0);
    }
}


/// Represents the user's `mimeapps.list` associations.
#[derive(Debug, Clone)]
pub struct MimeApps {
    default_apps: StrMap<DesktopList>,
    added_associations: StrMap<DesktopList>,
}

impl MimeApps {
    /// Handlers of each MIME type under Default Applications.
    pub closed spec fn defaults(self) -> Map<Seq<char>, Seq<Seq<char>>> {
        handler_map(self.default_apps.map())
    }

    /// Handlers of each MIME type under Added Associations.
    pub closed spec fn added(self) -> Map<Seq<char>, Seq<Seq<char>>> {
        handler_map(self.added_associations.map())
    }

    /// The Default Applications in key order.
    pub closed spec fn default_pairs(self) -> Seq<(Seq<char>, Seq<Seq<char>>)> {
        handler_pairs(self.default_apps.pairs())
    }

    /// The Added Associations in key order.
    pub closed spec fn added_pairs(self) -> Seq<(Seq<char>, Seq<Seq<char>>)> {
        handler_pairs(self.added_associations.pairs())
    }

    /// No associations.
    pub fn new() -> (r: Self)
        ensures
            r.defaults() == Map::<Seq<char>, Seq<Seq<char>>>::empty(),
            r.added() == Map::<Seq<char>, Seq<Seq<char>>>::empty(),
            r.default_pairs().len() == 0,
            r.added_pairs().len() == 0,
    {
        let r = MimeApps { default_apps: StrMap::new(), added_associations: StrMap::new() };
        assert(r.defaults() =~= Map::<Seq<char>, Seq<Seq<char>>>::empty());
        assert(r.added() =~= Map::<Seq<char>, Seq<Seq<char>>>::empty());
        r
    }

    /// Parse associations from a raw INI string. Every entry read can be
    /// written and read back: the text `serialize` writes of the result
    /// reads back as the same associations.
    pub fn parse(contents: &str) -> (r: Self)
        ensures
            r.defaults() == parse_spec(contents@).1,
            r.added() == parse_spec(contents@).2,
            valid_entries(r.default_pairs()),
            valid_entries(r.added_pairs()),
            parse_spec(
                section_text(default_section(), r.default_pairs()) + section_text(
                    added_section(),
                    r.added_pairs(),
                ),
            ).1 == r.defaults(),
            parse_spec(
                section_text(default_section(), r.default_pairs()) + section_text(
                    added_section(),
                    r.added_pairs(),
                ),
            ).2 == r.added(),
    {
        let cs = chars_of(contents);
        let ls = lines_of(cs.as_slice());
        let ghost lv = ls.deep_view();
        let mut apps = MimeApps::new();
        let mut section: Option<Section> = None;
        let mut k: usize = 0;
        assert(lv.take(0) =~= Seq::<Seq<char>>::empty());
        while k < ls.len()
            invariant
                0 <= k <= ls@.len(),
                lv == ls.deep_view(),
                lv == lines(contents@),
                (section, apps.defaults(), apps.added()) == apps_fold(
                    lv.take(k as int),
                    (None, Map::empty(), Map::empty()),
                ),
            decreases ls@.len() - k,
        {
            assert(lv[k as int] == ls@[k as int]@);
            apps.parse_line(&mut section, ls[k].as_slice());
            assert(lv.take(k + 1).drop_last() =~= lv.take(k as int));
            k = k + 1;
        }
        assert(lv.take(ls@.len() as int) =~= lv);
        proof {
            law_parsed_entries_valid(contents@);
            use_type_invariant(&apps.default_apps);
            use_type_invariant(&apps.added_associations);
            lemma_valid_entries_of(apps.default_apps.pairs());
            lemma_valid_entries_of(apps.added_associations.pairs());
            law_serialize_then_parse(apps);
        }
        apps
    }

    /// Applies one line of `mimeapps.list`.
    fn parse_line(&mut self, section: &mut Option<Section>, raw: &[char])
        ensures
            (*final(section), final(self).defaults(), final(self).added()) == apps_step(
                (*old(section), old(self).defaults(), old(self).added()),
                raw@,
            ),
    {
        let line = trim_chars(raw);
        let n = line.len();
        if n == 0 || line[0] == '#' {
            return;
        }
        let dflt = chars_of("[Default Applications]");
        let added = chars_of("[Added Associations]");
        if chars_eq(line.as_slice(), dflt.as_slice()) {
            *section = Some(Section::DefaultApplications);
            return;
        }
        if chars_eq(line.as_slice(), added.as_slice()) {
            *section = Some(Section::AddedAssociations);
            return;
        }
        match parse_assignment(line.as_slice()) {
            None => {},
            Some((mime, handlers)) => {
                if handlers.len() == 0 {
                    return;
                }
                match *section {
                    Some(Section::DefaultApplications) => {
                        merge_handlers(&mut self.default_apps, mime, handlers);
                    },
                    Some(Section::AddedAssociations) => {
                        merge_handlers(&mut self.added_associations, mime, handlers);
                    },
                    None => {},
                }
            },
        }
    }
}

/// `parse_assignment`: the key and the handlers of a `key=value` line.
pub fn parse_assignment(line: &[char]) -> (r: Option<(String, Vec<String>)>)
    ensures
        match r {
            Some((k, hs)) => assignment(line@) == Some((k@, hs.deep_view())),
            None => assignment(line@) is None,
        },
{
    match crate::text::find_char(line, '=') {
        None => None,
        Some(eq) => {
            proof {
                crate::text::lemma_index_of(line@, '=');
            }
            let n = line.len();
            assert(eq < n);
            let key = crate::text::slice_subrange(line, 0, eq);
            let value = crate::text::slice_subrange(line, eq + 1, n);
            assert(key@ == line@.take(eq as int));
            assert(value@ == line@.skip(eq as int + 1));
            let k = trim_chars(key.as_slice());
            let parts = split_on(value.as_slice(), ';');
            let hs = trimmed_nonempty_of(&parts);
            Some((string_of(k.as_slice()), hs))
        },
    }
}

/// Adds `handlers` to the list of `mime` in `map`, keeping first occurrences.
fn merge_handlers(map: &mut StrMap<DesktopList>, mime: String, handlers: Vec<String>)
    ensures
        handler_map(final(map).map()) == merge_into(
            handler_map(old(map).map()),
            mime@,
            handlers.deep_view(),
        ),
{
    proof {
        use_type_invariant(&*map);
        lemma_pairs_to_map(map.pairs());
    }
    let ghost old_hm = handler_map(map.map());
    let ghost hv = handlers.deep_view();
    let mut list = match map.remove(mime.as_str()) {
        Some(l) => l,
        None => DesktopList::new(),
    };
    let ghost prev = list.handlers();
    assert(prev == (if old_hm.contains_key(mime@) {
        old_hm[mime@]
    } else {
        Seq::<Seq<char>>::empty()
    }));
    list.extend(handlers);
    list.dedup();
    let ghost mv = mime@;
    map.insert(mime, list);
    assert(handler_map(map.map()) =~= old_hm.insert(mv, dedup(prev + hv)));
}


/// Handlers joined with `;` between them.
pub open spec fn join_semi(hs: Seq<Seq<char>>) -> Seq<char>
    decreases hs.len(),
{
    if hs.len() == 0 {
        Seq::<char>::empty()
    } else if hs.len() == 1 {
        hs[0]
    } else {
        join_semi(hs.drop_last()) + seq![';'] + hs.last()
    }
}

/// One `mime=handler;handler;` line for each entry with handlers.
pub open spec fn entry_lines(pairs: Seq<(Seq<char>, Seq<Seq<char>>)>) -> Seq<char>
    decreases pairs.len(),
{
    if pairs.len() == 0 {
        Seq::<char>::empty()
    } else {
        let prev = entry_lines(pairs.drop_last());
        let (mime, hs) = pairs.last();
        if hs.len() == 0 {
            prev
        } else {
            prev + mime + seq!['='] + join_semi(hs) + seq![';', '\n']
        }
    }
}

/// A section: its header line, its entries and an empty line; nothing for
/// a section without entries.
pub open spec fn section_text(name: Seq<char>, pairs: Seq<(Seq<char>, Seq<Seq<char>>)>) -> Seq<char> {
    if pairs.len() == 0 {
        Seq::<char>::empty()
    } else {
        name + seq!['\n'] + entry_lines(pairs) + seq!['\n']
    }
}

/// The keys of `pairs` that the wildcard pattern `p` matches, in order.
pub open spec fn glob_keys(pairs: Seq<(Seq<char>, Seq<Seq<char>>)>, p: Seq<char>) -> Seq<Seq<char>>
    decreases pairs.len(),
{
    if pairs.len() == 0 {
        Seq::<Seq<char>>::empty()
    } else {
        let prev = glob_keys(pairs.drop_last(), p);
        if glob_match(p, pairs.last().0) {
            prev.push(pairs.last().0)
        } else {
            prev
        }
    }
}

/// The MIME types that an edit of `pattern` touches: the pattern itself,
/// or, when wildcards are expanded and it holds `*`, the matching keys of
/// the Default Applications followed by those of the Added Associations.
pub open spec fn resolve_spec(
    dpairs: Seq<(Seq<char>, Seq<Seq<char>>)>,
    apairs: Seq<(Seq<char>, Seq<Seq<char>>)>,
    pattern: Seq<char>,
    expand: bool,
) -> Seq<Seq<char>> {
    if !expand || !pattern.contains('*') {
        seq![pattern]
    } else {
        glob_keys(dpairs, pattern) + glob_keys(apairs, pattern)
    }
}

/// An edit of the handler list of one MIME type.
pub enum Edit {
    /// Replace the list.
    Replace(Vec<String>),
    /// Append a handler that is not there yet.
    Add(String),
    /// Remove one handler, or all of them.
    Remove(Option<String>),
}

/// What an edit does, over handler names.
pub enum EditSpec {
    Replace(Seq<Seq<char>>),
    Add(Seq<char>),
    Remove(Option<Seq<char>>),
}

/// The meaning of an edit.
pub open spec fn edit_view(e: Edit) -> EditSpec {
    match e {
        Edit::Replace(hs) => EditSpec::Replace(hs.deep_view()),
        Edit::Add(h) => EditSpec::Add(h@),
        Edit::Remove(Some(t)) => EditSpec::Remove(Some(t@)),
        Edit::Remove(None) => EditSpec::Remove(None),
    }
}

/// The list after an edit: a replacement keeps the first occurrence of each
/// new handler; an addition appends a handler not yet listed; a removal
/// drops every occurrence of one handler, or the whole list.
pub open spec fn apply_edit(e: EditSpec, list: Seq<Seq<char>>) -> Seq<Seq<char>> {
    match e {
        EditSpec::Replace(hs) => dedup(hs),
        EditSpec::Add(h) => if list.contains(h) {
            list
        } else {
            list.push(h)
        },
        EditSpec::Remove(Some(t)) => remove_all(list, t),
        EditSpec::Remove(None) => Seq::<Seq<char>>::empty(),
    }
}

/// The map after editing the list of each target in turn (a missing list
/// starts empty).
pub open spec fn edit_targets(
    map: Map<Seq<char>, Seq<Seq<char>>>,
    targets: Seq<Seq<char>>,
    e: EditSpec,
) -> Map<Seq<char>, Seq<Seq<char>>>
    decreases targets.len(),
{
    if targets.len() == 0 {
        map
    } else {
        let m = edit_targets(map, targets.drop_last(), e);
        let k = targets.last();
        m.insert(
            k,
            apply_edit(
                e,
                if m.contains_key(k) {
                    m[k]
                } else {
                    Seq::<Seq<char>>::empty()
                },
            ),
        )
    }
}

/// The map without its empty lists.
pub open spec fn drop_empty(m: Map<Seq<char>, Seq<Seq<char>>>) -> Map<Seq<char>, Seq<Seq<char>>> {
    Map::new(|k: Seq<char>| m.contains_key(k) && m[k].len() > 0, |k: Seq<char>| m[k])
}

impl MimeApps {
    /// The Default Applications map.
    pub fn default_apps(&self) -> (r: &StrMap<DesktopList>)
        ensures
            handler_map(r.map()) == self.defaults(),
            handler_pairs(r.pairs()) == self.default_pairs(),
    {
        &self.default_apps
    }

    /// The Added Associations map.
    pub fn added_associations(&self) -> (r: &StrMap<DesktopList>)
        ensures
            handler_map(r.map()) == self.added(),
            handler_pairs(r.pairs()) == self.added_pairs(),
    {
        &self.added_associations
    }

    /// The handlers configured for `mime` under Default Applications.
    pub fn handlers_for(&self, mime: &str) -> (r: Option<&DesktopList>)
        ensures
            match r {
                Some(l) => self.defaults().contains_key(mime@) && l.handlers() == self.defaults()[mime@],
                None => !self.defaults().contains_key(mime@),
            },
    {
        self.default_apps.get(mime)
    }

    /// The text of `mimeapps.list`: the Default Applications section, then
    /// the Added Associations section.
    pub fn serialize(&self) -> (r: String)
        ensures
            r@ == section_text(default_section(), self.default_pairs()) + section_text(
                added_section(),
                self.added_pairs(),
            ),
            distinct_keys(self.default_pairs()),
            distinct_keys(self.added_pairs()),
    {
        proof {
            use_type_invariant(&self.default_apps);
            use_type_invariant(&self.added_associations);
            let dp = self.default_apps.pairs();
            let ap = self.added_associations.pairs();
            assert forall|i: int, j: int| 0 <= i < j < self.default_pairs().len() implies #[trigger] self.default_pairs()[i].0
                != #[trigger] self.default_pairs()[j].0 by {
                crate::strmap::lemma_sorted_keys_distinct(dp, i, j);
            }
            assert forall|i: int, j: int| 0 <= i < j < self.added_pairs().len() implies #[trigger] self.added_pairs()[i].0
                != #[trigger] self.added_pairs()[j].0 by {
                crate::strmap::lemma_sorted_keys_distinct(ap, i, j);
            }
        }
        let mut out: Vec<char> = Vec::new();
        let dflt = chars_of("[Default Applications]");
        let added = chars_of("[Added Associations]");
        write_section(&mut out, dflt.as_slice(), &self.default_apps);
        write_section(&mut out, added.as_slice(), &self.added_associations);
        assert(out@ =~= Seq::<char>::empty() + section_text(default_section(), self.default_pairs())
            + section_text(added_section(), self.added_pairs()));
        string_of(out.as_slice())
    }

    /// The MIME types that an edit of `pattern` touches.
    fn resolve_targets(&self, pattern: &str, expand_wildcards: bool) -> (r: Vec<String>)
        ensures
            r.deep_view() == resolve_spec(
                self.default_pairs(),
                self.added_pairs(),
                pattern@,
                expand_wildcards,
            ),
    {
        let pc = chars_of(pattern);
        if !expand_wildcards || !crate::text::contains_char(pc.as_slice(), '*') {
            let mut r: Vec<String> = Vec::new();
            push_string(&mut r, string_of(pc.as_slice()));
            assert(r.deep_view() =~= seq![pattern@]);
            return r;
        }
        let mut r: Vec<String> = Vec::new();
        assert(r.deep_view() =~= Seq::<Seq<char>>::empty());
        push_glob_keys(&mut r, &self.default_apps, pattern);
        push_glob_keys(&mut r, &self.added_associations, pattern);
        assert(r.deep_view() =~= Seq::<Seq<char>>::empty() + glob_keys(self.default_pairs(), pattern@)
            + glob_keys(self.added_pairs(), pattern@));
        r
    }

    /// Applies an edit to the Default Applications list of every MIME type
    /// that `pattern` resolves to.
    fn apply_to_mimes(&mut self, pattern: &str, expand_wildcards: bool, e: &Edit)
        ensures
            final(self).defaults() == edit_targets(
                old(self).defaults(),
                resolve_spec(
                    old(self).default_pairs(),
                    old(self).added_pairs(),
                    pattern@,
                    expand_wildcards,
                ),
                edit_view(*e),
            ),
            final(self).added() == old(self).added(),
            final(self).added_pairs() == old(self).added_pairs(),
    {
        let targets = self.resolve_targets(pattern, expand_wildcards);
        let ghost tv = targets.deep_view();
        let ghost d0 = self.defaults();
        let mut i: usize = 0;
        assert(tv.take(0) =~= Seq::<Seq<char>>::empty());
        while i < targets.len()
            invariant
                0 <= i <= targets@.len(),
                tv == targets.deep_view(),
                self.defaults() == edit_targets(d0, tv.take(i as int), edit_view(*e)),
                self.added() == old(self).added(),
                self.added_pairs() == old(self).added_pairs(),
            decreases targets@.len() - i,
        {
            assert(tv[i as int] == targets@[i as int]@);
            edit_entry(&mut self.default_apps, targets[i].clone(), e);
            assert(tv.take(i + 1).drop_last() =~= tv.take(i as int));
            i = i + 1;
        }
        assert(tv.take(targets@.len() as int) =~= tv);
    }

    /// Replace the list of handlers for the provided mimetype pattern.
    pub fn set_handler(&mut self, pattern: &str, handlers: Vec<String>, expand_wildcards: bool)
        ensures
            final(self).defaults() == edit_targets(
                old(self).defaults(),
                resolve_spec(
                    old(self).default_pairs(),
                    old(self).added_pairs(),
                    pattern@,
                    expand_wildcards,
                ),
                EditSpec::Replace(handlers.deep_view()),
            ),
            final(self).added() == old(self).added(),
    {
        let e = Edit::Replace(handlers);
        self.apply_to_mimes(pattern, expand_wildcards, &e);
    }

    /// Append a handler to the mimetype pattern if it is not already present.
    pub fn add_handler(&mut self, pattern: &str, handler: String, expand_wildcards: bool)
        ensures
            final(self).defaults() == edit_targets(
                old(self).defaults(),
                resolve_spec(
                    old(self).default_pairs(),
                    old(self).added_pairs(),
                    pattern@,
                    expand_wildcards,
                ),
                EditSpec::Add(handler@),
            ),
            final(self).added() == old(self).added(),
    {
        let e = Edit::Add(handler);
        self.apply_to_mimes(pattern, expand_wildcards, &e);
    }

    /// Remove a handler from the mimetype pattern; when `handler` is `None`,
    /// the whole entry goes. Lists left empty are then dropped.
    pub fn remove_handler(&mut self, pattern: &str, handler: Option<&str>, expand_wildcards: bool)
        ensures
            final(self).defaults() == drop_empty(
                edit_targets(
                    old(self).defaults(),
                    resolve_spec(
                        old(self).default_pairs(),
                        old(self).added_pairs(),
                        pattern@,
                        expand_wildcards,
                    ),
                    EditSpec::Remove(
                        match handler {
                            Some(h) => Some(h@),
                            None => None,
                        },
                    ),
                ),
            ),
            final(self).added() == old(self).added(),
    {
        let target: Option<String> = match handler {
            Some(h) => Some(crate::text::to_string_of(h)),
            None => None,
        };
        let e = Edit::Remove(target);
        self.apply_to_mimes(pattern, expand_wildcards, &e);
        drop_empty_lists(&mut self.default_apps);
    }
}

/// Writing the associations and reading the text back gives the same
/// associations, when every MIME type and handler can be written as it is
/// (see `valid_entries`); whatever `MimeApps::parse` returns is such.
pub proof fn law_serialize_then_parse(m: MimeApps)
    requires
        valid_entries(m.default_pairs()),
        valid_entries(m.added_pairs()),
    ensures
        parse_spec(
            section_text(default_section(), m.default_pairs()) + section_text(
                added_section(),
                m.added_pairs(),
            ),
        ).1 == m.defaults(),
        parse_spec(
            section_text(default_section(), m.default_pairs()) + section_text(
                added_section(),
                m.added_pairs(),
            ),
        ).2 == m.added(),
{
    let dp = m.default_pairs();
    let ap = m.added_pairs();
    let dl = section_lines(default_section(), dp);
    let al = section_lines(added_section(), ap);
    lemma_section_text(default_section(), dp);
    lemma_section_text(added_section(), ap);
    crate::text::lemma_text_of_append(dl, al);
    lemma_headers();
    lemma_section_lines_plain(default_section(), dp);
    lemma_section_lines_plain(added_section(), ap);
    let all = dl + al;
    assert forall|i: int| 0 <= i < all.len() implies !(#[trigger] all[i]).contains('\n') && strip_cr(all[i])
        == all[i] by {
        if i < dl.len() {
            assert(all[i] == dl[i]);
        } else {
            assert(all[i] == al[i - dl.len()]);
        }
    }
    crate::text::lemma_lines_of_text(all);
    let init: ParseState = (None, Map::empty(), Map::empty());
    lemma_apps_fold_append(dl, al, init);
    lemma_fold_default_section(dp);
    lemma_fold_added_section(ap, apps_fold(dl, init));
    lemma_handler_pairs_map::<DesktopList>(m.default_apps.pairs());
    lemma_handler_pairs_map::<DesktopList>(m.added_associations.pairs());
}

impl Default for MimeApps {
    fn default() -> (r: Self)
        ensures
            r.defaults() == Map::<Seq<char>, Seq<Seq<char>>>::empty(),
            r.added() == Map::<Seq<char>, Seq<Seq<char>>>::empty(),
    {
        Self::new()
    }
}

/// Writes one section of `mimeapps.list` to `out`.
fn write_section(out: &mut Vec<char>, name: &[char], entries: &StrMap<DesktopList>)
    ensures
        final(out)@ == old(out)@ + section_text(name@, handler_pairs(entries.pairs())),
{
    let n = entries.len();
    if n == 0 {
        assert(section_text(name@, handler_pairs(entries.pairs())) =~= Seq::<char>::empty());
        assert(out@ =~= old(out)@ + Seq::<char>::empty());
        return;
    }
    let ghost ps = handler_pairs(entries.pairs());
    push_all(out, name);
    out.push('\n');
    let ghost base = out@;
    let mut i: usize = 0;
    assert(ps.take(0) =~= Seq::<(Seq<char>, Seq<Seq<char>>)>::empty());
    while i < n
        invariant
            0 <= i <= n,
            n == entries.pairs().len(),
            ps == handler_pairs(entries.pairs()),
            out@ == base + entry_lines(ps.take(i as int)),
        decreases n - i,
    {
        let mime = entries.key_at(i);
        let list = entries.value_at(i);
        assert(ps[i as int] == (mime@, list.handlers()));
        assert(ps.take(i + 1).drop_last() =~= ps.take(i as int));
        if !list.is_empty() {
            let ghost before = out@;
            push_all(out, chars_of(mime.as_str()).as_slice());
            out.push('=');
            push_joined(out, list.iter());
            out.push(';');
            out.push('\n');
            assert(out@ =~= before + mime@ + seq!['='] + join_semi(list.handlers()) + seq![';', '\n']);
        }
        i = i + 1;
    }
    assert(ps.take(n as int) =~= ps);
    out.push('\n');
    assert(out@ =~= old(out)@ + section_text(name@, ps));
}

/// Appends the handlers joined with `;`.
fn push_joined(out: &mut Vec<char>, hs: &[String])
    ensures
        final(out)@ == old(out)@ + join_semi(hs.deep_view()),
{
    let ghost hv = hs.deep_view();
    let mut i: usize = 0;
    assert(hv.take(0) =~= Seq::<Seq<char>>::empty());
    while i < hs.len()
        invariant
            0 <= i <= hs@.len(),
            hv == hs.deep_view(),
            out@ == old(out)@ + join_semi(hv.take(i as int)),
        decreases hs@.len() - i,
    {
        assert(hv[i as int] == hs@[i as int]@);
        assert(hv.take(i + 1).drop_last() =~= hv.take(i as int));
        let ghost before = out@;
        if i > 0 {
            out.push(';');
        }
        push_all(out, chars_of(hs[i].as_str()).as_slice());
        if i == 0 {
            assert(hv.take(1) =~= seq![hv[0]]);
        }
        assert(out@ =~= old(out)@ + join_semi(hv.take(i + 1)));
        i = i + 1;
    }
    assert(hv.take(hs@.len() as int) =~= hv);
}

/// Appends the keys of `map` that the wildcard pattern matches.
fn push_glob_keys(out: &mut Vec<String>, map: &StrMap<DesktopList>, pattern: &str)
    ensures
        final(out).deep_view() == old(out).deep_view() + glob_keys(handler_pairs(map.pairs()), pattern@),
{
    let ghost ps = handler_pairs(map.pairs());
    let n = map.len();
    let mut i: usize = 0;
    assert(ps.take(0) =~= Seq::<(Seq<char>, Seq<Seq<char>>)>::empty());
    assert(old(out).deep_view() =~= old(out).deep_view() + glob_keys(ps.take(0), pattern@));
    while i < n
        invariant
            0 <= i <= n,
            n == map.pairs().len(),
            ps == handler_pairs(map.pairs()),
            out.deep_view() == old(out).deep_view() + glob_keys(ps.take(i as int), pattern@),
        decreases n - i,
    {
        let key = map.key_at(i);
        assert(ps[i as int].0 == key@);
        assert(ps.take(i + 1).drop_last() =~= ps.take(i as int));
        if wildcard_matches(pattern, key.as_str()) {
            push_string(out, key.clone());
        }
        assert(out.deep_view() =~= old(out).deep_view() + glob_keys(ps.take(i + 1), pattern@));
        i = i + 1;
    }
    assert(ps.take(n as int) =~= ps);
}

/// Edits the list of `mime` in `map` (a missing list starts empty).
fn edit_entry(map: &mut StrMap<DesktopList>, mime: String, e: &Edit)
    ensures
        handler_map(final(map).map()) == handler_map(old(map).map()).insert(
            mime@,
            apply_edit(
                edit_view(*e),
                if handler_map(old(map).map()).contains_key(mime@) {
                    handler_map(old(map).map())[mime@]
                } else {
                    Seq::<Seq<char>>::empty()
                },
            ),
        ),
{
    proof {
        use_type_invariant(&*map);
        lemma_pairs_to_map(map.pairs());
    }
    let ghost old_hm = handler_map(map.map());
    let mut list = match map.remove(mime.as_str()) {
        Some(l) => l,
        None => DesktopList::new(),
    };
    let ghost prev = list.handlers();
    assert(prev == (if old_hm.contains_key(mime@) {
        old_hm[mime@]
    } else {
        Seq::<Seq<char>>::empty()
    }));
    match e {
        Edit::Replace(hs) => {
            list.clear();
            list.extend(crate::text::copy_strings(hs));
            list.dedup();
            assert(Seq::<Seq<char>>::empty() + hs.deep_view() =~= hs.deep_view());
        },
        Edit::Add(h) => {
            if !list.contains(h.as_str()) {
                list.push_back(h.clone());
            }
        },
        Edit::Remove(Some(t)) => {
            remove_handler_from(&mut list, t);
        },
        Edit::Remove(None) => {
            list.clear();
        },
    }
    let ghost mv = mime@;
    map.insert(mime, list);
    assert(handler_map(map.map()) =~= old_hm.insert(mv, apply_edit(edit_view(*e), prev)));
}

/// Removes every occurrence of `t` from the list.
fn remove_handler_from(list: &mut DesktopList, t: &String)
    ensures
        final(list).handlers() == remove_all(old(list).handlers(), t@),
{
    let ghost tv = t@;
    let f = |h: &String| -> (r: bool)
        ensures
            r == (h@ != t@),
        { !str_eq(h.as_str(), t.as_str()) };
    let ghost before = list.items();
    proof {
        list.lemma_items();
    }
    list.retain(f);
    proof {
        list.lemma_items();
        let keep = choose|keep: Seq<bool>|
            {
                &&& keep.len() == before.len()
                &&& forall|i: int| 0 <= i < keep.len() ==> #[trigger] f.ensures((&before[i],), keep[i])
                &&& list.items() == filter_keep(before, keep)
            };
        assert forall|i: int| 0 <= i < keep.len() implies keep[i] == (before[i]@ != tv) by {
            assert(f.ensures((&before[i],), keep[i]));
        }
        lemma_filter_keep_views(before, keep, tv);
        assert(old(list).handlers() =~= before.map_values(|x: String| x@));
        assert(list.handlers() =~= list.items().map_values(|x: String| x@));
    }
}

/// Filtering strings by "differs from `t`" filters their views likewise.
proof fn lemma_filter_keep_views(s: Seq<String>, keep: Seq<bool>, t: Seq<char>)
    requires
        keep.len() == s.len(),
        forall|i: int| 0 <= i < keep.len() ==> keep[i] == (s[i]@ != t),
    ensures
        filter_keep(s, keep).map_values(|x: String| x@) == remove_all(
            s.map_values(|x: String| x@),
            t,
        ),
    decreases s.len(),
{
    if s.len() > 0 {
        let sd = s.drop_last();
        let kd = keep.drop_last();
        assert forall|i: int| 0 <= i < kd.len() implies kd[i] == (sd[i]@ != t) by {
            assert(kd[i] == keep[i] && sd[i] == s[i]);
        }
        lemma_filter_keep_views(sd, kd, t);
        assert(s.map_values(|x: String| x@).drop_last() =~= sd.map_values(|x: String| x@));
        assert(filter_keep(s, keep).map_values(|x: String| x@) =~= remove_all(
            s.map_values(|x: String| x@),
            t,
        ));
    } else {
        assert(filter_keep(s, keep).map_values(|x: String| x@) =~= remove_all(
            s.map_values(|x: String| x@),
            t,
        ));
    }
}

/// Drops the entries whose list is empty.
fn drop_empty_lists(map: &mut StrMap<DesktopList>)
    ensures
        handler_map(final(map).map()) == drop_empty(handler_map(old(map).map())),
{
    proof {
        use_type_invariant(&*map);
        lemma_pairs_to_map(map.pairs());
    }
    let ghost ps = map.pairs();
    let ghost old_hm = handler_map(map.map());
    let mut kept: StrMap<DesktopList> = StrMap::new();
    let mut rest: StrMap<DesktopList> = StrMap::new();
    std::mem::swap(&mut rest, map);
    let n = rest.len();
    let mut i: usize = 0;
    assert(ps.take(0) =~= Seq::<(Seq<char>, DesktopList)>::empty());
    assert(handler_map(kept.map()) =~= drop_empty(handler_map(crate::strmap::pairs_to_map(ps.take(0)))));
    while i < n
        invariant
            0 <= i <= n,
            n == ps.len(),
            keys_sorted_prop(ps),
            rest.pairs() == ps.skip(i as int),
            handler_map(kept.map()) == drop_empty(handler_map(crate::strmap::pairs_to_map(ps.take(i as int)))),
        decreases n - i,
    {
        let ghost pre = ps.take(i as int);
        let ghost m = handler_map(crate::strmap::pairs_to_map(pre));
        let (k, l) = rest.remove_at(0);
        assert(ps.skip(i as int)[0] == ps[i as int]);
        assert(rest.pairs() =~= ps.skip(i + 1));
        let ghost kv = k@;
        let ghost lh = l.handlers();
        proof {
            assert(ps.take(i + 1).drop_last() =~= pre);
            assert(handler_map(crate::strmap::pairs_to_map(ps.take(i + 1))) =~= m.insert(kv, lh));
            assert(keys_sorted(pre)) by {
                assert forall|a: int, b: int| 0 <= a < b < pre.len() implies lex_lt(
                    #[trigger] pre[a].0,
                    #[trigger] pre[b].0,
                ) by {
                    assert(pre[a] == ps[a] && pre[b] == ps[b]);
                }
            }
            lemma_pairs_to_map(pre);
            assert(!m.contains_key(kv)) by {
                if m.contains_key(kv) {
                    let j = choose|j: int| 0 <= j < pre.len() && pre[j].0 == kv;
                    crate::strmap::lemma_sorted_keys_distinct(ps, j, i as int);
                }
            }
        }
        let ghost before = handler_map(kept.map());
        if !l.is_empty() {
            kept.insert(k, l);
            assert(handler_map(kept.map()) =~= before.insert(kv, lh));
            assert(drop_empty(m.insert(kv, lh)) =~= drop_empty(m).insert(kv, lh));
        } else {
            assert(drop_empty(m.insert(kv, lh)) =~= drop_empty(m));
        }
        i = i + 1;
    }
    assert(ps.take(n as int) =~= ps);
    *map = kept;
}

/// Keys in strictly increasing order.
pub open spec fn keys_sorted_prop(s: Seq<(Seq<char>, DesktopList)>) -> bool {
    crate::strmap::keys_sorted(s)
}

} // verus!
