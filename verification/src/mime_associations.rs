//! MIME associations read from `mimeapps.list` files.
use vstd::prelude::*;
use crate::mimeapps::dedup;
use crate::mime_pattern::mime_matches;
use crate::strmap::{keys_sorted, lemma_pairs_to_map, pairs_to_map, StrMap};
use crate::text::{
    add_unseen, add_unseen_into, chars_eq, chars_of, lines, lines_of, no_dups, push_string,
    split_char, split_on, split_once, string_of, trim, trim_chars,
};

verus! {

/// The section header that sets default applications.
pub open spec fn default_section() -> Seq<char> {
    "[Default Applications]"@
}

/// The section header that adds associations.
pub open spec fn added_section() -> Seq<char> {
    "[Added Associations]"@
}

/// The handlers of a `mimeapps.list` value: the non-empty pieces between
/// semicolons, each trimmed afterwards.
pub open spec fn assoc_apps(parts: Seq<Seq<char>>) -> Seq<Seq<char>>
    decreases parts.len(),
{
    if parts.len() == 0 {
        Seq::<Seq<char>>::empty()
    } else {
        let prev = assoc_apps(parts.drop_last());
        if parts.last().len() > 0 {
            prev.push(trim(parts.last()))
        } else {
            prev
        }
    }
}

/// The state after reading one line: the current section and the map from
/// MIME types to handlers. Default Applications replace the list of a type,
/// Added Associations extend it.
pub open spec fn assoc_step(
    st: (Seq<char>, Map<Seq<char>, Seq<Seq<char>>>),
    raw: Seq<char>,
) -> (Seq<char>, Map<Seq<char>, Seq<Seq<char>>>) {
    let section = st.0;
    let map = st.1;
    let line = trim(raw);
    if line.len() == 0 || line[0] == '#' {
        st
    } else if line[0] == '[' && line.last() == ']' {
        (line, map)
    } else if section == default_section() || section == added_section() {
        match split_once(line, '=') {
            Some((k, v)) => {
                let mime = trim(k);
                let apps = assoc_apps(split_char(v, ';'));
                if apps.len() == 0 {
                    st
                } else if section == default_section() {
                    (section, map.insert(mime, apps))
                } else {
                    let prev = if map.contains_key(mime) {
                        map[mime]
                    } else {
                        Seq::<Seq<char>>::empty()
                    };
                    (section, map.insert(mime, prev + apps))
                }
            },
            None => st,
        }
    } else {
        st
    }
}

/// The state after reading the lines `ls` one after another.
pub open spec fn assoc_fold(
    ls: Seq<Seq<char>>,
    st: (Seq<char>, Map<Seq<char>, Seq<Seq<char>>>),
) -> (Seq<char>, Map<Seq<char>, Seq<Seq<char>>>)
    decreases ls.len(),
{
    if ls.len() == 0 {
        st
    } else {
        assoc_step(assoc_fold(ls.drop_last(), st), ls.last())
    }
}

/// The map from MIME types to handler lists that a map of vectors holds.
pub open spec fn list_map(m: Map<Seq<char>, Vec<String>>) -> Map<Seq<char>, Seq<Seq<char>>> {
    m.map_values(|v: Vec<String>| v.deep_view())
}

/// The (key, handlers) pairs of a map of vectors, in key order.
pub open spec fn list_pairs(s: Seq<(Seq<char>, Vec<String>)>) -> Seq<(Seq<char>, Seq<Seq<char>>)> {
    s.map_values(|p: (Seq<char>, Vec<String>)| (p.0, p.1.deep_view()))
}

/// The map of the handler pairs is the handler map of the pairs' map.
pub proof fn lemma_list_pairs_map(s: Seq<(Seq<char>, Vec<String>)>)
    ensures
        pairs_to_map(list_pairs(s)) == list_map(pairs_to_map(s)),
    decreases s.len(),
{
    if s.len() == 0 {
        assert(list_pairs(s) =~= Seq::<(Seq<char>, Seq<Seq<char>>)>::empty());
        assert(list_map(pairs_to_map(s)) =~= Map::<Seq<char>, Seq<Seq<char>>>::empty());
    } else {
        lemma_list_pairs_map(s.drop_last());
        assert(list_pairs(s).drop_last() =~= list_pairs(s.drop_last()));
        assert(list_pairs(s).last() == (s.last().0, s.last().1.deep_view()));
        assert(list_map(pairs_to_map(s)) =~= list_map(pairs_to_map(s.drop_last())).insert(
            s.last().0,
            s.last().1.deep_view(),
        ));
    }
}

/// Sorted keys stay sorted when the values are viewed.
pub proof fn lemma_list_pairs_sorted(s: Seq<(Seq<char>, Vec<String>)>)
    requires
        keys_sorted(s),
    ensures
        keys_sorted(list_pairs(s)),
{
    assert forall|i: int, j: int| 0 <= i < j < list_pairs(s).len() implies crate::text::lex_lt(
        #[trigger] list_pairs(s)[i].0,
        #[trigger] list_pairs(s)[j].0,
    ) by {
        assert(list_pairs(s)[i].0 == s[i].0);
        assert(list_pairs(s)[j].0 == s[j].0);
    }
}

/// Adds, in key order, the handlers of every other pattern that matches
/// `mime`.
pub open spec fn collect_matching(
    pairs: Seq<(Seq<char>, Seq<Seq<char>>)>,
    mime: Seq<char>,
    acc: Seq<Seq<char>>,
) -> Seq<Seq<char>>
    decreases pairs.len(),
{
    if pairs.len() == 0 {
        acc
    } else {
        let a = collect_matching(pairs.drop_last(), mime, acc);
        let (k, hs) = pairs.last();
        if k != mime && mime_matches(k, mime) {
            add_unseen(a, hs)
        } else {
            a
        }
    }
}

/// The handlers for `mime`: those listed for it exactly, then those of the
/// other patterns that match it in key order, each handler once.
pub open spec fn associations_for(
    pairs: Seq<(Seq<char>, Seq<Seq<char>>)>,
    map: Map<Seq<char>, Seq<Seq<char>>>,
    mime: Seq<char>,
) -> Seq<Seq<char>> {
    let exact = if map.contains_key(mime) {
        map[mime]
    } else {
        Seq::<Seq<char>>::empty()
    };
    collect_matching(pairs, mime, add_unseen(Seq::<Seq<char>>::empty(), exact))
}

proof fn lemma_add_unseen_prefix(acc: Seq<Seq<char>>, hs: Seq<Seq<char>>)
    ensures
        add_unseen(acc, hs).len() >= acc.len(),
        add_unseen(acc, hs).take(acc.len() as int) == acc,
    decreases hs.len(),
{
    if hs.len() == 0 {
        assert(acc.take(acc.len() as int) =~= acc);
    } else {
        lemma_add_unseen_prefix(acc, hs.drop_last());
        let a = add_unseen(acc, hs.drop_last());
        if !a.contains(hs.last()) {
            assert(a.push(hs.last()).take(acc.len() as int) =~= a.take(acc.len() as int));
        }
    }
}

proof fn lemma_collect_prefix(pairs: Seq<(Seq<char>, Seq<Seq<char>>)>, mime: Seq<char>, acc: Seq<Seq<char>>)
    ensures
        collect_matching(pairs, mime, acc).len() >= acc.len(),
        collect_matching(pairs, mime, acc).take(acc.len() as int) == acc,
    decreases pairs.len(),
{
    if pairs.len() == 0 {
        assert(acc.take(acc.len() as int) =~= acc);
    } else {
        lemma_collect_prefix(pairs.drop_last(), mime, acc);
        let a = collect_matching(pairs.drop_last(), mime, acc);
        let (k, hs) = pairs.last();
        if k != mime && mime_matches(k, mime) {
            lemma_add_unseen_prefix(a, hs);
            assert(add_unseen(a, hs).take(acc.len() as int) =~= add_unseen(a, hs).take(a.len() as int).take(
                acc.len() as int,
            ));
        }
    }
}

/// The handlers listed for a MIME type itself come first, in their order
/// and each once, before those of the patterns that match it.
pub proof fn law_exact_handlers_first(
    pairs: Seq<(Seq<char>, Seq<Seq<char>>)>,
    map: Map<Seq<char>, Seq<Seq<char>>>,
    mime: Seq<char>,
)
    requires
        map.contains_key(mime),
    ensures
        associations_for(pairs, map, mime).take(dedup(map[mime]).len() as int) == dedup(map[mime]),
{
    lemma_collect_prefix(pairs, mime, add_unseen(Seq::<Seq<char>>::empty(), map[mime]));
}

/// Associations between MIME types (or patterns) and desktop handlers.
#[derive(Debug)]
pub struct MimeAssociations {
    associations: StrMap<Vec<String>>,
}

impl MimeAssociations {
    /// The handler list of each MIME type or pattern.
    pub closed spec fn assoc(self) -> Map<Seq<char>, Seq<Seq<char>>> {
        list_map(self.associations.map())
    }

    /// The (pattern, handlers) pairs in key order.
    pub closed spec fn assoc_pairs(self) -> Seq<(Seq<char>, Seq<Seq<char>>)> {
        list_pairs(self.associations.pairs())
    }

    /// No associations.
    pub fn new() -> (r: Self)
        ensures
            r.assoc() == Map::<Seq<char>, Seq<Seq<char>>>::empty(),
            r.assoc_pairs().len() == 0,
            keys_sorted(r.assoc_pairs()),
            pairs_to_map(r.assoc_pairs()) == r.assoc(),
    {
        let r = MimeAssociations { associations: StrMap::new() };
        assert(r.assoc() =~= Map::<Seq<char>, Seq<Seq<char>>>::empty());
        proof {
            lemma_list_pairs_map(r.associations.pairs());
        }
        r
    }

    /// Associations taken as given.
    pub fn with_associations(associations: StrMap<Vec<String>>) -> (r: Self)
        ensures
            r.assoc() == list_map(associations.map()),
            r.assoc_pairs() == list_pairs(associations.pairs()),
            keys_sorted(r.assoc_pairs()),
            pairs_to_map(r.assoc_pairs()) == r.assoc(),
    {
        proof {
            use_type_invariant(&associations);
            lemma_list_pairs_map(associations.pairs());
            lemma_list_pairs_sorted(associations.pairs());
        }
        MimeAssociations { associations }
    }

    /// The associations that the contents of `mimeapps.list` files give, the
    /// files listed from the most to the least important: they are read in
    /// reverse order, so that earlier files override later ones.
    pub fn from_file_contents(files: &Vec<String>) -> (r: Self)
        ensures
            r.assoc() == fold_files(files.deep_view(), Map::empty()),
            keys_sorted(r.assoc_pairs()),
            pairs_to_map(r.assoc_pairs()) == r.assoc(),
    {
        let mut associations: StrMap<Vec<String>> = StrMap::new();
        let mut k: usize = files.len();
        assert(files.deep_view().skip(k as int) =~= Seq::<Seq<char>>::empty());
        while k > 0
            invariant
                k <= files@.len(),
                list_map(associations.map()) == fold_files(
                    files.deep_view().skip(k as int),
                    Map::empty(),
                ),
            decreases k,
        {
            k = k - 1;
            Self::parse_mimeapps_file(files[k].as_str(), &mut associations);
            assert(files.deep_view().skip(k as int).drop_first() =~= files.deep_view().skip(
                k + 1,
            ));
            assert(files.deep_view()[k as int] == files@[k as int]@);
        }
        assert(files.deep_view().skip(0) =~= files.deep_view());
        proof {
            use_type_invariant(&associations);
            lemma_list_pairs_map(associations.pairs());
            lemma_list_pairs_sorted(associations.pairs());
        }
        MimeAssociations { associations }
    }

    /// Reads the contents of one `mimeapps.list` file into `associations`.
    pub fn parse_mimeapps_file(contents: &str, associations: &mut StrMap<Vec<String>>)
        ensures
            list_map(final(associations).map()) == assoc_fold(
                lines(contents@),
                (Seq::<char>::empty(), list_map(old(associations).map())),
            ).1,
    {
        let cs = chars_of(contents);
        let ls = lines_of(cs.as_slice());
        let ghost lv = ls.deep_view();
        let mut section: Vec<char> = Vec::new();
        let mut k: usize = 0;
        let ghost init = (Seq::<char>::empty(), list_map(old(associations).map()));
        assert(lv.take(0) =~= Seq::<Seq<char>>::empty());
        while k < ls.len()
            invariant
                0 <= k <= ls@.len(),
                lv == ls.deep_view(),
                lv == lines(contents@),
                init == (Seq::<char>::empty(), list_map(old(associations).map())),
                (section@, list_map(associations.map())) == assoc_fold(lv.take(k as int), init),
            decreases ls@.len() - k,
        {
            assert(lv[k as int] == ls@[k as int]@);
            Self::assoc_line(&mut section, associations, ls[k].as_slice());
            assert(lv.take(k + 1).drop_last() =~= lv.take(k as int));
            k = k + 1;
        }
        assert(lv.take(ls@.len() as int) =~= lv);
    }

    /// Applies one line of a `mimeapps.list` file.
    fn assoc_line(section: &mut Vec<char>, map: &mut StrMap<Vec<String>>, raw: &[char])
        ensures
            (final(section)@, list_map(final(map).map())) == assoc_step(
                (old(section)@, list_map(old(map).map())),
                raw@,
            ),
    {
        let line = trim_chars(raw);
        let n = line.len();
        if n == 0 || line[0] == '#' {
            return;
        }
        if line[0] == '[' && line[n - 1] == ']' {
            *section = line;
            return;
        }
        let dflt = chars_of("[Default Applications]");
        let added = chars_of("[Added Associations]");
        let is_default = chars_eq(section.as_slice(), dflt.as_slice());
        let is_added = chars_eq(section.as_slice(), added.as_slice());
        if !is_default && !is_added {
            return;
        }
        match crate::text::find_char(line.as_slice(), '=') {
            None => {
                return;
            },
            Some(eq) => {
                proof {
                    crate::text::lemma_index_of(line@, '=');
                }
                let key = crate::text::slice_subrange(line.as_slice(), 0, eq);
                let value = crate::text::slice_subrange(line.as_slice(), eq + 1, n);
                assert(key@ == line@.take(eq as int));
                assert(value@ == line@.skip(eq as int + 1));
                let mime_chars = trim_chars(key.as_slice());
                let parts = split_on(value.as_slice(), ';');
                let mut apps = assoc_apps_of(&parts);
                if apps.len() == 0 {
                    return;
                }
                let mime = string_of(mime_chars.as_slice());
                proof {
                    use_type_invariant(&*map);
                    lemma_pairs_to_map(map.pairs());
                }
                let ghost old_lm = list_map(map.map());
                if is_default {
                    let ghost av = apps.deep_view();
                    map.insert(mime, apps);
                    assert(list_map(map.map()) =~= old_lm.insert(mime_chars@, av));
                } else {
                    let ghost av = apps.deep_view();
                    let mut list = match map.remove(mime.as_str()) {
                        Some(l) => l,
                        None => Vec::new(),
                    };
                    let ghost lv = list.deep_view();
                    assert(lv == (if old_lm.contains_key(mime_chars@) {
                        old_lm[mime_chars@]
                    } else {
                        Seq::<Seq<char>>::empty()
                    }));
                    list.append(&mut apps);
                    assert(list.deep_view() =~= lv + av);
                    map.insert(mime, list);
                    assert(list_map(map.map()) =~= old_lm.insert(mime_chars@, lv + av));
                }
            },
        }
    }

    /// The handlers associated with `mime_type`, exact ones first, then
    /// those of matching patterns in key order, each handler once.
    pub fn get_associations(&self, mime_type: &str) -> (r: Vec<String>)
        ensures
            r.deep_view() == associations_for(self.assoc_pairs(), self.assoc(), mime_type@),
            no_dups(r.deep_view()),
    {
        proof {
            use_type_invariant(&self.associations);
            lemma_pairs_to_map(self.associations.pairs());
        }
        let mut results: Vec<String> = Vec::new();
        assert(results.deep_view() =~= Seq::<Seq<char>>::empty());
        assert(no_dups(results.deep_view()));
        match self.associations.get(mime_type) {
            Some(exact) => {
                assert(self.assoc()[mime_type@] == exact.deep_view());
                add_unseen_into(&mut results, exact);
            },
            None => {
                let empty: Vec<String> = Vec::new();
                assert(empty.deep_view() =~= Seq::<Seq<char>>::empty());
                add_unseen_into(&mut results, &empty);
            },
        }
        assert(results.deep_view() == add_unseen(
            Seq::<Seq<char>>::empty(),
            if self.assoc().contains_key(mime_type@) {
                self.assoc()[mime_type@]
            } else {
                Seq::<Seq<char>>::empty()
            },
        ));
        let ghost pairs = self.assoc_pairs();
        let ghost start = results.deep_view();
        let n = self.associations.len();
        let mut i: usize = 0;
        assert(pairs.take(0) =~= Seq::<(Seq<char>, Seq<Seq<char>>)>::empty());
        while i < n
            invariant
                0 <= i <= n,
                n == self.associations.pairs().len(),
                pairs == self.assoc_pairs(),
                pairs.len() == n,
                results.deep_view() == collect_matching(pairs.take(i as int), mime_type@, start),
                no_dups(results.deep_view()),
            decreases n - i,
        {
            let key = self.associations.key_at(i);
            let handlers = self.associations.value_at(i);
            assert(pairs[i as int] == (key@, handlers.deep_view()));
            assert(pairs.take(i + 1).drop_last() =~= pairs.take(i as int));
            if !crate::text::str_eq(key.as_str(), mime_type) && crate::mime_pattern::matches(key.as_str(), mime_type) {
                add_unseen_into(&mut results, handlers);
            }
            i = i + 1;
        }
        assert(pairs.take(n as int) =~= pairs);
        results
    }
}

impl Default for MimeAssociations {
    fn default() -> (r: Self)
        ensures
            r.assoc() == Map::<Seq<char>, Seq<Seq<char>>>::empty(),
            r.assoc_pairs().len() == 0,
            keys_sorted(r.assoc_pairs()),
            pairs_to_map(r.assoc_pairs()) == r.assoc(),
    {
        Self::new()
    }
}

/// The associations that a list of file contents gives when the files are
/// read from the last to the first.
pub open spec fn fold_files(
    files: Seq<Seq<char>>,
    map: Map<Seq<char>, Seq<Seq<char>>>,
) -> Map<Seq<char>, Seq<Seq<char>>>
    decreases files.len(),
{
    if files.len() == 0 {
        map
    } else {
        assoc_fold(lines(files[0]), (Seq::<char>::empty(), fold_files(files.drop_first(), map))).1
    }
}

/// The handlers of a split value, non-empty pieces trimmed.
fn assoc_apps_of(parts: &Vec<Vec<char>>) -> (r: Vec<String>)
    ensures
        r.deep_view() == assoc_apps(parts.deep_view()),
{
    let ghost pv = parts.deep_view();
    let mut r: Vec<String> = Vec::new();
    let mut i: usize = 0;
    assert(pv.take(0) =~= Seq::<Seq<char>>::empty());
    while i < parts.len()
        invariant
            0 <= i <= parts@.len(),
            pv == parts.deep_view(),
            r.deep_view() == assoc_apps(pv.take(i as int)),
        decreases parts@.len() - i,
    {
        assert(pv[i as int] == parts@[i as int]@);
        assert(pv.take(i + 1).drop_last() =~= pv.take(i as int));
        if parts[i].len() > 0 {
            let t = trim_chars(parts[i].as_slice());
            push_string(&mut r, string_of(t.as_slice()));
        }
        i = i + 1;
    }
    assert(pv.take(parts@.len() as int) =~= pv);
    r
}

} // verus!
