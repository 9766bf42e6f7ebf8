//! A map from strings to values, kept sorted by key.
use vstd::prelude::*;
use crate::text::{
    chars_lt, chars_of, lemma_lex_irreflexive, lemma_lex_total, lemma_lex_transitive, lex_lt, str_eq,
};

verus! {

/// The map that a sequence of key/value pairs describes.
pub open spec fn pairs_to_map<V>(s: Seq<(Seq<char>, V)>) -> Map<Seq<char>, V>
    decreases s.len(),
{
    if s.len() == 0 {
        Map::empty()
    } else {
        pairs_to_map(s.drop_last()).insert(s.last().0, s.last().1)
    }
}

/// Keys in strictly increasing order.
pub open spec fn keys_sorted<V>(s: Seq<(Seq<char>, V)>) -> bool {
    forall|i: int, j: int| 0 <= i < j < s.len() ==> lex_lt(#[trigger] s[i].0, #[trigger] s[j].0)
}

pub proof fn lemma_sorted_keys_distinct<V>(s: Seq<(Seq<char>, V)>, i: int, j: int)
    requires
        keys_sorted(s),
        0 <= i < s.len(),
        0 <= j < s.len(),
        i != j,
    ensures
        s[i].0 != s[j].0,
{
    if i < j {
        assert(lex_lt(s[i].0, s[j].0));
        lemma_lex_irreflexive(s[i].0);
    } else {
        assert(lex_lt(s[j].0, s[i].0));
        lemma_lex_irreflexive(s[j].0);
    }
}

/// In a sequence with sorted keys, the map holds exactly the pairs.
pub proof fn lemma_pairs_to_map<V>(s: Seq<(Seq<char>, V)>)
    requires
        keys_sorted(s),
    ensures
        forall|k: Seq<char>| #[trigger]
            pairs_to_map(s).contains_key(k) <==> exists|i: int| 0 <= i < s.len() && s[i].0 == k,
        forall|i: int| 0 <= i < s.len() ==> #[trigger] pairs_to_map(s)[s[i].0] == s[i].1,
        pairs_to_map(s).dom().finite(),
        pairs_to_map(s).dom().len() == s.len(),
    decreases s.len(),
{
    if s.len() > 0 {
        let t = s.drop_last();
        assert(keys_sorted(t)) by {
            assert forall|i: int, j: int| 0 <= i < j < t.len() implies lex_lt(
                #[trigger] t[i].0,
                #[trigger] t[j].0,
            ) by {
                assert(t[i] == s[i] && t[j] == s[j]);
            }
        }
        lemma_pairs_to_map(t);
        let m = pairs_to_map(t);
        assert(!m.contains_key(s.last().0)) by {
            if m.contains_key(s.last().0) {
                let i = choose|i: int| 0 <= i < t.len() && t[i].0 == s.last().0;
                lemma_sorted_keys_distinct(s, i, s.len() - 1);
            }
        }
        assert forall|k: Seq<char>| #[trigger]
            pairs_to_map(s).contains_key(k) <==> exists|i: int| 0 <= i < s.len() && s[i].0 == k by {
            if pairs_to_map(s).contains_key(k) && k != s.last().0 {
                let i = choose|i: int| 0 <= i < t.len() && t[i].0 == k;
                assert(s[i].0 == k);
            }
            if exists|i: int| 0 <= i < s.len() && s[i].0 == k {
                let i = choose|i: int| 0 <= i < s.len() && s[i].0 == k;
                if i < s.len() - 1 {
                    assert(t[i].0 == k);
                }
            }
        }
        assert forall|i: int| 0 <= i < s.len() implies #[trigger] pairs_to_map(s)[s[i].0]
            == s[i].1 by {
            if i < s.len() - 1 {
                assert(t[i] == s[i]);
                lemma_sorted_keys_distinct(s, i, s.len() - 1);
            }
        }
    }
}

/// A map from strings to values whose entries are kept in increasing key
/// order, so that walking it visits the keys sorted.
#[derive(Debug)]
pub struct StrMap<V> {
    entries: Vec<(String, V)>,
}

impl<V> StrMap<V> {
    /// The entries as (key, value) pairs, in increasing key order.
    pub closed spec fn pairs(self) -> Seq<(Seq<char>, V)> {
        self.entries@.map_values(|e: (String, V)| (e.0@, e.1))
    }

    /// Keys strictly increase along the entries.
    #[verifier::type_invariant]
    pub open spec fn wf(self) -> bool {
        keys_sorted(self.pairs())
    }

    /// The map that this value holds.
    pub open spec fn map(self) -> Map<Seq<char>, V> {
        pairs_to_map(self.pairs())
    }

    /// The empty map.
    pub fn new() -> (r: Self)
        ensures
            r.pairs() == Seq::<(Seq<char>, V)>::empty(),
            r.map() == Map::<Seq<char>, V>::empty(),
    {
        let r = StrMap { entries: Vec::new() };
        assert(r.pairs() =~= Seq::<(Seq<char>, V)>::empty());
        r
    }

    /// Number of entries.
    pub fn len(&self) -> (r: usize)
        ensures
            r == self.pairs().len(),
            r == self.map().dom().len(),
    {
        proof {
            use_type_invariant(self);
            lemma_pairs_to_map(self.pairs());
        }
        self.entries.len()
    }

    /// Whether the map is empty.
    pub fn is_empty(&self) -> (r: bool)
        ensures
            r == (self.pairs().len() == 0),
            r == (self.map().dom().len() == 0),
    {
        proof {
            use_type_invariant(self);
            lemma_pairs_to_map(self.pairs());
        }
        self.entries.len() == 0
    }

    /// The key of the `i`-th entry in key order.
    pub fn key_at(&self, i: usize) -> (r: &String)
        requires
            i < self.pairs().len(),
        ensures
            r@ == self.pairs()[i as int].0,
    {
        &self.entries[i].0
    }

    /// The value of the `i`-th entry in key order.
    pub fn value_at(&self, i: usize) -> (r: &V)
        requires
            i < self.pairs().len(),
        ensures
            *r == self.pairs()[i as int].1,
    {
        &self.entries[i].1
    }

    /// Position of `key` among the entries.
    pub fn position(&self, key: &str) -> (r: Option<usize>)
        ensures
            match r {
                Some(i) => i < self.pairs().len() && self.pairs()[i as int].0 == key@,
                None => !self.map().contains_key(key@),
            },
    {
        proof {
            use_type_invariant(self);
            lemma_pairs_to_map(self.pairs());
        }
        let mut i: usize = 0;
        while i < self.entries.len()
            invariant
                0 <= i <= self.pairs().len(),
                self.pairs().len() == self.entries@.len(),
                forall|k: int| 0 <= k < i ==> self.pairs()[k].0 != key@,
            decreases self.entries@.len() - i,
        {
            if str_eq(self.entries[i].0.as_str(), key) {
                return Some(i);
            }
            i = i + 1;
        }
        None
    }

    /// Whether `key` has an entry.
    pub fn contains_key(&self, key: &str) -> (r: bool)
        ensures
            r == self.map().contains_key(key@),
    {
        proof {
            use_type_invariant(self);
            lemma_pairs_to_map(self.pairs());
        }
        match self.position(key) {
            Some(i) => true,
            None => false,
        }
    }

    /// The value stored under `key`.
    pub fn get(&self, key: &str) -> (r: Option<&V>)
        ensures
            match r {
                Some(v) => self.map().contains_key(key@) && *v == self.map()[key@],
                None => !self.map().contains_key(key@),
            },
    {
        proof {
            use_type_invariant(self);
            lemma_pairs_to_map(self.pairs());
        }
        match self.position(key) {
            Some(i) => Some(&self.entries[i].1),
            None => None,
        }
    }

    /// Stores `value` under `key`, replacing any earlier value.
    pub fn insert(&mut self, key: String, value: V)
        ensures
            final(self).map() == old(self).map().insert(key@, value),
    {
        proof {
            use_type_invariant(&*self);
            lemma_pairs_to_map(self.pairs());
        }
        let ghost old_pairs = self.pairs();
        let kc = chars_of(key.as_str());
        let n = self.entries.len();
        let mut i: usize = 0;
        while i < n && chars_lt(chars_of(self.entries[i].0.as_str()).as_slice(), kc.as_slice())
            invariant
                0 <= i <= n,
                n == self.entries@.len(),
                old_pairs == self.pairs(),
                kc@ == key@,
                forall|k: int| 0 <= k < i ==> lex_lt(#[trigger] old_pairs[k].0, key@),
            decreases n - i,
        {
            i = i + 1;
        }
        let mut entries: Vec<(String, V)> = Vec::new();
        std::mem::swap(&mut entries, &mut self.entries);
        let ghost es = entries@;
        assert(old_pairs == es.map_values(|e: (String, V)| (e.0@, e.1)));
        if i < n && str_eq(entries[i].0.as_str(), key.as_str()) {
            let _ = entries.remove(i);
            entries.insert(i, (key, value));
            let ghost np = entries@.map_values(|e: (String, V)| (e.0@, e.1));
            assert(np =~= old_pairs.update(i as int, (key@, value)));
            proof {
                assert(old_pairs[i as int].0 == key@);
                assert forall|j: int| 0 <= j < np.len() implies #[trigger] np[j].0
                    == old_pairs[j].0 by {}
                assert(keys_sorted(np)) by {
                    assert forall|a: int, b: int| 0 <= a < b < np.len() implies lex_lt(
                        #[trigger] np[a].0,
                        #[trigger] np[b].0,
                    ) by {
                        assert(np[a].0 == old_pairs[a].0 && np[b].0 == old_pairs[b].0);
                    }
                }
                lemma_pairs_to_map(np);
                assert(pairs_to_map(np) =~= pairs_to_map(old_pairs).insert(key@, value)) by {
                    assert forall|k: Seq<char>| #[trigger]
                        pairs_to_map(np).contains_key(k) == pairs_to_map(old_pairs).insert(
                            key@,
                            value,
                        ).contains_key(k) by {
                        if pairs_to_map(old_pairs).contains_key(k) {
                            let j = choose|j: int| 0 <= j < old_pairs.len() && old_pairs[j].0 == k;
                            assert(np[j].0 == k);
                        }
                        if k == key@ {
                            assert(np[i as int].0 == k);
                        }
                        if pairs_to_map(np).contains_key(k) {
                            let j = choose|j: int| 0 <= j < np.len() && np[j].0 == k;
                            assert(old_pairs[j].0 == k);
                        }
                    }
                    assert forall|k: Seq<char>| #[trigger] pairs_to_map(np).contains_key(k)
                        implies pairs_to_map(np)[k] == pairs_to_map(old_pairs).insert(
                        key@,
                        value,
                    )[k] by {
                        let j = choose|j: int| 0 <= j < np.len() && np[j].0 == k;
                        assert(pairs_to_map(np)[np[j].0] == np[j].1);
                        if j != i {
                            assert(old_pairs[j] == np[j]);
                            assert(pairs_to_map(old_pairs)[old_pairs[j].0] == old_pairs[j].1);
                            lemma_sorted_keys_distinct(np, i as int, j);
                        } else {
                            assert(np[j].0 == key@);
                        }
                    }
                }
            }
        } else {
            proof {
                if i < n {
                    lemma_lex_total(old_pairs[i as int].0, key@);
                }
            }
            entries.insert(i, (key, value));
            let ghost np = entries@.map_values(|e: (String, V)| (e.0@, e.1));
            assert(np =~= old_pairs.insert(i as int, (key@, value)));
            proof {
                assert(keys_sorted(np)) by {
                    assert forall|a: int, b: int| 0 <= a < b < np.len() implies lex_lt(
                        #[trigger] np[a].0,
                        #[trigger] np[b].0,
                    ) by {
                        if b < i {
                            assert(np[a] == old_pairs[a] && np[b] == old_pairs[b]);
                        } else if b == i {
                            assert(np[a] == old_pairs[a]);
                        } else if a == i {
                            assert(np[b] == old_pairs[b - 1]);
                            if b - 1 > i {
                                assert(lex_lt(old_pairs[i as int].0, old_pairs[b - 1].0));
                                lemma_lex_transitive(key@, old_pairs[i as int].0, old_pairs[b - 1].0);
                            }
                        } else if a < i {
                            assert(np[a] == old_pairs[a] && np[b] == old_pairs[b - 1]);
                        } else {
                            assert(np[a] == old_pairs[a - 1] && np[b] == old_pairs[b - 1]);
                        }
                    }
                }
                lemma_pairs_to_map(np);
                assert(!pairs_to_map(old_pairs).contains_key(key@)) by {
                    if pairs_to_map(old_pairs).contains_key(key@) {
                        let j = choose|j: int| 0 <= j < old_pairs.len() && old_pairs[j].0 == key@;
                        if j < i {
                            lemma_lex_irreflexive(key@);
                        } else if j > i {
                            assert(lex_lt(old_pairs[i as int].0, old_pairs[j].0));
                            lemma_lex_transitive(key@, old_pairs[i as int].0, key@);
                            lemma_lex_irreflexive(key@);
                        }
                    }
                }
                assert(pairs_to_map(np) =~= pairs_to_map(old_pairs).insert(key@, value)) by {
                    assert forall|k: Seq<char>| #[trigger]
                        pairs_to_map(np).contains_key(k) == pairs_to_map(old_pairs).insert(
                            key@,
                            value,
                        ).contains_key(k) by {
                        if pairs_to_map(old_pairs).contains_key(k) {
                            let j = choose|j: int| 0 <= j < old_pairs.len() && old_pairs[j].0 == k;
                            if j < i {
                                assert(np[j].0 == k);
                            } else {
                                assert(np[j + 1].0 == k);
                            }
                        }
                        if k == key@ {
                            assert(np[i as int].0 == k);
                        }
                        if pairs_to_map(np).contains_key(k) && k != key@ {
                            let j = choose|j: int| 0 <= j < np.len() && np[j].0 == k;
                            if j < i {
                                assert(old_pairs[j].0 == k);
                            } else {
                                assert(old_pairs[j - 1].0 == k);
                            }
                        }
                    }
                    assert forall|k: Seq<char>| #[trigger] pairs_to_map(np).contains_key(k)
                        implies pairs_to_map(np)[k] == pairs_to_map(old_pairs).insert(
                        key@,
                        value,
                    )[k] by {
                        let j = choose|j: int| 0 <= j < np.len() && np[j].0 == k;
                        assert(pairs_to_map(np)[np[j].0] == np[j].1);
                        if j < i {
                            assert(old_pairs[j] == np[j]);
                            assert(pairs_to_map(old_pairs)[old_pairs[j].0] == old_pairs[j].1);
                        } else if j > i {
                            assert(old_pairs[j - 1] == np[j]);
                            assert(pairs_to_map(old_pairs)[old_pairs[j - 1].0] == old_pairs[j
                                - 1].1);
                        }
                    }
                }
            }
        }
        self.entries = entries;
    }
}

impl<V> StrMap<V> {
    /// Removes the `i`-th entry in key order and hands it back.
    pub fn remove_at(&mut self, i: usize) -> (r: (String, V))
        requires
            i < old(self).pairs().len(),
        ensures
            final(self).pairs() == old(self).pairs().remove(i as int),
            (r.0@, r.1) == old(self).pairs()[i as int],
            final(self).map() == old(self).map().remove(r.0@),
    {
        proof {
            use_type_invariant(&*self);
            lemma_pairs_to_map(self.pairs());
        }
        let ghost old_pairs = self.pairs();
        let mut entries: Vec<(String, V)> = Vec::new();
        std::mem::swap(&mut entries, &mut self.entries);
        let ghost es = entries@;
        assert(old_pairs == es.map_values(|e: (String, V)| (e.0@, e.1)));
        let r = entries.remove(i);
        let ghost np = entries@.map_values(|e: (String, V)| (e.0@, e.1));
        assert(np =~= old_pairs.remove(i as int));
        proof {
            assert(keys_sorted(np)) by {
                assert forall|a: int, b: int| 0 <= a < b < np.len() implies lex_lt(
                    #[trigger] np[a].0,
                    #[trigger] np[b].0,
                ) by {
                    if b < i {
                        assert(np[a] == old_pairs[a] && np[b] == old_pairs[b]);
                    } else if a < i {
                        assert(np[a] == old_pairs[a] && np[b] == old_pairs[b + 1]);
                    } else {
                        assert(np[a] == old_pairs[a + 1] && np[b] == old_pairs[b + 1]);
                    }
                }
            }
            lemma_pairs_to_map(np);
            let k0 = old_pairs[i as int].0;
            assert(pairs_to_map(np) =~= pairs_to_map(old_pairs).remove(k0)) by {
                assert forall|k: Seq<char>| #[trigger] pairs_to_map(np).contains_key(k)
                    == pairs_to_map(old_pairs).remove(k0).contains_key(k) by {
                    if pairs_to_map(np).contains_key(k) {
                        let j = choose|j: int| 0 <= j < np.len() && np[j].0 == k;
                        if j < i {
                            assert(old_pairs[j].0 == k);
                            lemma_sorted_keys_distinct(old_pairs, j, i as int);
                        } else {
                            assert(old_pairs[j + 1].0 == k);
                            lemma_sorted_keys_distinct(old_pairs, j + 1, i as int);
                        }
                    }
                    if pairs_to_map(old_pairs).remove(k0).contains_key(k) {
                        let j = choose|j: int| 0 <= j < old_pairs.len() && old_pairs[j].0 == k;
                        if j < i {
                            assert(np[j].0 == k);
                        } else {
                            assert(np[j - 1].0 == k);
                        }
                    }
                }
                assert forall|k: Seq<char>| #[trigger] pairs_to_map(np).contains_key(k)
                    implies pairs_to_map(np)[k] == pairs_to_map(old_pairs)[k] by {
                    let j = choose|j: int| 0 <= j < np.len() && np[j].0 == k;
                    assert(pairs_to_map(np)[np[j].0] == np[j].1);
                    if j < i {
                        assert(np[j] == old_pairs[j]);
                        assert(pairs_to_map(old_pairs)[old_pairs[j].0] == old_pairs[j].1);
                    } else {
                        assert(np[j] == old_pairs[j + 1]);
                        assert(pairs_to_map(old_pairs)[old_pairs[j + 1].0] == old_pairs[j + 1].1);
                    }
                }
            }
        }
        self.entries = entries;
        r
    }

    /// Removes the entry of `key` and hands back its value.
    pub fn remove(&mut self, key: &str) -> (r: Option<V>)
        ensures
            final(self).map() == old(self).map().remove(key@),
            match r {
                Some(v) => old(self).map().contains_key(key@) && v == old(self).map()[key@],
                None => !old(self).map().contains_key(key@),
            },
    {
        proof {
            use_type_invariant(&*self);
            lemma_pairs_to_map(self.pairs());
        }
        match self.position(key) {
            Some(i) => {
                let (_k, v) = self.remove_at(i);
                Some(v)
            },
            None => {
                assert(old(self).map().remove(key@) =~= old(self).map());
                None
            },
        }
    }

    /// Removes every entry.
    pub fn clear(&mut self)
        ensures
            final(self).pairs() == Seq::<(Seq<char>, V)>::empty(),
            final(self).map() == Map::<Seq<char>, V>::empty(),
    {
        let mut entries: Vec<(String, V)> = Vec::new();
        std::mem::swap(&mut entries, &mut self.entries);
        assert(self.pairs() =~= Seq::<(Seq<char>, V)>::empty());
    }
}

impl<V: Clone> Clone for StrMap<V> {
    /// A copy with the same keys, in the same order, and each value cloned.
    fn clone(&self) -> (r: Self)
        ensures
            r.pairs().len() == self.pairs().len(),
            forall|i: int|
                0 <= i < self.pairs().len() ==> #[trigger] r.pairs()[i].0 == self.pairs()[i].0
                    && cloned::<V>(self.pairs()[i].1, r.pairs()[i].1),
    {
        proof {
            use_type_invariant(self);
        }
        let mut entries: Vec<(String, V)> = Vec::new();
        let mut i: usize = 0;
        while i < self.entries.len()
            invariant
                0 <= i <= self.entries@.len(),
                entries@.len() == i,
                keys_sorted(self.pairs()),
                forall|k: int|
                    0 <= k < i ==> #[trigger] entries@[k].0@ == self.entries@[k].0@ && cloned::<V>(
                        self.entries@[k].1,
                        entries@[k].1,
                    ),
            decreases self.entries@.len() - i,
        {
            let key = self.entries[i].0.clone();
            let value = self.entries[i].1.clone();
            entries.push((key, value));
            i = i + 1;
        }
        let ghost np = entries@.map_values(|e: (String, V)| (e.0@, e.1));
        assert(keys_sorted(np)) by {
            assert forall|a: int, b: int| 0 <= a < b < np.len() implies lex_lt(
                #[trigger] np[a].0,
                #[trigger] np[b].0,
            ) by {
                assert(np[a].0 == self.pairs()[a].0);
                assert(np[b].0 == self.pairs()[b].0);
            }
        }
        let r = StrMap { entries };
        r
    }
}

} // verus!
