//! Searching icon names by a typed phrase, as an icon picker does while
//! the user types.
use vstd::prelude::*;
use crate::text::{chars_eq, chars_of};

verus! {

/// `p` occurs in `s` at position `i`.
pub open spec fn occurs_at(s: Seq<char>, p: Seq<char>, i: int) -> bool {
    0 <= i && i + p.len() <= s.len() && s.subrange(i, i + p.len()) == p
}

/// `p` occurs somewhere in `s` (`str::contains` with a string pattern).
pub open spec fn has_infix(s: Seq<char>, p: Seq<char>) -> bool {
    exists|i: int| occurs_at(s, p, i)
}

/// The members of `names` in which `p` occurs, in order.
pub open spec fn names_with(names: Seq<Seq<char>>, p: Seq<char>) -> Seq<Seq<char>>
    decreases names.len(),
{
    if names.len() == 0 {
        Seq::empty()
    } else {
        let prev = names_with(names.drop_last(), p);
        if has_infix(names.last(), p) {
            prev.push(names.last())
        } else {
            prev
        }
    }
}

/// Whether `p` occurs in `s`.
pub fn contains_text(s: &str, p: &str) -> (r: bool)
    ensures
        r == has_infix(s@, p@),
{
    let sc = chars_of(s);
    let pc = chars_of(p);
    if pc.len() == 0 {
        assert(occurs_at(s@, p@, 0)) by {
            assert(s@.subrange(0, 0) =~= p@);
        }
        return true;
    }
    if pc.len() > sc.len() {
        assert forall|i: int| !occurs_at(s@, p@, i) by {}
        return false;
    }
    let n = sc.len();
    let last = n - pc.len();
    let mut i: usize = 0;
    while i <= last
        invariant
            sc@ == s@,
            pc@ == p@,
            last == sc@.len() - pc@.len(),
            0 < pc@.len() <= sc@.len(),
            n == sc@.len(),
            i <= last + 1,
            forall|k: int| 0 <= k < i ==> !#[trigger] occurs_at(s@, p@, k),
        decreases last + 1 - i,
    {
        let mut window: Vec<char> = Vec::new();
        let mut j: usize = 0;
        while j < pc.len()
            invariant
                sc@ == s@,
                pc@ == p@,
                i <= last,
                last == sc@.len() - pc@.len(),
                0 < pc@.len() <= sc@.len(),
                n == sc@.len(),
                j <= pc@.len(),
                window@ == sc@.subrange(i as int, i + j),
            decreases pc@.len() - j,
        {
            window.push(sc[i + j]);
            j = j + 1;
            assert(window@ =~= sc@.subrange(i as int, i + j));
        }
        if chars_eq(window.as_slice(), pc.as_slice()) {
            assert(occurs_at(s@, p@, i as int));
            return true;
        }
        i = i + 1;
    }
    assert forall|k: int| !occurs_at(s@, p@, k) by {
        if 0 <= k && k + p@.len() <= s@.len() {
            assert(k < i);
        }
    }
    false
}

/// The icon names to show for the phrase typed so far: none at all (the
/// results are cleared) while the phrase is at most two bytes long
/// (`str::len`), else
/// the names in which the phrase occurs, in order.
pub fn search_icons(names: &[String], phrase: &str) -> (r: Option<Vec<String>>)
    ensures
        phrase.len() <= 2 ==> r is None,
        phrase.len() > 2 ==> r is Some && r->0.deep_view() == names_with(
            names.deep_view(),
            phrase@,
        ),
{
    if phrase.len() <= 2 {
        return None;
    }
    let ghost nv = names.deep_view();
    let mut found: Vec<String> = Vec::new();
    let mut i: usize = 0;
    assert(nv.take(0) =~= Seq::<Seq<char>>::empty());
    assert(found.deep_view() =~= Seq::<Seq<char>>::empty());
    while i < names.len()
        invariant
            nv == names.deep_view(),
            i <= names@.len(),
            found.deep_view() == names_with(nv.take(i as int), phrase@),
        decreases names@.len() - i,
    {
        assert(nv.take(i + 1).drop_last() =~= nv.take(i as int));
        assert(nv.take(i + 1).last() == names@[i as int]@);
        if contains_text(names[i].as_str(), phrase) {
            let ghost before = found.deep_view();
            found.push(names[i].clone());
            assert(found.deep_view() =~= before.push(names@[i as int]@));
        }
        i = i + 1;
    }
    assert(nv.take(names@.len() as int) =~= nv);
    Some(found)
}

} // verus!
