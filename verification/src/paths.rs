//! File names of Unix paths.
use vstd::prelude::*;
use crate::text::{
    chars_of, join_with, push_separated, slice_subrange, split_char, split_on, string_of,
};

verus! {

/// The text after the last `/` of `p` (all of `p` when it has none).
pub open spec fn last_segment(p: Seq<char>) -> Seq<char>
    decreases p.len(),
{
    if p.len() == 0 {
        p
    } else if p.last() == '/' {
        Seq::empty()
    } else {
        last_segment(p.drop_last()).push(p.last())
    }
}

/// The final component of a path when it is a name, as `Path::file_name`
/// gives it on Unix: trailing `/` and `.` components are passed over, and
/// there is none when the path is empty, a root, or ends in `..`.
pub open spec fn file_name_spec(p: Seq<char>) -> Option<Seq<char>>
    decreases p.len(),
{
    if p.len() == 0 {
        None
    } else if p.last() == '/' {
        file_name_spec(p.drop_last())
    } else if last_segment(p) == seq!['.'] {
        file_name_spec(p.drop_last())
    } else if last_segment(p) == seq!['.', '.'] {
        None
    } else {
        Some(last_segment(p))
    }
}

/// Where the last segment of `cs[..j]` starts.
fn segment_start(cs: &Vec<char>, j: usize) -> (k: usize)
    requires
        j <= cs@.len(),
    ensures
        k <= j,
        last_segment(cs@.take(j as int)) == cs@.subrange(k as int, j as int),
        k > 0 ==> cs@[k - 1] == '/',
        forall|i: int| k <= i < j ==> cs@[i] != '/',
{
    let mut k = j;
    assert(cs@.subrange(j as int, j as int) =~= Seq::<char>::empty());
    assert(cs@.take(j as int).skip(j as int) =~= Seq::<char>::empty());
    while k > 0 && cs[k - 1] != '/'
        invariant
            k <= j <= cs@.len(),
            last_segment(cs@.take(j as int)) == last_segment(cs@.take(k as int)) + cs@.subrange(
                k as int,
                j as int,
            ),
            forall|i: int| k <= i < j ==> cs@[i] != '/',
        decreases k,
    {
        proof {
            let t = cs@.take(k as int);
            assert(t.drop_last() =~= cs@.take(k - 1));
            assert(cs@.subrange(k - 1, j as int) =~= seq![t.last()] + cs@.subrange(
                k as int,
                j as int,
            ));
            assert(last_segment(t) == last_segment(cs@.take(k - 1)).push(t.last()));
            assert(last_segment(cs@.take(k - 1)).push(t.last()) + cs@.subrange(k as int, j as int)
                =~= last_segment(cs@.take(k - 1)) + cs@.subrange(k - 1, j as int));
        }
        k = k - 1;
    }
    proof {
        assert(last_segment(cs@.take(k as int)) =~= Seq::<char>::empty()) by {
            if k > 0 {
                assert(cs@.take(k as int).last() == '/');
            }
        }
        assert(Seq::<char>::empty() + cs@.subrange(k as int, j as int) =~= cs@.subrange(
            k as int,
            j as int,
        ));
    }
    k
}

/// `Path::file_name` of `path`, as text.
pub fn file_name_of(path: &str) -> (r: Option<String>)
    ensures
        match file_name_spec(path@) {
            Some(n) => r is Some && r->0@ == n,
            None => r is None,
        },
{
    let cs = chars_of(path);
    let mut j = cs.len();
    assert(cs@.take(cs@.len() as int) =~= cs@);
    loop
        invariant
            j <= cs@.len(),
            file_name_spec(cs@.take(j as int)) == file_name_spec(path@),
            cs@ == path@,
        decreases j,
    {
        if j == 0 {
            return None;
        }
        let ghost t = cs@.take(j as int);
        if cs[j - 1] == '/' {
            assert(t.drop_last() =~= cs@.take(j - 1));
            j = j - 1;
        } else {
            let k = segment_start(&cs, j);
            let seg = slice_subrange(cs.as_slice(), k, j);
            if seg.len() == 1 && seg[0] == '.' {
                assert(seg@ =~= seq!['.']);
                assert(t.drop_last() =~= cs@.take(j - 1));
                j = j - 1;
            } else if seg.len() == 2 && seg[0] == '.' && seg[1] == '.' {
                assert(seg@ =~= seq!['.', '.']);
                return None;
            } else {
                assert(seg@ != seq!['.']);
                assert(seg@ != seq!['.', '.']);
                return Some(string_of(seg.as_slice()));
            }
        }
    }
}

/// Where the last `.` of `n` is.
pub open spec fn last_dot(n: Seq<char>) -> Option<int>
    decreases n.len(),
{
    if n.len() == 0 {
        None
    } else if n.last() == '.' {
        Some(n.len() - 1)
    } else {
        last_dot(n.drop_last())
    }
}

/// The extension of a path, as `Path::extension` gives it: what follows
/// the last `.` of its file name, unless there is no file name, no `.` in
/// it, or its only `.` begins it.
pub open spec fn extension_spec(p: Seq<char>) -> Option<Seq<char>> {
    match file_name_spec(p) {
        None => None,
        Some(n) => match last_dot(n) {
            None => None,
            Some(i) => if i == 0 {
                None
            } else {
                Some(n.subrange(i + 1, n.len() as int))
            },
        },
    }
}

/// `Path::extension` of `path`, as text.
pub fn extension_of(path: &str) -> (r: Option<String>)
    ensures
        match extension_spec(path@) {
            Some(e) => r is Some && r->0@ == e,
            None => r is None,
        },
{
    let name = match file_name_of(path) {
        Some(n) => n,
        None => {
            return None;
        },
    };
    let cs = chars_of(name.as_str());
    let mut j = cs.len();
    assert(cs@.take(cs@.len() as int) =~= cs@);
    while j > 0 && cs[j - 1] != '.'
        invariant
            j <= cs@.len(),
            cs@ == name@,
            last_dot(cs@) == last_dot(cs@.take(j as int)),
        decreases j,
    {
        assert(cs@.take(j as int).drop_last() =~= cs@.take(j - 1));
        j = j - 1;
    }
    if j == 0 {
        assert(cs@.take(0) =~= Seq::<char>::empty());
        return None;
    }
    assert(last_dot(cs@.take(j as int)) == Some(j - 1));
    if j == 1 {
        return None;
    }
    Some(string_of(slice_subrange(cs.as_slice(), j, cs.len()).as_slice()))
}

/// A hidden name: one that begins with `.`.
pub fn is_hidden(name: &str) -> (r: bool)
    ensures
        r == (name@.len() > 0 && name@[0] == '.'),
{
    let cs = chars_of(name);
    cs.len() > 0 && cs[0] == '.'
}

/// The named components among the pieces of a path between `/`s: empty
/// pieces (repeated or trailing separators) and `.` pieces are dropped.
pub open spec fn normal_parts(pieces: Seq<Seq<char>>) -> Seq<Seq<char>>
    decreases pieces.len(),
{
    if pieces.len() == 0 {
        Seq::empty()
    } else {
        let prev = normal_parts(pieces.drop_last());
        let l = pieces.last();
        if l.len() == 0 || l == seq!['.'] {
            prev
        } else {
            prev.push(l)
        }
    }
}

/// A path that starts at the root.
pub open spec fn has_root(p: Seq<char>) -> bool {
    p.len() > 0 && p[0] == '/'
}

/// A relative path that starts with a `.` component (`.` or `./...`),
/// which `Path::components` keeps.
pub open spec fn leading_cur_dir(p: Seq<char>) -> bool {
    !has_root(p) && p.len() > 0 && p[0] == '.' && (p.len() == 1 || p[1] == '/')
}

/// The components of a Unix path as text, the way `Path` compares paths:
/// `/` for a root, then the components joined by `/`, a leading `.` kept,
/// other `.` components and repeated or trailing separators dropped. Two
/// paths are equal as `Path`s when their keys are equal.
pub open spec fn path_key(p: Seq<char>) -> Seq<char> {
    let comps = (if leading_cur_dir(p) {
        seq![seq!['.']]
    } else {
        Seq::<Seq<char>>::empty()
    }) + normal_parts(split_char(p, '/'));
    (if has_root(p) {
        seq!['/']
    } else {
        Seq::<char>::empty()
    }) + join_with(comps, seq!['/'])
}

/// The key under which `path` compares with other paths (see `path_key`).
pub fn path_key_of(path: &str) -> (r: String)
    ensures
        r@ == path_key(path@),
{
    let cs = chars_of(path);
    let pieces = split_on(cs.as_slice(), '/');
    let ghost pv = pieces.deep_view();
    let root = cs.len() > 0 && cs[0] == '/';
    let cur = !root && cs.len() > 0 && cs[0] == '.' && (cs.len() == 1 || cs[1] == '/');
    let mut comps: Vec<String> = Vec::new();
    let dot: Vec<char> = vec!['.'];
    let slash: Vec<char> = vec!['/'];
    assert(dot@ =~= seq!['.']);
    assert(slash@ =~= seq!['/']);
    if cur {
        comps.push(string_of(dot.as_slice()));
        assert(comps.deep_view() =~= seq![seq!['.']]);
    }
    let ghost head = comps.deep_view();
    assert(head =~= (if cur {
        seq![seq!['.']]
    } else {
        Seq::<Seq<char>>::empty()
    }));
    let mut i: usize = 0;
    assert(pv.take(0) =~= Seq::<Seq<char>>::empty());
    assert(comps.deep_view() =~= head + normal_parts(pv.take(0)));
    while i < pieces.len()
        invariant
            pv == pieces.deep_view(),
            i <= pieces@.len(),
            comps.deep_view() == head + normal_parts(pv.take(i as int)),
        decreases pieces@.len() - i,
    {
        assert(pv.take(i + 1).drop_last() =~= pv.take(i as int));
        assert(pv.take(i + 1).last() == pieces@[i as int]@);
        let piece = &pieces[i];
        let skip = piece.len() == 0 || (piece.len() == 1 && piece[0] == '.');
        if !skip {
            let ghost before = comps.deep_view();
            comps.push(string_of(piece.as_slice()));
            assert(comps.deep_view() =~= before.push(pieces@[i as int]@));
        } else {
            if piece.len() == 1 {
                assert(pieces@[i as int]@ =~= seq!['.']);
            }
        }
        i = i + 1;
    }
    assert(pv.take(pieces@.len() as int) =~= pv);
    let mut out = if root {
        string_of(slash.as_slice())
    } else {
        String::new()
    };
    let ghost start = out@;
    assert(start =~= (if root {
        seq!['/']
    } else {
        Seq::<char>::empty()
    }));
    let sep = string_of(slash.as_slice());
    push_separated(&mut out, &comps, sep.as_str());
    assert(sep@ =~= seq!['/']);
    out
}

} // verus!
