//! Character-level text utilities shared by the parsers of this crate.
use vstd::prelude::*;
use vstd::std_specs::iter::IteratorSpec;

verus! {

broadcast use vstd::string::group_string_axioms;

/// `String::push` appends one character.
pub assume_specification[ String::push ](s: &mut String, ch: char)
    ensures
        final(s)@ == old(s)@.push(ch),
;

/// `String::push_str` appends a string slice.
pub assume_specification[ String::push_str ](s: &mut String, t: &str)
    ensures
        final(s)@ == old(s)@ + t@,
;

/// The characters of a string slice, in order.
pub fn chars_of(s: &str) -> (r: Vec<char>)
    ensures
        r@ == s@,
{
    let mut r: Vec<char> = Vec::new();
    for c in iter: s.chars()
        invariant
            r@ == iter.seq().take(iter.index() as int),
    {
        r.push(c);
    }
    assert(r@ == s@);
    r
}

/// Builds a string from a slice of characters.
pub fn string_of(cs: &[char]) -> (r: String)
    ensures
        r@ == cs@,
{
    let mut r = String::new();
    let mut i: usize = 0;
    while i < cs.len()
        invariant
            0 <= i <= cs@.len(),
            r@ == cs@.take(i as int),
        decreases cs@.len() - i,
    {
        r.push(cs[i]);
        i = i + 1;
        assert(cs@.take(i as int) == cs@.take(i - 1).push(cs@[i - 1]));
    }
    assert(cs@.take(cs@.len() as int) == cs@);
    r
}


// ---------------------------------------------------------------------
// Whitespace and trimming
// ---------------------------------------------------------------------

/// Unicode `White_Space`, the set that `char::is_whitespace` tests.
pub open spec fn is_ws(c: char) -> bool {
    ||| ('\u{9}' <= c && c <= '\u{d}')
    ||| c == ' '
    ||| c == '\u{85}'
    ||| c == '\u{a0}'
    ||| c == '\u{1680}'
    ||| ('\u{2000}' <= c && c <= '\u{200a}')
    ||| c == '\u{2028}'
    ||| c == '\u{2029}'
    ||| c == '\u{202f}'
    ||| c == '\u{205f}'
    ||| c == '\u{3000}'
}

pub fn is_whitespace(c: char) -> (r: bool)
    ensures
        r == is_ws(c),
{
    ('\u{9}' <= c && c <= '\u{d}') || c == ' ' || c == '\u{85}' || c == '\u{a0}' || c == '\u{1680}'
        || ('\u{2000}' <= c && c <= '\u{200a}') || c == '\u{2028}' || c == '\u{2029}' || c
        == '\u{202f}' || c == '\u{205f}' || c == '\u{3000}'
}

/// `s` without its leading whitespace.
pub open spec fn trim_start(s: Seq<char>) -> Seq<char>
    decreases s.len(),
{
    if s.len() > 0 && is_ws(s[0]) {
        trim_start(s.drop_first())
    } else {
        s
    }
}

/// `s` without its trailing whitespace.
pub open spec fn trim_end(s: Seq<char>) -> Seq<char>
    decreases s.len(),
{
    if s.len() > 0 && is_ws(s.last()) {
        trim_end(s.drop_last())
    } else {
        s
    }
}

/// `s` without leading and trailing whitespace (`str::trim`).
pub open spec fn trim(s: Seq<char>) -> Seq<char> {
    trim_end(trim_start(s))
}

proof fn lemma_trim_start_skip(s: Seq<char>, i: int)
    requires
        0 <= i <= s.len(),
        forall|k: int| 0 <= k < i ==> is_ws(#[trigger] s[k]),
    ensures
        trim_start(s) == trim_start(s.subrange(i, s.len() as int)),
    decreases i,
{
    if i > 0 {
        assert(s.drop_first() == s.subrange(1, s.len() as int));
        let t = s.drop_first();
        assert forall|k: int| 0 <= k < i - 1 implies is_ws(#[trigger] t[k]) by {
            assert(t[k] == s[k + 1]);
        }
        lemma_trim_start_skip(t, i - 1);
        assert(t.subrange(i - 1, t.len() as int) == s.subrange(i, s.len() as int));
    } else {
        assert(s.subrange(0, s.len() as int) == s);
    }
}

proof fn lemma_trim_end_skip(s: Seq<char>, j: int)
    requires
        0 <= j <= s.len(),
        forall|k: int| j <= k < s.len() ==> is_ws(#[trigger] s[k]),
    ensures
        trim_end(s) == trim_end(s.take(j)),
    decreases s.len() - j,
{
    if j < s.len() {
        let t = s.drop_last();
        assert forall|k: int| j <= k < t.len() implies is_ws(#[trigger] t[k]) by {
            assert(t[k] == s[k]);
        }
        lemma_trim_end_skip(t, j);
        assert(t.take(j) == s.take(j));
    } else {
        assert(s.take(j) == s);
    }
}

/// Start and end (exclusive) of `trim(s)` inside `s`.
pub fn trim_bounds(s: &[char]) -> (r: (usize, usize))
    ensures
        r.0 <= r.1 <= s@.len(),
        trim(s@) == s@.subrange(r.0 as int, r.1 as int),
{
    let n = s.len();
    let mut i: usize = 0;
    while i < n && is_whitespace(s[i])
        invariant
            0 <= i <= n,
            n == s@.len(),
            forall|k: int| 0 <= k < i ==> is_ws(#[trigger] s@[k]),
        decreases n - i,
    {
        i = i + 1;
    }
    proof {
        lemma_trim_start_skip(s@, i as int);
    }
    let ghost u = s@.subrange(i as int, n as int);
    assert(trim_start(u) == u);
    let mut j: usize = n;
    while j > i && is_whitespace(s[j - 1])
        invariant
            i <= j <= n,
            n == s@.len(),
            u == s@.subrange(i as int, n as int),
            forall|k: int| j <= k < n ==> is_ws(#[trigger] s@[k]),
        decreases j,
    {
        j = j - 1;
    }
    proof {
        assert forall|k: int| (j - i) <= k < u.len() implies is_ws(#[trigger] u[k]) by {
            assert(u[k] == s@[k + i]);
        }
        lemma_trim_end_skip(u, (j - i) as int);
        let w = u.take((j - i) as int);
        assert(w == s@.subrange(i as int, j as int));
        if w.len() > 0 {
            assert(w.last() == s@[j - 1]);
        }
        assert(trim_end(w) == w);
    }
    (i, j)
}

/// `trim(s)` as a vector.
pub fn trim_chars(s: &[char]) -> (r: Vec<char>)
    ensures
        r@ == trim(s@),
{
    let (i, j) = trim_bounds(s);
    slice_subrange(s, i, j)
}

/// A copy of `s[from..to]`.
pub fn slice_subrange(s: &[char], from: usize, to: usize) -> (r: Vec<char>)
    requires
        from <= to <= s@.len(),
    ensures
        r@ == s@.subrange(from as int, to as int),
{
    let mut r: Vec<char> = Vec::new();
    let mut k = from;
    while k < to
        invariant
            from <= k <= to,
            to <= s@.len(),
            r@ == s@.subrange(from as int, k as int),
        decreases to - k,
    {
        r.push(s[k]);
        k = k + 1;
        assert(r@ == s@.subrange(from as int, k as int));
    }
    r
}

// ---------------------------------------------------------------------
// Splitting
// ---------------------------------------------------------------------

/// The pieces of `s` between occurrences of `c` (`str::split` with a char):
/// an empty `s` gives one empty piece, and a trailing `c` gives a trailing
/// empty piece.
pub open spec fn split_char(s: Seq<char>, c: char) -> Seq<Seq<char>>
    decreases s.len(),
{
    if s.len() == 0 {
        seq![Seq::<char>::empty()]
    } else {
        let prev = split_char(s.drop_last(), c);
        if s.last() == c {
            prev.push(Seq::<char>::empty())
        } else {
            prev.update(prev.len() - 1, prev.last().push(s.last()))
        }
    }
}

pub proof fn lemma_split_char_nonempty(s: Seq<char>, c: char)
    ensures
        split_char(s, c).len() >= 1,
    decreases s.len(),
{
    if s.len() > 0 {
        lemma_split_char_nonempty(s.drop_last(), c);
    }
}

/// `str::split` on a character.
pub fn split_on(s: &[char], c: char) -> (r: Vec<Vec<char>>)
    ensures
        r.deep_view() == split_char(s@, c),
        r@.len() >= 1,
{
    let mut r: Vec<Vec<char>> = Vec::new();
    let mut cur: Vec<char> = Vec::new();
    let mut i: usize = 0;
    while i < s.len()
        invariant
            0 <= i <= s@.len(),
            r.deep_view() + seq![cur@] == split_char(s@.take(i as int), c),
        decreases s@.len() - i,
    {
        let ghost before = s@.take(i as int);
        let ghost prev = split_char(before, c);
        assert(s@.take(i + 1).drop_last() == before);
        if s[i] == c {
            let done = cur;
            r.push(done);
            cur = Vec::new();
            assert(r.deep_view() + seq![cur@] =~~= prev.push(Seq::<char>::empty()));
        } else {
            let ghost old_cur = cur@;
            cur.push(s[i]);
            proof {
                lemma_split_char_nonempty(before, c);
                assert(prev.last() == old_cur);
            }
            assert(r.deep_view() + seq![cur@] =~~= prev.update(prev.len() - 1, prev.last().push(s@[i as int])));
        }
        i = i + 1;
    }
    assert(s@.take(s@.len() as int) == s@);
    r.push(cur);
    assert(r.deep_view() =~~= split_char(s@, c));
    r
}

/// `l` without one trailing carriage return.
pub open spec fn strip_cr(l: Seq<char>) -> Seq<char> {
    if l.len() > 0 && l.last() == '\r' {
        l.drop_last()
    } else {
        l
    }
}

/// The lines of `s` (`str::lines`): pieces between newlines, a line ended by
/// a newline loses one trailing carriage return, and a final newline does not
/// start an empty last line.
pub open spec fn lines(s: Seq<char>) -> Seq<Seq<char>> {
    if s.len() == 0 {
        Seq::<Seq<char>>::empty()
    } else {
        let parts = split_char(s, '\n');
        let ended = parts.drop_last().map_values(|l: Seq<char>| strip_cr(l));
        if parts.last().len() == 0 {
            ended
        } else {
            ended.push(parts.last())
        }
    }
}

/// `str::lines`.
pub fn lines_of(s: &[char]) -> (r: Vec<Vec<char>>)
    ensures
        r.deep_view() == lines(s@),
{
    if s.len() == 0 {
        let r: Vec<Vec<char>> = Vec::new();
        assert(r.deep_view() =~~= lines(s@));
        return r;
    }
    let parts = split_on(s, '\n');
    let ghost pv = parts.deep_view();
    let n = parts.len();
    let mut r: Vec<Vec<char>> = Vec::new();
    let mut k: usize = 0;
    while k + 1 < n
        invariant
            0 <= k <= n - 1,
            n == parts@.len(),
            n >= 1,
            pv == parts.deep_view(),
            r.deep_view() == pv.take(k as int).map_values(|l: Seq<char>| strip_cr(l)),
        decreases n - k,
    {
        let p = &parts[k];
        let m = p.len();
        let line = if m > 0 && p[m - 1] == '\r' {
            slice_subrange(p.as_slice(), 0, m - 1)
        } else {
            slice_subrange(p.as_slice(), 0, m)
        };
        proof {
            assert(pv[k as int] == p@);
            assert(p@.subrange(0, m as int) == p@);
            if m > 0 && p@[m - 1] == '\r' {
                assert(p@.subrange(0, m - 1) == p@.drop_last());
            }
            assert(line@ == strip_cr(pv[k as int]));
        }
        let ghost old_r = r.deep_view();
        r.push(line);
        assert(r.deep_view() =~~= old_r.push(line@));
        k = k + 1;
        assert(r.deep_view() =~~= pv.take(k as int).map_values(|l: Seq<char>| strip_cr(l)));
    }
    assert(pv.take(k as int) == pv.drop_last());
    let last = &parts[n - 1];
    assert(pv.last() == last@);
    if last.len() > 0 {
        let v = slice_subrange(last.as_slice(), 0, last.len());
        assert(last@.subrange(0, last@.len() as int) == last@);
        r.push(v);
        assert(r.deep_view() =~~= lines(s@));
    } else {
        assert(r.deep_view() =~~= lines(s@));
    }
    r
}


// ---------------------------------------------------------------------
// Searching and comparing
// ---------------------------------------------------------------------

/// Index of the first occurrence of `c` in `s`.
pub open spec fn index_of(s: Seq<char>, c: char) -> Option<nat>
    decreases s.len(),
{
    if s.len() == 0 {
        None
    } else if s[0] == c {
        Some(0)
    } else {
        match index_of(s.drop_first(), c) {
            Some(i) => Some(i + 1),
            None => None,
        }
    }
}

pub proof fn lemma_index_of(s: Seq<char>, c: char)
    ensures
        match index_of(s, c) {
            Some(i) => i < s.len() && s[i as int] == c && forall|k: int|
                0 <= k < i ==> s[k] != c,
            None => !s.contains(c),
        },
    decreases s.len(),
{
    if s.len() > 0 && s[0] != c {
        let t = s.drop_first();
        lemma_index_of(t, c);
        match index_of(t, c) {
            Some(i) => {
                assert forall|k: int| 0 <= k < i + 1 implies s[k] != c by {
                    if k > 0 {
                        assert(s[k] == t[k - 1]);
                    }
                }
            },
            None => {
                assert forall|k: int| 0 <= k < s.len() implies s[k] != c by {
                    if k > 0 {
                        assert(s[k] == t[k - 1]);
                    }
                }
            },
        }
    }
}

/// `s.split_once(c)`: the text before and after the first `c`.
pub open spec fn split_once(s: Seq<char>, c: char) -> Option<(Seq<char>, Seq<char>)> {
    match index_of(s, c) {
        Some(i) => Some((s.take(i as int), s.skip(i as int + 1))),
        None => None,
    }
}

/// Position of the first `c` in `s`.
pub fn find_char(s: &[char], c: char) -> (r: Option<usize>)
    ensures
        match r {
            Some(i) => index_of(s@, c) == Some(i as nat),
            None => index_of(s@, c) is None,
        },
{
    proof {
        lemma_index_of(s@, c);
    }
    let mut i: usize = 0;
    while i < s.len()
        invariant
            0 <= i <= s@.len(),
            forall|k: int| 0 <= k < i ==> s@[k] != c,
            match index_of(s@, c) {
                Some(j) => j < s@.len() && s@[j as int] == c && forall|k: int|
                    0 <= k < j ==> s@[k] != c,
                None => !s@.contains(c),
            },
        decreases s@.len() - i,
    {
        if s[i] == c {
            return Some(i);
        }
        i = i + 1;
    }
    proof {
        if let Some(j) = index_of(s@, c) {
            assert(s@[j as int] == c);
        }
    }
    None
}

/// Position (counted from the start of `s`) of the first `c` at or after
/// `from`.
pub fn find_char_from(s: &[char], from: usize, c: char) -> (r: Option<usize>)
    requires
        from <= s@.len(),
    ensures
        match r {
            Some(i) => from <= i < s@.len() && index_of(s@.skip(from as int), c) == Some(
                (i - from) as nat,
            ),
            None => index_of(s@.skip(from as int), c) is None,
        },
{
    let ghost t = s@.skip(from as int);
    proof {
        lemma_index_of(t, c);
    }
    let mut i: usize = from;
    while i < s.len()
        invariant
            from <= i <= s@.len(),
            t == s@.skip(from as int),
            forall|k: int| from <= k < i ==> s@[k] != c,
            match index_of(t, c) {
                Some(j) => j < t.len() && t[j as int] == c && forall|k: int|
                    0 <= k < j ==> t[k] != c,
                None => !t.contains(c),
            },
        decreases s@.len() - i,
    {
        if s[i] == c {
            proof {
                assert(t[i - from] == c);
                if let Some(j) = index_of(t, c) {
                    if j < i - from {
                        assert(t[j as int] == s@[from + j]);
                    } else if j > i - from {
                        assert(t[i - from] != c);
                    }
                }
            }
            return Some(i);
        }
        i = i + 1;
    }
    proof {
        if let Some(j) = index_of(t, c) {
            assert(t[j as int] == s@[from + j]);
        }
    }
    None
}

/// Whether `c` occurs in `s`.
pub fn contains_char(s: &[char], c: char) -> (r: bool)
    ensures
        r == s@.contains(c),
{
    proof {
        lemma_index_of(s@, c);
    }
    match find_char(s, c) {
        Some(i) => {
            assert(s@[i as int] == c);
            true
        },
        None => false,
    }
}

/// Whether `s` begins with `p`.
pub open spec fn has_prefix(s: Seq<char>, p: Seq<char>) -> bool {
    p.len() <= s.len() && s.take(p.len() as int) == p
}

/// Whether `s` ends with `p`.
pub open spec fn has_suffix(s: Seq<char>, p: Seq<char>) -> bool {
    p.len() <= s.len() && s.skip(s.len() - p.len()) == p
}

/// Equality of two character sequences.
pub fn chars_eq(a: &[char], b: &[char]) -> (r: bool)
    ensures
        r == (a@ == b@),
{
    if a.len() != b.len() {
        return false;
    }
    let mut i: usize = 0;
    while i < a.len()
        invariant
            0 <= i <= a@.len(),
            a@.len() == b@.len(),
            forall|k: int| 0 <= k < i ==> a@[k] == b@[k],
        decreases a@.len() - i,
    {
        if a[i] != b[i] {
            return false;
        }
        i = i + 1;
    }
    assert(a@ =~= b@);
    true
}

/// Whether `s` begins with `p`.
pub fn starts_with_chars(s: &[char], p: &[char]) -> (r: bool)
    ensures
        r == has_prefix(s@, p@),
{
    if p.len() > s.len() {
        return false;
    }
    let head = slice_subrange(s, 0, p.len());
    assert(head@ == s@.take(p@.len() as int));
    chars_eq(head.as_slice(), p)
}

/// Whether `s` ends with `p`.
pub fn ends_with_chars(s: &[char], p: &[char]) -> (r: bool)
    ensures
        r == has_suffix(s@, p@),
{
    if p.len() > s.len() {
        return false;
    }
    let tail = slice_subrange(s, s.len() - p.len(), s.len());
    assert(tail@ == s@.skip(s@.len() - p@.len()));
    chars_eq(tail.as_slice(), p)
}

/// Equality of two string slices.
pub fn str_eq(a: &str, b: &str) -> (r: bool)
    ensures
        r == (a@ == b@),
{
    let x = chars_of(a);
    let y = chars_of(b);
    chars_eq(x.as_slice(), y.as_slice())
}

/// `char::to_ascii_lowercase`.
pub open spec fn ascii_lower(c: char) -> char {
    if 'A' <= c && c <= 'Z' {
        ((c as u32) + 32) as char
    } else {
        c
    }
}

/// `str::to_ascii_lowercase`.
pub open spec fn lower_ascii(s: Seq<char>) -> Seq<char> {
    s.map_values(|c: char| ascii_lower(c))
}

pub fn char_to_ascii_lower(c: char) -> (r: char)
    ensures
        r == ascii_lower(c),
{
    if 'A' <= c && c <= 'Z' {
        let u: u32 = c as u32;
        assert(65 <= u <= 90);
        let b: u8 = u as u8;
        assert(b == u) by (bit_vector)
            requires
                65 <= u <= 90,
                b == u as u8,
        ;
        ((b + 32) as char)
    } else {
        c
    }
}

/// The characters of `s` with ASCII capitals made small.
pub fn lower_ascii_chars(s: &[char]) -> (r: Vec<char>)
    ensures
        r@ == lower_ascii(s@),
{
    let mut r: Vec<char> = Vec::new();
    let mut i: usize = 0;
    while i < s.len()
        invariant
            0 <= i <= s@.len(),
            r@ == lower_ascii(s@.take(i as int)),
        decreases s@.len() - i,
    {
        r.push(char_to_ascii_lower(s[i]));
        i = i + 1;
        assert(r@ =~= lower_ascii(s@.take(i as int)));
    }
    assert(s@.take(s@.len() as int) == s@);
    r
}

/// Strict lexicographic order on characters by code point, which is the
/// order of `str` (UTF-8 preserves code point order).
pub open spec fn lex_lt(a: Seq<char>, b: Seq<char>) -> bool
    decreases a.len(),
{
    if a.len() == 0 {
        b.len() > 0
    } else if b.len() == 0 {
        false
    } else if a[0] != b[0] {
        a[0] < b[0]
    } else {
        lex_lt(a.drop_first(), b.drop_first())
    }
}

pub proof fn lemma_lex_irreflexive(a: Seq<char>)
    ensures
        !lex_lt(a, a),
    decreases a.len(),
{
    if a.len() > 0 {
        lemma_lex_irreflexive(a.drop_first());
    }
}

pub proof fn lemma_lex_transitive(a: Seq<char>, b: Seq<char>, c: Seq<char>)
    requires
        lex_lt(a, b),
        lex_lt(b, c),
    ensures
        lex_lt(a, c),
    decreases a.len(),
{
    if a.len() > 0 && b.len() > 0 && c.len() > 0 && a[0] == b[0] && b[0] == c[0] {
        lemma_lex_transitive(a.drop_first(), b.drop_first(), c.drop_first());
    }
}

pub proof fn lemma_lex_total(a: Seq<char>, b: Seq<char>)
    ensures
        a == b || lex_lt(a, b) || lex_lt(b, a),
    decreases a.len(),
{
    if a.len() > 0 && b.len() > 0 && a[0] == b[0] {
        lemma_lex_total(a.drop_first(), b.drop_first());
        if a.drop_first() == b.drop_first() {
            assert forall|k: int| 0 <= k < a.len() implies a[k] == b[k] by {
                if k > 0 {
                    assert(a[k] == a.drop_first()[k - 1]);
                    assert(b[k] == b.drop_first()[k - 1]);
                }
            }
            assert(a =~= b);
        }
    } else if a.len() == 0 && b.len() == 0 {
        assert(a =~= b);
    } else if a.len() > 0 && b.len() > 0 {
        assert(a[0] < b[0] || b[0] < a[0]);
    }
}

pub proof fn lemma_lex_asymmetric(a: Seq<char>, b: Seq<char>)
    requires
        lex_lt(a, b),
    ensures
        !lex_lt(b, a),
    decreases a.len(),
{
    if a.len() > 0 && b.len() > 0 && a[0] == b[0] {
        lemma_lex_asymmetric(a.drop_first(), b.drop_first());
    }
}

/// Whether `a` sorts strictly before `b`.
pub fn chars_lt(a: &[char], b: &[char]) -> (r: bool)
    ensures
        r == lex_lt(a@, b@),
{
    let mut i: usize = 0;
    assert(a@.skip(0) == a@ && b@.skip(0) == b@);
    while i < a.len() && i < b.len() && a[i] == b[i]
        invariant
            0 <= i <= a@.len(),
            i <= b@.len(),
            forall|k: int| 0 <= k < i ==> a@[k] == b@[k],
            lex_lt(a@, b@) == lex_lt(a@.skip(i as int), b@.skip(i as int)),
        decreases a@.len() - i,
    {
        proof {
            let x = a@.skip(i as int);
            let y = b@.skip(i as int);
            assert(x.drop_first() == a@.skip(i + 1));
            assert(y.drop_first() == b@.skip(i + 1));
        }
        i = i + 1;
    }
    let ghost x = a@.skip(i as int);
    let ghost y = b@.skip(i as int);
    if i == a.len() {
        i < b.len()
    } else if i == b.len() {
        false
    } else {
        assert(x[0] == a@[i as int] && y[0] == b@[i as int]);
        a[i] < b[i]
    }
}


// ---------------------------------------------------------------------
// Lists of strings
// ---------------------------------------------------------------------

/// Whether `v` holds a string equal to `s`.
pub fn contains_string(v: &Vec<String>, s: &String) -> (r: bool)
    ensures
        r == v.deep_view().contains(s@),
{
    let mut i: usize = 0;
    while i < v.len()
        invariant
            0 <= i <= v@.len(),
            forall|k: int| 0 <= k < i ==> v@[k]@ != s@,
        decreases v@.len() - i,
    {
        if v[i] == *s {
            assert(v.deep_view()[i as int] == s@);
            return true;
        }
        i = i + 1;
    }
    assert(!v.deep_view().contains(s@)) by {
        if v.deep_view().contains(s@) {
            let k = choose|k: int| 0 <= k < v.deep_view().len() && v.deep_view()[k] == s@;
            assert(v@[k]@ == s@);
        }
    }
    false
}

/// Appends `s` to `v`.
pub fn push_string(v: &mut Vec<String>, s: String)
    ensures
        final(v).deep_view() == old(v).deep_view().push(s@),
{
    let ghost before = v.deep_view();
    v.push(s);
    assert(v.deep_view() =~= before.push(s@));
}

/// A copy of a list of strings.
pub fn copy_strings(v: &Vec<String>) -> (r: Vec<String>)
    ensures
        r.deep_view() == v.deep_view(),
{
    let mut r: Vec<String> = Vec::new();
    let mut i: usize = 0;
    while i < v.len()
        invariant
            0 <= i <= v@.len(),
            r.deep_view() == v.deep_view().take(i as int),
        decreases v@.len() - i,
    {
        push_string(&mut r, v[i].clone());
        i = i + 1;
        assert(r.deep_view() =~= v.deep_view().take(i as int));
    }
    assert(v.deep_view().take(v@.len() as int) =~= v.deep_view());
    r
}

/// `s` as an owned string.
pub fn to_string_of(s: &str) -> (r: String)
    ensures
        r@ == s@,
{
    string_of(chars_of(s).as_slice())
}

/// `acc` followed by the members of `hs` that it does not hold yet, each
/// once.
pub open spec fn add_unseen(acc: Seq<Seq<char>>, hs: Seq<Seq<char>>) -> Seq<Seq<char>>
    decreases hs.len(),
{
    if hs.len() == 0 {
        acc
    } else {
        let a = add_unseen(acc, hs.drop_last());
        if a.contains(hs.last()) {
            a
        } else {
            a.push(hs.last())
        }
    }
}

/// A sequence in which nothing occurs twice.
pub open spec fn no_dups(s: Seq<Seq<char>>) -> bool {
    forall|i: int, j: int| 0 <= i < j < s.len() ==> s[i] != s[j]
}

/// Appends to `acc` the members of `hs` that it does not hold yet.
pub fn add_unseen_into(acc: &mut Vec<String>, hs: &Vec<String>)
    requires
        no_dups(old(acc).deep_view()),
    ensures
        final(acc).deep_view() == add_unseen(old(acc).deep_view(), hs.deep_view()),
        no_dups(final(acc).deep_view()),
{
    let ghost a0 = acc.deep_view();
    let ghost hv = hs.deep_view();
    let mut i: usize = 0;
    assert(hv.take(0) =~= Seq::<Seq<char>>::empty());
    while i < hs.len()
        invariant
            0 <= i <= hs@.len(),
            hv == hs.deep_view(),
            acc.deep_view() == add_unseen(a0, hv.take(i as int)),
            no_dups(acc.deep_view()),
        decreases hs@.len() - i,
    {
        assert(hv[i as int] == hs@[i as int]@);
        assert(hv.take(i + 1).drop_last() =~= hv.take(i as int));
        if !contains_string(acc, &hs[i]) {
            let ghost before = acc.deep_view();
            push_string(acc, hs[i].clone());
            assert(no_dups(acc.deep_view())) by {
                assert forall|x: int, y: int| 0 <= x < y < acc.deep_view().len() implies acc.deep_view()[x]
                    != acc.deep_view()[y] by {
                    if y == before.len() {
                        assert(acc.deep_view()[x] == before[x]);
                    }
                }
            }
        }
        i = i + 1;
    }
    assert(hv.take(hs@.len() as int) =~= hv);
}

/// Appends `src[from..to]` to `out`.
pub fn push_range(out: &mut Vec<char>, src: &[char], from: usize, to: usize)
    requires
        from <= to <= src@.len(),
    ensures
        final(out)@ == old(out)@ + src@.subrange(from as int, to as int),
{
    let mut k: usize = from;
    while k < to
        invariant
            from <= k <= to,
            to <= src@.len(),
            out@ == old(out)@ + src@.subrange(from as int, k as int),
        decreases to - k,
    {
        out.push(src[k]);
        k = k + 1;
        assert(out@ =~= old(out)@ + src@.subrange(from as int, k as int));
    }
}

/// Appends all of `src` to `out`.
pub fn push_all(out: &mut Vec<char>, src: &[char])
    ensures
        final(out)@ == old(out)@ + src@,
{
    push_range(out, src, 0, src.len());
    assert(src@.subrange(0, src@.len() as int) == src@);
}

/// The trimmed pieces that are not empty, in order.
pub open spec fn trimmed_nonempty(parts: Seq<Seq<char>>) -> Seq<Seq<char>>
    decreases parts.len(),
{
    if parts.len() == 0 {
        Seq::<Seq<char>>::empty()
    } else {
        let prev = trimmed_nonempty(parts.drop_last());
        if trim(parts.last()).len() > 0 {
            prev.push(trim(parts.last()))
        } else {
            prev
        }
    }
}

/// The trimmed non-empty pieces.
pub fn trimmed_nonempty_of(parts: &Vec<Vec<char>>) -> (r: Vec<String>)
    ensures
        r.deep_view() == trimmed_nonempty(parts.deep_view()),
{
    let ghost pv = parts.deep_view();
    let mut r: Vec<String> = Vec::new();
    let mut i: usize = 0;
    assert(pv.take(0) =~= Seq::<Seq<char>>::empty());
    while i < parts.len()
        invariant
            0 <= i <= parts@.len(),
            pv == parts.deep_view(),
            r.deep_view() == trimmed_nonempty(pv.take(i as int)),
        decreases parts@.len() - i,
    {
        assert(pv[i as int] == parts@[i as int]@);
        assert(pv.take(i + 1).drop_last() =~= pv.take(i as int));
        let t = trim_chars(parts[i].as_slice());
        if t.len() > 0 {
            push_string(&mut r, string_of(t.as_slice()));
        }
        i = i + 1;
    }
    assert(pv.take(parts@.len() as int) =~= pv);
    r
}

/// The items joined with `sep` between each two of them.
pub open spec fn join_with(items: Seq<Seq<char>>, sep: Seq<char>) -> Seq<char>
    decreases items.len(),
{
    if items.len() == 0 {
        Seq::empty()
    } else if items.len() == 1 {
        items[0]
    } else {
        join_with(items.drop_last(), sep) + sep + items.last()
    }
}

/// Appends `items` joined with `sep` to `out`.
pub fn push_separated(out: &mut String, items: &Vec<String>, sep: &str)
    ensures
        final(out)@ == old(out)@ + join_with(items.deep_view(), sep@),
{
    let ghost start = out@;
    let ghost iv = items.deep_view();
    let mut i: usize = 0;
    assert(iv.take(0) =~= Seq::<Seq<char>>::empty());
    assert(start + Seq::<char>::empty() =~= start);
    while i < items.len()
        invariant
            iv == items.deep_view(),
            i <= items@.len(),
            out@ == start + join_with(iv.take(i as int), sep@),
        decreases items@.len() - i,
    {
        let ghost before = out@;
        if i > 0 {
            out.push_str(sep);
        }
        out.push_str(items[i].as_str());
        proof {
            let t = iv.take(i + 1);
            assert(t.drop_last() =~= iv.take(i as int));
            assert(t.last() == items@[i as int]@);
            if i == 0 {
                assert(join_with(t, sep@) == t[0]);
                assert(join_with(iv.take(0), sep@) =~= Seq::<char>::empty());
                assert(out@ =~= start + join_with(t, sep@));
            } else {
                assert(out@ =~= start + join_with(t, sep@));
            }
        }
        i = i + 1;
    }
    assert(iv.take(items@.len() as int) =~= iv);
}

/// Whether `c` is an ASCII decimal digit.
pub open spec fn is_digit(c: char) -> bool {
    '0' <= c && c <= '9'
}

/// The number that a string of decimal digits writes.
pub open spec fn digits_value(d: Seq<char>) -> nat
    decreases d.len(),
{
    if d.len() == 0 {
        0
    } else {
        digits_value(d.drop_last()) * 10 + ((d.last() as int - '0' as int) as nat)
    }
}

/// Every character of `d` is a decimal digit.
pub open spec fn all_digits(d: Seq<char>) -> bool {
    forall|i: int| 0 <= i < d.len() ==> is_digit(#[trigger] d[i])
}

/// `usize::from_str`: an optional `+`, then one or more decimal digits
/// whose value fits in `usize`.
pub open spec fn parse_usize_spec(s: Seq<char>) -> Option<nat> {
    let d = if s.len() > 0 && s[0] == '+' {
        s.skip(1)
    } else {
        s
    };
    if d.len() > 0 && all_digits(d) && digits_value(d) <= usize::MAX {
        Some(digits_value(d))
    } else {
        None
    }
}

proof fn lemma_digits_value_mono(d: Seq<char>, i: int)
    requires
        0 <= i <= d.len(),
        forall|k: int| 0 <= k < d.len() ==> is_digit(#[trigger] d[k]),
    ensures
        digits_value(d.take(i)) <= digits_value(d),
    decreases d.len(),
{
    if i < d.len() {
        let t = d.drop_last();
        assert(t.take(i) == d.take(i));
        assert forall|k: int| 0 <= k < t.len() implies is_digit(#[trigger] t[k]) by {
            assert(t[k] == d[k]);
        }
        lemma_digits_value_mono(t, i);
    } else {
        assert(d.take(i) == d);
    }
}

/// Reads an index the way `str::parse::<usize>` does.
pub fn parse_index(s: &str) -> (r: Option<usize>)
    ensures
        match parse_usize_spec(s@) {
            Some(v) => r == Some(v as usize),
            None => r is None,
        },
{
    let cs = chars_of(s);
    let start: usize = if cs.len() > 0 && cs[0] == '+' {
        1
    } else {
        0
    };
    let ghost d = if s@.len() > 0 && s@[0] == '+' {
        s@.skip(1)
    } else {
        s@
    };
    assert(d == cs@.skip(start as int));
    if start >= cs.len() {
        return None;
    }
    let mut acc: usize = 0;
    let mut i: usize = start;
    assert(d.take(0) =~= Seq::<char>::empty());
    while i < cs.len()
        invariant
            start <= i <= cs@.len(),
            cs@ == s@,
            d == cs@.skip(start as int),
            d == (if s@.len() > 0 && s@[0] == '+' {
                s@.skip(1)
            } else {
                s@
            }),
            d.len() > 0,
            forall|k: int| 0 <= k < i - start ==> is_digit(#[trigger] d[k]),
            acc == digits_value(d.take(i - start)),
        decreases cs@.len() - i,
    {
        let c = cs[i];
        if !('0' <= c && c <= '9') {
            assert(d[i - start] == c);
            proof {
                let k = i - start;
                assert(0 <= k < d.len());
                assert(!is_digit(d[k]));
                let dd = if s@.len() > 0 && s@[0] == '+' {
                    s@.skip(1)
                } else {
                    s@
                };
                assert(dd == d);
                assert(!is_digit(dd[k]));
                assert(!all_digits(dd));
            }
            return None;
        }
        let digit: usize = (c as u32 - '0' as u32) as usize;
        proof {
            let t = d.take(i - start + 1);
            assert(t.drop_last() == d.take(i - start));
            assert(t.last() == c);
        }
        let next = match acc.checked_mul(10) {
            Some(m) => m.checked_add(digit),
            None => None,
        };
        match next {
            Some(v) => {
                acc = v;
            },
            None => {
                proof {
                    assert(digits_value(d.take(i - start + 1)) == acc * 10 + digit);
                    assert(digits_value(d.take(i - start + 1)) > usize::MAX);
                    assert forall|k: int| 0 <= k < i - start + 1 implies is_digit(
                        #[trigger] d.take(i - start + 1)[k],
                    ) by {
                        assert(d.take(i - start + 1)[k] == d[k]);
                    }
                    if forall|k: int| 0 <= k < d.len() ==> is_digit(#[trigger] d[k]) {
                        lemma_digits_value_mono(d, i - start + 1);
                    }
                }
                return None;
            },
        }
        i = i + 1;
    }
    assert(d.take(d.len() as int) == d);
    Some(acc)
}


/// Each line followed by a newline.
pub open spec fn text_of(ls: Seq<Seq<char>>) -> Seq<char>
    decreases ls.len(),
{
    if ls.len() == 0 {
        Seq::empty()
    } else {
        text_of(ls.drop_last()) + ls.last() + seq!['\n']
    }
}

pub proof fn lemma_text_of_append(a: Seq<Seq<char>>, b: Seq<Seq<char>>)
    ensures
        text_of(a + b) == text_of(a) + text_of(b),
    decreases b.len(),
{
    if b.len() == 0 {
        assert(a + b =~= a);
        assert(text_of(a) + Seq::<char>::empty() =~= text_of(a));
    } else {
        lemma_text_of_append(a, b.drop_last());
        assert((a + b).drop_last() =~= a + b.drop_last());
        assert((a + b).last() == b.last());
        assert(text_of(a + b) =~= text_of(a) + text_of(b));
    }
}

/// Splitting after text without `c` was appended extends the last piece.
pub proof fn lemma_split_char_extend(x: Seq<char>, l: Seq<char>, c: char)
    requires
        !l.contains(c),
    ensures
        split_char(x + l, c) == split_char(x, c).update(
            split_char(x, c).len() - 1,
            split_char(x, c).last() + l,
        ),
    decreases l.len(),
{
    lemma_split_char_nonempty(x, c);
    let sx = split_char(x, c);
    if l.len() == 0 {
        assert(x + l =~= x);
        assert(sx.last() + l =~= sx.last());
        assert(sx.update(sx.len() - 1, sx.last()) =~= sx);
    } else {
        let l0 = l.drop_last();
        assert(!l0.contains(c)) by {
            if l0.contains(c) {
                let k = choose|k: int| 0 <= k < l0.len() && l0[k] == c;
                assert(l[k] == c);
            }
        }
        lemma_split_char_extend(x, l0, c);
        assert((x + l).drop_last() =~= x + l0);
        assert((x + l).last() == l.last());
        assert(l.last() != c) by {
            assert(l[l.len() - 1] == l.last());
        }
        lemma_split_char_nonempty(x + l0, c);
        let prev = split_char(x + l0, c);
        assert(prev.last() == sx.last() + l0);
        assert(prev.last().push(l.last()) =~= sx.last() + l);
        assert(split_char(x + l, c) =~= sx.update(sx.len() - 1, sx.last() + l));
    }
}

/// The pieces of lines written one after another, each ended by `\n`.
pub proof fn lemma_split_text(ls: Seq<Seq<char>>)
    requires
        forall|i: int| 0 <= i < ls.len() ==> !(#[trigger] ls[i]).contains('\n'),
    ensures
        split_char(text_of(ls), '\n') == ls.push(Seq::<char>::empty()),
    decreases ls.len(),
{
    if ls.len() == 0 {
        assert(split_char(text_of(ls), '\n') =~= ls.push(Seq::<char>::empty()));
    } else {
        let t = ls.drop_last();
        assert forall|i: int| 0 <= i < t.len() implies !(#[trigger] t[i]).contains('\n') by {
            assert(t[i] == ls[i]);
        }
        lemma_split_text(t);
        let l = ls.last();
        assert(!l.contains('\n')) by {
            assert(ls[ls.len() - 1] == l);
        }
        lemma_split_char_extend(text_of(t), l, '\n');
        let body = text_of(t) + l;
        assert(text_of(ls) =~= body.push('\n'));
        assert(body.push('\n').drop_last() =~= body);
        let sb = split_char(body, '\n');
        assert(sb =~= t.push(l));
        assert(t.push(l) =~= ls);
        assert(split_char(body.push('\n'), '\n') =~= sb.push(Seq::<char>::empty()));
    }
}

/// The lines of text written line by line are those lines.
pub proof fn lemma_lines_of_text(ls: Seq<Seq<char>>)
    requires
        forall|i: int| 0 <= i < ls.len() ==> !(#[trigger] ls[i]).contains('\n'),
        forall|i: int| 0 <= i < ls.len() ==> strip_cr(#[trigger] ls[i]) == ls[i],
    ensures
        lines(text_of(ls)) == ls,
{
    if ls.len() == 0 {
        assert(text_of(ls) =~= Seq::<char>::empty());
    } else {
        lemma_split_text(ls);
        let parts = ls.push(Seq::<char>::empty());
        assert(text_of(ls).len() > 0) by {
            assert(text_of(ls) =~= text_of(ls.drop_last()) + ls.last() + seq!['\n']);
        }
        assert(parts.drop_last() =~= ls);
        assert(parts.drop_last().map_values(|l: Seq<char>| strip_cr(l)) =~= ls);
    }
}

/// A text that starts and ends with something other than whitespace is its
/// own trim.
pub proof fn lemma_trim_unchanged(s: Seq<char>)
    requires
        s.len() > 0 ==> !is_ws(s[0]) && !is_ws(s.last()),
    ensures
        trim(s) == s,
{
}

proof fn lemma_trim_start_props(s: Seq<char>) -> (k: int)
    ensures
        0 <= k <= s.len(),
        trim_start(s) == s.skip(k),
        trim_start(s).len() > 0 ==> !is_ws(trim_start(s)[0]),
        (s.len() > 0 && !is_ws(s[0])) ==> k == 0,
    decreases s.len(),
{
    if s.len() > 0 && is_ws(s[0]) {
        let k = lemma_trim_start_props(s.drop_first());
        assert(s.drop_first().skip(k) =~= s.skip(k + 1));
        k + 1
    } else {
        assert(s.skip(0) =~= s);
        0
    }
}

proof fn lemma_trim_end_props(s: Seq<char>) -> (j: int)
    ensures
        0 <= j <= s.len(),
        trim_end(s) == s.take(j),
        trim_end(s).len() > 0 ==> !is_ws(trim_end(s).last()),
        (s.len() > 0 && !is_ws(s[0])) ==> j >= 1,
    decreases s.len(),
{
    if s.len() > 0 && is_ws(s.last()) {
        let j = lemma_trim_end_props(s.drop_last());
        assert(s.drop_last().take(j) =~= s.take(j));
        if s.drop_last().len() > 0 {
            assert(s.drop_last()[0] == s[0]);
        }
        j
    } else {
        assert(s.take(s.len() as int) =~= s);
        s.len() as int
    }
}

/// `trim(s)` is a piece `s[a..b]` of `s`; when not empty it starts and
/// ends with something other than whitespace; and when `s` starts with
/// something other than whitespace, it starts there.
pub proof fn lemma_trim_props(s: Seq<char>) -> (ab: (int, int))
    ensures
        0 <= ab.0 <= ab.1 <= s.len(),
        trim(s) == s.subrange(ab.0, ab.1),
        trim(s).len() > 0 ==> !is_ws(trim(s)[0]) && !is_ws(trim(s).last()),
        (s.len() > 0 && !is_ws(s[0])) ==> ab.0 == 0 && ab.1 >= 1,
{
    let k = lemma_trim_start_props(s);
    let t = trim_start(s);
    let j = lemma_trim_end_props(t);
    assert(t.take(j) =~= s.subrange(k, k + j));
    if trim(s).len() > 0 {
        assert(trim(s)[0] == t[0]);
    }
    (k, k + j)
}

/// A piece of a text lacks what the text lacks.
pub proof fn lemma_subrange_lacks(s: Seq<char>, a: int, b: int, x: char)
    requires
        0 <= a <= b <= s.len(),
        !s.contains(x),
    ensures
        !s.subrange(a, b).contains(x),
{
    if s.subrange(a, b).contains(x) {
        let k = choose|k: int| 0 <= k < b - a && s.subrange(a, b)[k] == x;
        assert(s[a + k] == x);
    }
}

/// No piece of `split_char(s, c)` holds `c`, nor a character `x` that `s`
/// lacks.
pub proof fn lemma_split_char_lacks(s: Seq<char>, c: char, x: char)
    ensures
        forall|i: int|
            0 <= i < split_char(s, c).len() ==> !(#[trigger] split_char(s, c)[i]).contains(c) && (
            !s.contains(x) ==> !split_char(s, c)[i].contains(x)),
    decreases s.len(),
{
    if s.len() > 0 {
        let t = s.drop_last();
        lemma_split_char_lacks(t, c, x);
        lemma_split_char_nonempty(t, c);
        let prev = split_char(t, c);
        if !s.contains(x) {
            assert(!t.contains(x)) by {
                if t.contains(x) {
                    let k = choose|k: int| 0 <= k < t.len() && t[k] == x;
                    assert(s[k] == x);
                }
            }
        }
        if s.last() == c {
            assert forall|i: int| 0 <= i < split_char(s, c).len() implies !(#[trigger] split_char(
                s,
                c,
            )[i]).contains(c) && (!s.contains(x) ==> !split_char(s, c)[i].contains(x)) by {
                if i < prev.len() {
                    assert(split_char(s, c)[i] == prev[i]);
                } else {
                    assert(split_char(s, c)[i] =~= Seq::<char>::empty());
                }
            }
        } else {
            let l = prev.last().push(s.last());
            assert forall|i: int| 0 <= i < split_char(s, c).len() implies !(#[trigger] split_char(
                s,
                c,
            )[i]).contains(c) && (!s.contains(x) ==> !split_char(s, c)[i].contains(x)) by {
                if i < prev.len() - 1 {
                    assert(split_char(s, c)[i] == prev[i]);
                } else {
                    assert(split_char(s, c)[i] == l);
                    assert(prev.last() == prev[prev.len() - 1]);
                    if l.contains(c) {
                        let k = choose|k: int| 0 <= k < l.len() && l[k] == c;
                        if k < l.len() - 1 {
                            assert(prev.last()[k] == c);
                        }
                    }
                    if !s.contains(x) && l.contains(x) {
                        let k = choose|k: int| 0 <= k < l.len() && l[k] == x;
                        if k < l.len() - 1 {
                            assert(prev.last()[k] == x);
                        } else {
                            assert(s[s.len() - 1] == x);
                        }
                    }
                }
            }
        }
    }
}

/// No line of a text holds a newline.
pub proof fn lemma_lines_lack_newline(s: Seq<char>)
    ensures
        forall|i: int| 0 <= i < lines(s).len() ==> !(#[trigger] lines(s)[i]).contains('\n'),
{
    if s.len() > 0 {
        let parts = split_char(s, '\n');
        lemma_split_char_lacks(s, '\n', '\n');
        lemma_split_char_nonempty(s, '\n');
        let ended = parts.drop_last().map_values(|l: Seq<char>| strip_cr(l));
        assert forall|i: int| 0 <= i < lines(s).len() implies !(#[trigger] lines(s)[i]).contains('\n') by {
            if i < ended.len() {
                assert(lines(s)[i] == ended[i]);
                assert(parts.drop_last()[i] == parts[i]);
                let p = parts[i];
                assert(!split_char(s, '\n')[i].contains('\n'));
                if p.len() > 0 && p.last() == '\r' {
                    lemma_subrange_lacks(p, 0, p.len() - 1, '\n');
                    assert(p.drop_last() =~= p.subrange(0, p.len() - 1));
                }
            } else {
                assert(lines(s)[i] == parts.last());
            }
        }
    }
}

/// The digit that writes `d`, for `d < 10`.
pub open spec fn digit_char(d: nat) -> char {
    seq!['0', '1', '2', '3', '4', '5', '6', '7', '8', '9'][d as int]
}

/// `n` written in decimal.
pub open spec fn decimal(n: nat) -> Seq<char>
    decreases n,
{
    if n < 10 {
        seq![digit_char(n)]
    } else {
        decimal(n / 10).push(digit_char(n % 10))
    }
}

/// `i` written in decimal, with a `-` when it is negative (`Display` of
/// an integer).
pub open spec fn int_text(i: int) -> Seq<char> {
    if i < 0 {
        seq!['-'] + decimal((-i) as nat)
    } else {
        decimal(i as nat)
    }
}

fn decimal_chars(n: u64) -> (r: Vec<char>)
    ensures
        r@ == decimal(n as nat),
    decreases n,
{
    let digits: [char; 10] = ['0', '1', '2', '3', '4', '5', '6', '7', '8', '9'];
    assert(digits@ =~= seq!['0', '1', '2', '3', '4', '5', '6', '7', '8', '9']);
    if n < 10 {
        let mut r: Vec<char> = Vec::new();
        r.push(digits[n as usize]);
        assert(r@ =~= seq![digit_char(n as nat)]);
        r
    } else {
        let mut r = decimal_chars(n / 10);
        r.push(digits[(n % 10) as usize]);
        r
    }
}

/// `i` written in decimal.
pub fn int_to_text(i: i32) -> (r: String)
    ensures
        r@ == int_text(i as int),
{
    let wide: i64 = i as i64;
    if wide < 0 {
        let mut r = String::new();
        r.push('-');
        let mag: u64 = (0 - wide) as u64;
        r.push_str(string_of(decimal_chars(mag).as_slice()).as_str());
        r
    } else {
        string_of(decimal_chars(wide as u64).as_slice())
    }
}

} // verus!
