//! Matching MIME types against patterns such as `image/*`.
use vstd::prelude::*;
use crate::text::{
    chars_eq, chars_of, contains_char, lower_ascii, lower_ascii_chars, trim, trim_chars,
};

verus! {

/// Wildcard matching of the whole of `t` against `p`: `?` matches exactly
/// one character, `*` any run of characters (the empty one too), and every
/// other character itself.
pub open spec fn glob_match(p: Seq<char>, t: Seq<char>) -> bool
    decreases p.len(), t.len(),
{
    if p.len() == 0 {
        t.len() == 0
    } else if p[0] == '*' {
        glob_match(p.drop_first(), t) || (t.len() > 0 && glob_match(p, t.drop_first()))
    } else {
        t.len() > 0 && (p[0] == '?' || p[0] == t[0]) && glob_match(p.drop_first(), t.drop_first())
    }
}

/// `wildmatch::WildMatch::new(pattern).matches(target)`. The crate documents
/// that the pattern must match the whole input, that `?` matches exactly one
/// character and `*` any number of characters (none included), with no
/// escapes and case-sensitive comparison; `glob_match` states that.
#[verifier::external_body]
pub(crate) fn wildcard_matches(pattern: &str, target: &str) -> (r: bool)
    ensures
        r == glob_match(pattern@, target@),
{
    wildmatch::WildMatch::new(pattern).matches(target)
}

/// Case-insensitive comparison of ASCII letters (`str::eq_ignore_ascii_case`).
pub open spec fn eq_ignore_ascii_case(a: Seq<char>, b: Seq<char>) -> bool {
    lower_ascii(a) == lower_ascii(b)
}

/// Whether the MIME type `t` matches the pattern `p`: equal ignoring ASCII
/// case; or, after trimming both and making them lowercase, equal; or both
/// hold a `/` and `p` holds a wildcard (`*` or `?`) that matches `t`.
pub open spec fn mime_matches(p: Seq<char>, t: Seq<char>) -> bool {
    if eq_ignore_ascii_case(p, t) {
        true
    } else {
        let pt = trim(p);
        let tt = trim(t);
        if pt.len() == 0 || tt.len() == 0 {
            false
        } else {
            let pn = lower_ascii(pt);
            let tn = lower_ascii(tt);
            if pn == tn {
                true
            } else if !pn.contains('/') || !tn.contains('/') {
                false
            } else if pn.contains('*') || pn.contains('?') {
                glob_match(pn, tn)
            } else {
                false
            }
        }
    }
}

/// Whether `target` matches the MIME pattern `pattern`.
pub fn matches(pattern: &str, target: &str) -> (r: bool)
    ensures
        r == mime_matches(pattern@, target@),
{
    let p = chars_of(pattern);
    let t = chars_of(target);
    let pl = lower_ascii_chars(p.as_slice());
    let tl = lower_ascii_chars(t.as_slice());
    if chars_eq(pl.as_slice(), tl.as_slice()) {
        return true;
    }
    let pt = trim_chars(p.as_slice());
    let tt = trim_chars(t.as_slice());
    if pt.len() == 0 || tt.len() == 0 {
        return false;
    }
    let pn = lower_ascii_chars(pt.as_slice());
    let tn = lower_ascii_chars(tt.as_slice());
    if chars_eq(pn.as_slice(), tn.as_slice()) {
        return true;
    }
    if !contains_char(pn.as_slice(), '/') || !contains_char(tn.as_slice(), '/') {
        return false;
    }
    if contains_char(pn.as_slice(), '*') || contains_char(pn.as_slice(), '?') {
        let ps = crate::text::string_of(pn.as_slice());
        let ts = crate::text::string_of(tn.as_slice());
        return wildcard_matches(ps.as_str(), ts.as_str());
    }
    false
}

} // verus!
