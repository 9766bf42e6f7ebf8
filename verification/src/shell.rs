//! Splitting command lines into words the way a POSIX shell does.
use vstd::prelude::*;

verus! {

/// The words that `shell_words::split` finds in `s`, or `None` where it
/// reports a missing closing quote.
pub uninterp spec fn shell_split(s: Seq<char>) -> Option<Seq<Seq<char>>>;

/// Text made only of the characters that `shell_words::split` reads as
/// word delimiters: space, tab and newline.
pub open spec fn shell_blank(s: Seq<char>) -> bool {
    forall|i: int| 0 <= i < s.len() ==> s[i] == ' ' || s[i] == '\t' || s[i] == '\n'
}

/// `shell_words::split`: the words of `s`, or `None` when a quote is left
/// open. The words themselves are not stated here; `shell_split` names
/// them. Text of delimiters only gives no words: the splitter stays in its
/// delimiter state on space, tab and newline and ends there.
#[verifier::external_body]
pub(crate) fn split_words(s: &str) -> (r: Option<Vec<String>>)
    ensures
        match shell_split(s@) {
            Some(w) => r is Some && r->0.deep_view() == w,
            None => r is None,
        },
        shell_blank(s@) ==> r is Some && r->0@.len() == 0,
{
    match shell_words::split(s) {
        Ok(words) => Some(words),
        Err(_) => None,
    }
}

/// The text of the error that `shell_words::split` reports.
pub open spec fn split_error_text() -> Seq<char> {
    "missing closing quote"@
}

} // verus!
