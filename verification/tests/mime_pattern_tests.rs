use openit::mime_pattern;

#[test]
fn exact_match_is_true() {
    assert!(mime_pattern::matches("image/jpeg", "image/jpeg"));
}

#[test]
fn wildcard_match_is_true() {
    assert!(mime_pattern::matches("image/*", "image/png"));
}

#[test]
fn mismatched_types_are_false() {
    assert!(!mime_pattern::matches("text/*", "image/png"));
}

#[test]
fn case_insensitive_match() {
    assert!(mime_pattern::matches("APPLICATION/JSON", "application/json"));
}

#[test]
fn empty_inputs_do_not_match() {
    assert!(!mime_pattern::matches("", "application/json"));
    assert!(!mime_pattern::matches("text/plain", ""));
}

#[test]
fn question_mark_matches_one_character() {
    assert!(mime_pattern::matches("image/pn?", "image/png"));
    assert!(!mime_pattern::matches("image/p?", "image/png"));
}
