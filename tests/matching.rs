use solana_key_utils::matching::{check_match, ends_with_text, matches_case_exact, starts_with_text};

#[test]
fn test_check_match() {
    assert!(check_match("SoL123", "SoL", "", false));
    assert!(!check_match("sol123", "SoL", "", false));
    assert!(check_match("sol123", "SoL", "", true));
    assert!(check_match("123End", "", "End", false));
    assert!(check_match("StartEnd", "Start", "End", false));
}

#[test]
fn check_match_needs_both_bounds() {
    assert!(!check_match("StartEnd", "Start", "end", false));
    assert!(check_match("StartEnd", "start", "END", true));
    assert!(!check_match("Start", "Start", "Start1", false));
    assert!(!check_match("ab", "abc", "", false));
    assert!(check_match("", "", "", false));
    assert!(check_match("AnyThing", "", "", true));
    assert!(check_match("ÄÖ", "", "", true));
}

#[test]
fn check_match_ignore_case_lowers_every_text() {
    assert!(check_match("ÄBC", "äb", "", true));
    assert!(!check_match("ÄBC", "äb", "", false));
    assert!(check_match("xYz", "X", "Z", true));
}

#[test]
fn prefix_and_suffix_tests() {
    assert!(starts_with_text("abc", ""));
    assert!(starts_with_text("abc", "ab"));
    assert!(!starts_with_text("abc", "b"));
    assert!(ends_with_text("abc", "bc"));
    assert!(!ends_with_text("abc", "ab"));
    assert!(!ends_with_text("c", "bc"));
    assert!(matches_case_exact("abc", "a", "c"));
    assert!(!matches_case_exact("abc", "A", "c"));
}
