use minigrep::grep::{filter_lines, search_case_insensitive, search_case_sensitive};
use minigrep::text::{contains_str, split_lines};

#[test]
fn case_sensitive() {
    let query = "Does it";
    let contents = "\
        What happens to a dream deferred?\n
        \nDoes it dry up\n\
        like a raisin in the sun?\n\
        Or fester like a sore—\n\
        And then run?\n\
        Does it stink like rotten meat?\n\
        Or crust and sugar over—\n\
        like a syrupy sweet?\n
        \nMaybe it just sags\n\
        like a heavy load.\n
        \nOr does it explode?\
        ";
    let expected_result = search_case_sensitive(query, contents);
    assert_eq!(
        &vec!["Does it dry up", "Does it stink like rotten meat?"],
        &expected_result
    )
}

#[test]
fn case_insensitive() {
    let query = "dOEs iT";
    let contents = "\
        What happens to a dream deferred?\n
        \nDoes it dry up\n\
        like a raisin in the sun?\n\
        Or fester like a sore—\n\
        And then run?\n\
        Does it stink like rotten meat?\n\
        Or crust and sugar over—\n\
        like a syrupy sweet?\n
        \nMaybe it just sags\n\
        like a heavy load.\n\
        \nOr does it explode?\
        ";
    let expected_result = search_case_insensitive(query, contents);
    assert_eq!(
        &vec![
            "Does it dry up",
            "Does it stink like rotten meat?",
            "Or does it explode?",
        ],
        &expected_result
    );
}

#[test]
fn empty_query_matches_every_line() {
    let contents = "first\nSecond\nTHIRD";
    let all = vec!["first", "Second", "THIRD"];
    assert_eq!(search_case_sensitive("", contents), all);
    assert_eq!(search_case_insensitive("", contents), all);
}

#[test]
fn empty_source_has_no_lines() {
    assert_eq!(search_case_sensitive("x", ""), Vec::<&str>::new());
    assert_eq!(search_case_insensitive("x", ""), Vec::<&str>::new());
    assert_eq!(search_case_sensitive("", ""), Vec::<&str>::new());
    assert_eq!(search_case_insensitive("", ""), Vec::<&str>::new());
}

#[test]
fn absent_query_yields_empty_result() {
    let contents = "alpha\nbeta\ngamma";
    assert_eq!(search_case_sensitive("delta", contents), Vec::<&str>::new());
    assert_eq!(
        search_case_insensitive("delta", contents),
        Vec::<&str>::new()
    );
    // Present only in another case: the sensitive search misses it.
    assert_eq!(search_case_sensitive("ALPHA", contents), Vec::<&str>::new());
    assert_eq!(search_case_insensitive("ALPHA", contents), vec!["alpha"]);
}

#[test]
fn result_keeps_source_order_and_multiplicity() {
    let contents = "ab\nzz\nab\ncab\nAB";
    assert_eq!(search_case_sensitive("ab", contents), vec!["ab", "ab", "cab"]);
    assert_eq!(
        search_case_insensitive("ab", contents),
        vec!["ab", "ab", "cab", "AB"]
    );
}

#[test]
fn sensitive_result_is_within_insensitive_result() {
    let contents = "Stone\nstone\nSTONE\npebble";
    let sensitive = search_case_sensitive("Stone", contents);
    let insensitive = search_case_insensitive("Stone", contents);
    assert_eq!(sensitive, vec!["Stone"]);
    assert_eq!(insensitive, vec!["Stone", "stone", "STONE"]);
    // Every sensitive match appears in the insensitive result, in order.
    let mut pos: usize = 0;
    for line in &sensitive {
        while pos < insensitive.len() && insensitive[pos] != *line {
            pos += 1;
        }
        assert!(pos < insensitive.len());
        pos += 1;
    }
}

#[test]
fn repeated_calls_agree() {
    let contents = "one\ntwo\nOne more";
    assert_eq!(
        search_case_sensitive("one", contents),
        search_case_sensitive("one", contents)
    );
    assert_eq!(
        search_case_insensitive("one", contents),
        search_case_insensitive("one", contents)
    );
}

#[test]
fn insensitive_search_normalizes_both_sides() {
    // Fails if lowercasing handed its argument back unchanged.
    assert_eq!(search_case_insensitive("ABC", "xabcx"), vec!["xabcx"]);
    assert_eq!(search_case_insensitive("abc", "XABCX"), vec!["XABCX"]);
    // The match reports the original spelling, never the lowercase form.
    assert_eq!(search_case_insensitive("wide", "WiDe World"), vec!["WiDe World"]);
}

#[test]
fn carriage_return_stays_in_line() {
    // Only '\n' delimits lines; a trailing '\r' is ordinary content.
    assert_eq!(split_lines("a\r\nb"), vec!["a\r", "b"]);
    assert_eq!(search_case_sensitive("a\r", "a\r\nb"), vec!["a\r"]);
    assert_eq!(search_case_sensitive("a", "a\r\nb"), vec!["a\r"]);
}

#[test]
fn split_lines_delimits_on_newline_only() {
    assert_eq!(split_lines(""), Vec::<&str>::new());
    assert_eq!(split_lines("a"), vec!["a"]);
    assert_eq!(split_lines("a\n"), vec!["a"]);
    assert_eq!(split_lines("a\nb"), vec!["a", "b"]);
    assert_eq!(split_lines("\n"), vec![""]);
    assert_eq!(split_lines("a\n\nb\n"), vec!["a", "", "b"]);
}

#[test]
fn filter_lines_follows_case_policy() {
    let contents = "Rust\nrust\ncrust";
    assert_eq!(filter_lines("Rust", contents, true), vec!["Rust"]);
    assert_eq!(filter_lines("Rust", contents, false), vec!["Rust", "rust", "crust"]);
}

#[test]
fn contains_str_decides_substring_presence() {
    assert!(contains_str("hello", ""));
    assert!(contains_str("", ""));
    assert!(!contains_str("", "a"));
    assert!(contains_str("hello", "ell"));
    assert!(contains_str("hello", "hello"));
    assert!(!contains_str("hello", "hello!"));
    assert!(!contains_str("hello", "Hello"));
    assert!(contains_str("aab", "ab"));
    assert!(contains_str("sore—bore", "—"));
}
