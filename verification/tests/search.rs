use minigrep::lines::split_lines;
use minigrep::matcher::{contains_query, find_matching_lines, search, search_case_insensitive};

#[test]
fn case_sensitive() {
    let query = "duct";
    let contents = "\
Rust:
safe, fast, productive.
Pick three.
Duct tape.";

    assert_eq!(vec!["safe, fast, productive."], search(query, contents));
}

#[test]
fn case_insensitive() {
    let query = "rUsT";
    let contents = "\
Rust:
safe, fast, productive.
Pick three.
Trust me.";

    assert_eq!(vec!["Rust:", "Trust me."], search_case_insensitive(query, contents));
}

#[test]
fn matching_is_substring_containment() {
    let text = "abc\nxyz\nzabca\nab";
    let result = search("abc", text);
    assert_eq!(vec!["abc", "zabca"], result);
    for line in text.lines() {
        assert_eq!(result.iter().any(|l| l == line), line.contains("abc"));
    }
}

#[test]
fn sensitive_matches_are_a_subset_of_insensitive() {
    let query = "Rust";
    let text = "Rust:\ntrust me.\nRUSTY\nnothing";
    let sensitive = find_matching_lines(query, text, true);
    let insensitive = find_matching_lines(query, text, false);
    assert_eq!(vec!["Rust:"], sensitive);
    assert_eq!(vec!["Rust:", "trust me.", "RUSTY"], insensitive);
    for line in &sensitive {
        assert!(insensitive.contains(line));
    }
}

#[test]
fn empty_query_matches_every_line() {
    let all = find_matching_lines("", "first\nsecond\nthird", true);
    assert_eq!(vec!["first", "second", "third"], all);
    let all_insensitive = find_matching_lines("", "first\nsecond", false);
    assert_eq!(vec!["first", "second"], all_insensitive);
}

#[test]
fn folding_reaches_beyond_ascii() {
    let text = "caf\u{e9}\n\u{e4}rger\nplain";
    assert_eq!(vec!["\u{e4}rger"], search_case_insensitive("\u{c4}RGER", text));
    assert_eq!(vec!["\u{e4}rger"], search_case_insensitive("\u{c4}", text));
    assert!(search("\u{c4}", text).is_empty());
}

#[test]
fn insensitive_result_is_invariant_under_query_case() {
    let text = "Rust:\n\u{e4}rger\nTrust me.";
    for (q1, q2) in [("rUsT", "RUST"), ("\u{c4}", "\u{e4}")] {
        assert_eq!(
            search_case_insensitive(q1, text),
            search_case_insensitive(q2, text)
        );
    }
}

#[test]
fn no_match_is_an_empty_result() {
    let result = search("absent", "one\ntwo\nthree");
    assert!(result.is_empty());
}

#[test]
fn duplicate_lines_are_kept() {
    let result = search("same", "same\nother\nsame");
    assert_eq!(vec!["same", "same"], result);
}

#[test]
fn contains_query_compares_case_appropriately() {
    assert!(contains_query("Duct tape.", "tape", true));
    assert!(!contains_query("Duct tape.", "TAPE", true));
    assert!(contains_query("Duct tape.", "TAPE", false));
    assert!(contains_query("anything", "", true));
}

#[test]
fn split_lines_drops_terminators() {
    let lines = split_lines("a\nb\n");
    assert_eq!(vec!["a", "b"], lines);
}

#[test]
fn split_lines_handles_carriage_return_line_feed() {
    let lines = split_lines("a\r\nb\r\n");
    assert_eq!(vec!["a", "b"], lines);
}

#[test]
fn split_lines_keeps_a_lone_carriage_return() {
    let lines = split_lines("a\rb");
    assert_eq!(vec!["a\rb"], lines);
}

#[test]
fn split_lines_of_empty_text_is_empty() {
    let lines = split_lines("");
    assert!(lines.is_empty());
    let one = split_lines("only");
    assert_eq!(vec!["only"], one);
}

#[test]
fn split_lines_keeps_empty_middle_lines() {
    let lines = split_lines("a\n\nb");
    assert_eq!(vec!["a", "", "b"], lines);
}
