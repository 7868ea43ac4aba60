use minigrep::highlight::render;
use minigrep::style::{render_matches, render_styled};

#[test]
fn segments_one_per_occurrence() {
    let segs = render("Duct tape.", "t", true);
    let expected = [("Duc", false), ("t", true), (" ", false), ("t", true), ("ape.", false)];
    assert_eq!(expected.len(), segs.len());
    for (seg, (text, matched)) in segs.iter().zip(expected.iter()) {
        assert_eq!(&seg.text, text);
        assert_eq!(seg.matched, *matched);
    }
}

#[test]
fn segments_concatenate_to_the_line() {
    let cases = [
        ("Duct tape.", "t", true),
        ("Duct tape.", "q", true),
        ("aAaA", "aa", false),
        ("Trust me.", "rUsT", false),
        ("", "x", true),
    ];
    for (line, query, case_sensitive) in cases {
        let segs = render(line, query, case_sensitive);
        let joined: String = segs.iter().map(|s| s.text.as_str()).collect();
        assert_eq!(line, joined);
    }
}

#[test]
fn matched_segments_equal_the_query_case_appropriately() {
    let segs = render("Duct tape.", "t", true);
    for seg in segs.iter().filter(|s| s.matched) {
        assert_eq!("t", seg.text);
    }
    let segs = render("aAaA bAb", "aa", false);
    let matched: Vec<&str> = segs.iter().filter(|s| s.matched).map(|s| s.text.as_str()).collect();
    assert_eq!(vec!["aA", "aA"], matched);
    for text in matched {
        assert_eq!("aa", text.to_lowercase());
    }
}

#[test]
fn insensitive_segments_keep_original_casing() {
    let segs = render("Trust me.", "rUsT", false);
    let texts: Vec<&str> = segs.iter().map(|s| s.text.as_str()).collect();
    assert_eq!(vec!["T", "rust", " me."], texts);
    assert!(segs[1].matched);
    assert!(!segs[0].matched && !segs[2].matched);
}

#[test]
fn insensitive_matching_folds_beyond_ascii() {
    let segs = render("\u{c4}rger.", "\u{e4}r", false);
    let texts: Vec<(&str, bool)> = segs.iter().map(|s| (s.text.as_str(), s.matched)).collect();
    assert_eq!(vec![("\u{c4}r", true), ("ger.", false)], texts);
}

#[test]
fn empty_query_renders_one_unmatched_segment() {
    let segs = render("whole line", "", true);
    assert_eq!(1, segs.len());
    assert_eq!("whole line", segs[0].text);
    assert!(!segs[0].matched);
}

#[test]
fn empty_line_with_a_query_renders_nothing() {
    let segs = render("", "q", true);
    assert!(segs.is_empty());
}

#[test]
fn occurrences_do_not_overlap() {
    let segs = render("aaa", "aa", true);
    let texts: Vec<(&str, bool)> = segs.iter().map(|s| (s.text.as_str(), s.matched)).collect();
    assert_eq!(vec![("aa", true), ("a", false)], texts);
}

#[test]
fn styled_rendering_wraps_matches_in_escapes() {
    let styled = render_styled("Duct tape.", "t", true);
    assert_eq!("Duc\u{1b}[1;32mt\u{1b}[0m \u{1b}[1;32mt\u{1b}[0mape.", styled);
}

#[test]
fn full_search_renders_highlighted_lines() {
    let text = "Rust:\nsafe, fast, productive.\nPick three.\nDuct tape.";
    let out = render_matches("duct", text, true);
    assert_eq!(vec!["safe, fast, pro\u{1b}[1;32mduct\u{1b}[0mive."], out);
    let out = render_matches("rUsT", "Rust:\nTrust me.", false);
    assert_eq!(
        vec!["\u{1b}[1;32mRust\u{1b}[0m:", "T\u{1b}[1;32mrust\u{1b}[0m me."],
        out
    );
}

#[test]
fn styled_rendering_without_a_match_is_the_line() {
    let styled = render_styled("plain text", "zzz", true);
    assert_eq!("plain text", styled);
}
