use launcher_core::history::{decode_request, find_key, parse_history};
use launcher_core::text::{contains_ascii_upper, strip_prefix_str, trim_blanks};

#[test]
fn parse_history_numbers_entries_in_order() {
    let listing = "12\thello world\n34\tsecond entry\n";
    let entries = parse_history(listing);
    assert_eq!(entries.len(), 2);
    assert_eq!(entries[0].id, 0);
    assert_eq!(entries[0].key, "12");
    assert_eq!(entries[0].content, "hello world");
    assert_eq!(entries[1].id, 1);
    assert_eq!(entries[1].key, "34");
    assert_eq!(entries[1].content, "second entry");
}

#[test]
fn parse_history_skips_lines_without_a_tab() {
    let listing = "junk line\n7\tkept\n\nanother junk";
    let entries = parse_history(listing);
    assert_eq!(entries.len(), 1);
    assert_eq!(entries[0].id, 0);
    assert_eq!(entries[0].key, "7");
    assert_eq!(entries[0].content, "kept");
}

#[test]
fn parse_history_of_empty_text_is_empty() {
    assert!(parse_history("").is_empty());
}

#[test]
fn parse_history_splits_at_the_first_tab_only() {
    let entries = parse_history("9\ta\tb");
    assert_eq!(entries.len(), 1);
    assert_eq!(entries[0].key, "9");
    assert_eq!(entries[0].content, "a\tb");
}

#[test]
fn find_key_returns_the_selected_entry() {
    let entries = parse_history("k0\tzero\nk1\tone\n");
    assert_eq!(find_key(&entries, 1), Some(String::from("k1")));
    assert_eq!(find_key(&entries, 5), None);
}

#[test]
fn decode_request_appends_tab_and_space() {
    assert_eq!(decode_request(&String::from("12")), "12\t ");
}

#[test]
fn trim_blanks_strips_both_ends() {
    assert_eq!(trim_blanks("  foo bar \t"), "foo bar");
    assert_eq!(trim_blanks("foo"), "foo");
    assert_eq!(trim_blanks("   "), "");
    assert_eq!(trim_blanks(""), "");
}

#[test]
fn strip_prefix_str_requires_the_prefix() {
    assert_eq!(strip_prefix_str(":v query", ":v"), Some(" query"));
    assert_eq!(strip_prefix_str(":v", ":v"), Some(""));
    assert_eq!(strip_prefix_str("query", ":v"), None);
    assert_eq!(strip_prefix_str(":x query", ":v"), None);
}

#[test]
fn history_entries_rank_by_their_content() {
    let entries = parse_history("a\tfirefox window\nb\tterminal emulator\n");
    let best = launcher_core::order::top_matches("term", entries, 10);
    assert_eq!(best.len(), 1);
    assert_eq!(best[0].0.key, "b");
}

#[test]
fn matching_handles_characters_beyond_ascii() {
    let items = vec![String::from("caf\u{e9}"), String::from("tea")];
    let result = launcher_core::rank::rank("\u{e9}", items);
    assert_eq!(result.len(), 1);
    assert_eq!(result[0].0, "caf\u{e9}");
}

#[test]
fn contains_ascii_upper_detects_capitals() {
    assert!(contains_ascii_upper("Foo"));
    assert!(!contains_ascii_upper("foo 123"));
    assert!(!contains_ascii_upper(""));
}
