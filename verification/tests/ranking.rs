use launcher_core::order::{fuzzy_match, top_matches};
use launcher_core::rank::rank;

#[test]
fn test_fuzzy_match() {
    let items = vec![
        String::from("foo/bar"),
        String::from("bar/foo"),
        String::from("foobar"),
    ];
    let result = fuzzy_match("foo", items);
    assert_eq!(
        result,
        vec![
            (String::from("foo/bar"), 88),
            (String::from("foobar"), 88),
            (String::from("bar/foo"), 84)
        ]
    );
}

#[test]
fn prefix_and_contiguous_outscore_later_match() {
    let items = vec![
        String::from("foo/bar"),
        String::from("bar/foo"),
        String::from("foobar"),
    ];
    let result = fuzzy_match("foo", items);
    assert_eq!(result.len(), 3);
    assert_eq!(result[2].0, "bar/foo");
    assert!(result[0].1 > result[2].1);
    assert!(result[1].1 > result[2].1);
}

#[test]
fn empty_query_returns_every_candidate_once() {
    let items = vec![
        String::from("alpha"),
        String::from("beta"),
        String::from("gamma"),
    ];
    let result = rank("", items);
    assert_eq!(result.len(), 3);
    assert_eq!(result[0].0, "alpha");
    assert_eq!(result[1].0, "beta");
    assert_eq!(result[2].0, "gamma");
    // Empty-query scores are deterministic and uniform.
    assert_eq!(result[0].1, result[1].1);
    assert_eq!(result[1].1, result[2].1);
    assert!(result[0].1 > 0);
}

#[test]
fn empty_candidates_give_empty_result() {
    let items: Vec<String> = Vec::new();
    assert!(rank("anything", items).is_empty());
}

#[test]
fn non_subsequence_is_excluded_not_zero_scored() {
    let items = vec![String::from("abc"), String::from("axbxc")];
    let result = rank("cba", items);
    assert!(result.is_empty());
    let result = rank("abc", vec![String::from("axbxc")]);
    assert_eq!(result.len(), 1);
    assert!(result[0].1 > 0);
}

#[test]
fn smart_case_uppercase_query_matches_exact_case_only() {
    let items = vec![String::from("foo bar"), String::from("Foo Bar")];
    let result = rank("Foo", items);
    assert_eq!(result.len(), 1);
    assert_eq!(result[0].0, "Foo Bar");
}

#[test]
fn smart_case_lowercase_query_matches_both_cases() {
    let items = vec![String::from("foo bar"), String::from("Foo Bar")];
    let result = rank("foo", items);
    assert_eq!(result.len(), 2);
    assert_eq!(result[0].0, "foo bar");
    assert_eq!(result[1].0, "Foo Bar");
}

#[test]
fn ranking_is_idempotent() {
    let items = || {
        vec![
            String::from("wezterm"),
            String::from("firefox"),
            String::from("files"),
        ]
    };
    let first = rank("fi", items());
    let second = rank("fi", items());
    let third = rank("fi", items());
    assert_eq!(first, second);
    assert_eq!(second, third);
}

#[test]
fn equal_scores_keep_input_order() {
    let items = vec![String::from("afoo"), String::from("bfoo")];
    let result = rank("foo", items);
    assert_eq!(result.len(), 2);
    assert_eq!(result[0].1, result[1].1);
    assert_eq!(result[0].0, "afoo");
    assert_eq!(result[1].0, "bfoo");
    // The caller-side sort is stable too.
    let sorted = fuzzy_match("foo", vec![String::from("afoo"), String::from("bfoo")]);
    assert_eq!(sorted[0].0, "afoo");
    assert_eq!(sorted[1].0, "bfoo");
}

#[test]
fn exact_equality_outscores_a_longer_text() {
    let result = fuzzy_match("foo", vec![String::from("foox"), String::from("foo")]);
    assert_eq!(result[0].0, "foo");
    assert_eq!(result[1].0, "foox");
    assert!(result[0].1 > result[1].1);
}

#[test]
fn top_matches_sorts_and_truncates() {
    let items = vec![
        String::from("bar/foo"),
        String::from("foo/bar"),
        String::from("xfoo"),
    ];
    let result = top_matches("foo", items, 2);
    assert_eq!(result.len(), 2);
    assert_eq!(result[0].0, "foo/bar");
    // A larger cap returns everything that matched.
    let items = vec![String::from("bar/foo"), String::from("nope")];
    let result = top_matches("foo", items, 10);
    assert_eq!(result.len(), 1);
    assert_eq!(result[0].0, "bar/foo");
}
