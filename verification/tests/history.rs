use kumo::history::{score_text, History, HistoryEntry, HistoryUri};

#[test]
fn history_history_uri_parsing() {
    let build_uri = |scheme: &str, base: &str, path: &[&str]| HistoryUri {
        scheme: scheme.into(),
        base: base.into(),
        path: path.iter().map(|s| String::from(*s)).collect(),
    };

    let uri = HistoryUri::new("example.org");
    let expected = build_uri("", "example.org", &[]);
    assert_eq!(uri, expected);

    let uri = HistoryUri::new("example.org/path");
    let expected = build_uri("", "example.org", &["path"]);
    assert_eq!(uri, expected);

    let uri = HistoryUri::new("https:");
    let expected = build_uri("https", "", &[]);
    assert_eq!(uri, expected);

    let uri = HistoryUri::new("https:/");
    let expected = build_uri("https", "", &[]);
    assert_eq!(uri, expected);

    let uri = HistoryUri::new("https://");
    let expected = build_uri("https", "", &[]);
    assert_eq!(uri, expected);

    let uri = HistoryUri::new("https://example.org");
    let expected = build_uri("https", "example.org", &[]);
    assert_eq!(uri, expected);

    let uri = HistoryUri::new("https://example.org/");
    let expected = build_uri("https", "example.org", &[""]);
    assert_eq!(uri, expected);

    let uri = HistoryUri::new("https://example.org/path");
    let expected = build_uri("https", "example.org", &["path"]);
    assert_eq!(uri, expected);

    let uri = HistoryUri::new("https://example.org/path/");
    let expected = build_uri("https", "example.org", &["path", ""]);
    assert_eq!(uri, expected);

    let uri = HistoryUri::new("https://example.org/path/segments");
    let expected = build_uri("https", "example.org", &["path", "segments"]);
    assert_eq!(uri, expected);

    let uri = HistoryUri::new("https://example.org/path/segments?query=a");
    let expected = build_uri("https", "example.org", &["path", "segments"]);
    assert_eq!(uri, expected);

    let uri = HistoryUri::new("https://example.org/path/segments?query=a&other=b");
    let expected = build_uri("https", "example.org", &["path", "segments"]);
    assert_eq!(uri, expected);

    let uri = HistoryUri::new("https://example.org//");
    let expected = build_uri("https", "example.org", &["", ""]);
    assert_eq!(uri, expected);

    let uri = HistoryUri::new("https://example.org/path//segment");
    let expected = build_uri("https", "example.org", &["path", "", "segment"]);
    assert_eq!(uri, expected);
}

#[test]
fn history_normalize_normalized_uri() {
    let mut uri = HistoryUri::new("https://example.org");
    uri.normalize();
    assert_eq!(uri, uri);

    let mut uri = HistoryUri::new("https://example.org/test/ing");
    uri.normalize();
    assert_eq!(uri, uri);
}

#[test]
fn history_normalize_trailing_slash() {
    let mut uri = HistoryUri::new("https://example.org/");
    uri.normalize();
    assert_eq!(uri, HistoryUri::new("https://example.org"));

    let mut uri = HistoryUri::new("https://example.org/test/");
    uri.normalize();
    assert_eq!(uri, HistoryUri::new("https://example.org/test"));
}

#[test]
fn history_normalize_multi_slash() {
    let mut uri = HistoryUri::new("https://example.org//");
    uri.normalize();
    assert_eq!(uri, HistoryUri::new("https://example.org"));

    let mut uri = HistoryUri::new("https://example.org/test//");
    uri.normalize();
    assert_eq!(uri, HistoryUri::new("https://example.org/test"));

    let mut uri = HistoryUri::new("https://example.org/test///ing");
    uri.normalize();
    assert_eq!(uri, HistoryUri::new("https://example.org/test/ing"));
}

#[test]
fn history_history_uri_autocomplete() {
    let uri = HistoryUri::new("https://example.org/path/segments/xxx");
    assert!(!uri.autocomplete(&"https://example.org/path/segments/xxx/longer".into()));
    assert!(!uri.autocomplete(&"https://example.org/path/segments/xxxlonger".into()));
    assert!(!uri.autocomplete(&"https://example.org/path/segments/xxx/".into()));
    assert!(!uri.autocomplete(&"https://example.org/path/segments/xxx".into()));
    assert!(!uri.autocomplete(&"https://example.org/path/seg/xxx".into()));
    assert!(uri.autocomplete(&"https://example.org/path/segments".into()));
    assert!(uri.autocomplete(&"https://example.org/".into()));
    assert!(uri.autocomplete(&"https://example.org".into()));
    assert!(!uri.autocomplete(&"http://example.org".into()));
    assert!(uri.autocomplete(&"example.org".into()));
    assert!(uri.autocomplete(&"example".into()));
    assert!(!uri.autocomplete(&"org".into()));
    assert!(uri.autocomplete(&"example.org/path/segments".into()));
    assert!(!uri.autocomplete(&"other.org/p".into()));
    assert!(!uri.autocomplete(&"example.org/path/segmen/".into()));
    assert!(!uri.autocomplete(&"example.org/path//segment".into()));
    assert!(!uri.autocomplete(&"example.org//".into()));
}

#[test]
fn uri_to_string_with_and_without_scheme() {
    let uri = HistoryUri::new("https://example.org/a/b?x=1");
    assert_eq!(uri.to_string(true), "https://example.org/a/b");
    assert_eq!(uri.to_string(false), "example.org/a/b");

    let uri = HistoryUri::new("example.org");
    assert_eq!(uri.to_string(true), "://example.org");
}

#[test]
fn query_cut_at_last_question_mark() {
    let uri = HistoryUri::new("https://a.org/x?y?z");
    assert_eq!(uri.path, vec![String::from("x?y")]);
}

#[test]
fn visit_counts_views_per_normalized_uri() {
    let mut history = History::new(Vec::new());
    assert_eq!(history.visit("https://example.org/a/"), Some("https://example.org/a".into()));
    assert_eq!(history.visit("https://example.org//a"), Some("https://example.org/a".into()));
    assert_eq!(history.visit("https:"), None);
    assert_eq!(history.len(), 1);

    // Two visits make this the completion for the base.
    history.visit("https://example.org/b");
    assert_eq!(history.autocomplete("example.org/"), Some("example.org/a".into()));
}

#[test]
fn autocomplete_prefers_most_viewed() {
    let loaded = vec![
        ("https://example.org".to_string(), HistoryEntry { title: "Ex".into(), views: 3, last_access: 0 }),
        ("https://exotic.org/x".to_string(), HistoryEntry { title: "Exo".into(), views: 9, last_access: 0 }),
    ];
    let history = History::new(loaded);
    assert_eq!(history.autocomplete("ex"), Some("exotic.org/x".into()));
    assert_eq!(history.autocomplete("exa"), Some("example.org/".into()));
    assert_eq!(history.autocomplete("https://exa"), Some("https://example.org/".into()));
    assert_eq!(history.autocomplete("ex?"), None);
    assert_eq!(history.autocomplete("https://"), None);
    assert_eq!(history.autocomplete("zzz"), None);
}

#[test]
fn title_and_delete() {
    let mut history = History::new(Vec::new());
    history.visit("https://kumo.org/page");
    assert_eq!(history.set_title("https://kumo.org/page/", "Kumo".into()), Some("https://kumo.org/page".into()));
    let found = history.matches("kumo");
    assert_eq!(found.len(), 1);
    assert_eq!(found.as_slice()[0].title, "Kumo");
    assert_eq!(found.as_slice()[0].uri, "https://kumo.org/page");
    // One occurrence in the URI, one in the lowercased title, and the base prefix.
    assert_eq!(found.as_slice()[0].score, 1002);

    assert_eq!(history.delete("https://kumo.org/page"), Some("https://kumo.org/page".into()));
    assert_eq!(history.len(), 0);
    assert_eq!(history.matches("kumo").len(), 0);
}

#[test]
fn matches_sorted_ascending_and_case_sensitivity() {
    let mut history = History::new(Vec::new());
    history.visit("https://a.org/rust");
    history.visit("https://rust.org/rust/rust");
    history.visit("https://b.org/Rust");

    let found = history.matches("rust");
    let scores: Vec<usize> = found.as_slice().iter().map(|m| m.score).collect();
    assert_eq!(scores, vec![1, 1, 1003]);

    // Uppercase input searches case-sensitively.
    let found = history.matches("Rust");
    assert_eq!(found.len(), 1);
    assert_eq!(found.as_slice()[0].uri, "https://b.org/Rust");

    assert_eq!(history.matches("").len(), 0);
}

#[test]
fn matches_cap_at_max() {
    let mut history = History::new(Vec::new());
    for i in 0..40 {
        history.visit(&format!("https://site{i}.org"));
    }
    assert_eq!(history.matches("site").len(), 25);
}

#[test]
fn bulk_delete_removes_matching_entries() {
    let mut history = History::new(Vec::new());
    history.visit("https://keep.org");
    history.visit("https://drop.org");
    history.set_title("https://keep.org", "Keep".into());
    history.bulk_delete(Some("drop"));
    assert_eq!(history.len(), 1);
    assert_eq!(history.matches("keep").len(), 1);
    history.bulk_delete(None);
    assert_eq!(history.len(), 0);
}

#[test]
fn loaded_duplicates_keep_last() {
    let loaded = vec![
        ("https://a.org".to_string(), HistoryEntry { title: "first".into(), views: 1, last_access: 5 }),
        ("https://a.org".to_string(), HistoryEntry { title: "second".into(), views: 2, last_access: 4 }),
    ];
    let history = History::new(loaded);
    assert_eq!(history.len(), 1);
    assert_eq!(history.matches("a.org").as_slice()[0].title, "second");
}

#[test]
fn text_scores_count_occurrences_and_prefix() {
    // Two occurrences in the URI, one in the title, and the title starts with the input.
    assert_eq!(score_text("https://rust.org/rust", "rust book", "rust.org", "rust"), 1003);
    // Only the base starts with the input; occurrences do not overlap.
    assert_eq!(score_text("https://aaa.org", "", "aaa.org", "aa"), 1001);
    // No occurrence and no prefix.
    assert_eq!(score_text("https://a.org", "title", "a.org", "zz"), 0);
    // The base is compared as it is given.
    assert_eq!(score_text("https://rust.org", "", "Rust.org", "rust"), 1);
}

#[test]
fn matches_have_distinct_uris() {
    let mut history = History::new(Vec::new());
    for text in ["https://a.org/x", "https://a.org/x/", "https://a.org//x", "http://a.org/x", "https://a.org/x?q=1"] {
        history.visit(text);
    }
    let found = history.matches("a.org");
    assert_eq!(found.len(), 2);
    let uris: Vec<&str> = found.as_slice().iter().map(|m| m.uri.as_str()).collect();
    assert_ne!(uris[0], uris[1]);
}

#[test]
fn visits_of_one_normalized_uri_share_an_entry() {
    let mut history = History::new(Vec::new());
    history.visit("https://a.org/x/");
    history.visit("https://a.org//x?q=1");
    let found = history.matches("a.org");
    assert_eq!(found.len(), 1);
    assert_eq!(found.as_slice()[0].uri, "https://a.org/x");
}

#[test]
fn titles_only_change_existing_entries() {
    let mut history = History::new(Vec::new());
    history.visit("https://a.org/");
    history.set_title("https://a.org", "Foo".into());
    let found = history.matches("Foo");
    assert_eq!(found.len(), 1);
    assert_eq!(found.as_slice()[0].title, "Foo");
    assert_eq!(found.as_slice()[0].uri, "https://a.org");

    let mut fresh = History::new(Vec::new());
    fresh.set_title("https://a.org", "Foo".into());
    assert_eq!(fresh.matches("Foo").len(), 0);
}

#[test]
fn deletes_seen_through_matches() {
    let mut history = History::new(Vec::new());
    history.visit("https://a.org/x");
    history.visit("https://b.org");
    history.delete("https://a.org/x/?q=1");
    assert_eq!(history.matches("a.org").len(), 0);
    assert_eq!(history.matches("b.org").len(), 1);

    let mut history = History::new(Vec::new());
    history.visit("https://a.org");
    history.visit("https://b.org");
    history.bulk_delete(Some("a.org"));
    assert_eq!(history.matches("a.org").len(), 0);
    assert_eq!(history.matches("b.org").len(), 1);
}

#[test]
fn matches_order_and_case() {
    let mut history = History::new(Vec::new());
    history.visit("https://x.org/foo");
    history.visit("https://foo.org");
    let uris: Vec<String> = history.matches("foo").as_slice().iter().map(|m| m.uri.clone()).collect();
    assert_eq!(uris, vec!["https://x.org/foo".to_string(), "https://foo.org".to_string()]);
    assert_eq!(history.matches("FOO").len(), 0);
    assert_eq!(history.matches("").len(), 0);
}

#[test]
fn loaded_text_is_parsed() {
    let loaded = vec![
        ("https://a.org/x?q=1".to_string(), HistoryEntry { title: "A".into(), views: 2, last_access: 0 }),
        ("https://a.org/x".to_string(), HistoryEntry { title: "B".into(), views: 3, last_access: 0 }),
    ];
    let history = History::new(loaded);
    assert_eq!(history.len(), 1);
    assert_eq!(history.entry("https://a.org/x").unwrap().title, "B");
}
