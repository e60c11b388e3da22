use kumo::history::{filter_rows, History, HistoryEntry, HistoryUri};

fn entry(title: &str, views: u32) -> HistoryEntry {
    HistoryEntry { title: title.into(), views, last_access: 0 }
}

#[test]
fn normalizing_twice_changes_nothing() {
    for text in ["https://example.org//a///b/", "example.org", "https://x.org/a?q=1", "a//"] {
        let mut once = HistoryUri::new(text);
        once.normalize();
        let mut twice = once.clone();
        twice.normalize();
        assert_eq!(once, twice);
    }
}

#[test]
fn persisted_text_parses_back_to_the_same_key() {
    let mut history = History::new(Vec::new());
    for text in ["https://example.org//path/", "example.org/a//b", "http://x.org/y?z=1"] {
        let stored = history.visit(text).unwrap();
        let mut key = HistoryUri::new(text);
        key.normalize();
        let mut reparsed = HistoryUri::new(&stored);
        reparsed.normalize();
        assert_eq!(key, reparsed);
    }
}

#[test]
fn visit_then_read_back() {
    let mut history = History::new(vec![("https://b.org".to_string(), entry("B", 4))]);
    history.visit("https://a.org/x/");
    history.visit("https://a.org/x");
    assert_eq!(history.entry("https://a.org//x").unwrap().views, 2);
    assert_eq!(history.entry("https://b.org").unwrap().views, 4);
    assert!(history.entry("https://c.org").is_none());
}

#[test]
fn deleting_filtered_entries_empties_the_filtered_view() {
    let rows = vec![
        (HistoryUri::new("https://rust-lang.org"), entry("Rust", 1)),
        (HistoryUri::new("https://example.org"), entry("Example", 1)),
        (HistoryUri::new("https://docs.rs/x"), entry("rust docs", 1)),
    ];
    let shown = filter_rows(&rows, "rust");
    assert_eq!(shown.len(), 2);
    assert_eq!(shown[0].1.title, "Rust");
    assert_eq!(shown[1].1.title, "rust docs");

    let loaded = rows.iter().map(|(uri, entry)| (uri.to_string(true), entry.duplicate())).collect();
    let mut history = History::new(loaded);
    history.bulk_delete(Some("rust"));
    let remaining = history.snapshot();
    assert_eq!(remaining.len(), 1);
    assert!(filter_rows(&remaining, "rust").is_empty());
}

#[test]
fn completion_extends_typed_text() {
    let history = History::new(vec![
        ("https://example.org/path/segments".to_string(), entry("", 2)),
        ("https://example.net".to_string(), entry("", 1)),
    ]);
    for typed in ["example.org/pa", "https://example.org/path/seg", "example.n", "https://exa"] {
        let suggestion = history.autocomplete(typed).unwrap();
        assert!(suggestion.starts_with(typed), "{suggestion} does not extend {typed}");
    }
}

#[test]
fn parsed_text_reparses_to_the_same_parse() {
    for text in ["https://example.org//a///b/", "example.org", "a//", "", "x:", ":///", "file:/a/b", "a:b:c/d"] {
        let parsed = HistoryUri::new(text);
        let reparsed = HistoryUri::new(&parsed.to_string(true));
        assert_eq!(parsed, reparsed);
    }
}

#[test]
fn distinct_parsed_uris_have_distinct_texts() {
    let a = HistoryUri::new("https://example.org/a/b");
    let b = HistoryUri::new("https://example.org/a//b");
    let c = HistoryUri::new("https://example.org/a/b/");
    assert_ne!(a.to_string(true), b.to_string(true));
    assert_ne!(a.to_string(true), c.to_string(true));
    assert_ne!(b.to_string(true), c.to_string(true));
}
