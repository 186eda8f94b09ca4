use ichigyo_ls::diagnostics::{build_diagnostics, severity_from, Severity};
use ichigyo_ls::fixes::build_fixes;
use ichigyo_ls::store::DocumentStore;
use ichigyo_ls::textlint::{FixCommand, Position, PositionEncoding, TextlintMessage};

fn message(rule: &str, line: u32, column: u32, severity: u32, fix: Option<(usize, usize, &str)>) -> TextlintMessage {
    TextlintMessage {
        rule_id: rule.to_string(),
        message: format!("problem of {rule}"),
        line,
        column,
        severity,
        fix: fix.map(|(a, b, t)| FixCommand {
            range: [a, b],
            text: t.to_string(),
        }),
    }
}

#[test]
fn severity_one_is_warning_and_others_error() {
    assert_eq!(severity_from(1), Severity::Warning);
    for s in [0u32, 2, 3, 99, u32::MAX] {
        assert_eq!(severity_from(s), Severity::Error);
    }
}

#[test]
fn diagnostics_follow_messages() {
    let text = "abc\nあいう";
    let msgs = vec![
        message("r1", 2, 2, 1, None),
        message("r2", 1, 3, 2, Some((0, 1, "A"))),
        message("r3", 0, 0, 7, None),
    ];
    let ds = build_diagnostics(&msgs, PositionEncoding::Utf8, text);
    assert_eq!(ds.len(), 3);
    assert_eq!(ds[0].start, Position { line: 1, character: 3 });
    assert_eq!(ds[0].start, ds[0].end);
    assert_eq!(ds[0].severity, Severity::Warning);
    assert_eq!(ds[0].rule_id, "r1");
    assert_eq!(ds[0].message, "problem of r1");
    assert_eq!(ds[1].start, Position { line: 0, character: 2 });
    assert_eq!(ds[1].severity, Severity::Error);
    assert_eq!(ds[2].start, Position { line: 0, character: 0 });
    assert_eq!(ds[2].severity, Severity::Error);
}

#[test]
fn diagnostics_of_no_messages() {
    assert!(build_diagnostics(&Vec::new(), PositionEncoding::Utf16, "x").is_empty());
}

#[test]
fn fixes_filtered_by_viewport() {
    let text = "l1\nl2\nl3\nl4\nl5 xx\nl6\nl7\nl8\nl9 yy\n";
    let msgs = vec![
        message("a", 1, 1, 2, Some((0, 2, "A"))),
        message("b", 5, 4, 2, Some((15, 17, "B"))),
        message("c", 9, 4, 2, Some((30, 32, "C"))),
    ];
    let edits = build_fixes(text, &msgs, 1, 4, PositionEncoding::Utf16);
    assert_eq!(edits.len(), 1);
    assert_eq!(edits[0].new_text, "B");
    assert_eq!(edits[0].start, Position { line: 4, character: 3 });
    assert_eq!(edits[0].end, Position { line: 4, character: 5 });
    assert_eq!(edits[0].title, "Fix: problem of b (b)");
}

#[test]
fn fixes_of_lines_zero_to_four() {
    let text = "l1\nl2\nl3\nl4\nl5 xx\nl6\nl7\nl8\nl9 yy\n";
    let msgs = vec![
        message("a", 1, 1, 2, Some((0, 2, "A"))),
        message("b", 5, 4, 2, Some((15, 17, "B"))),
        message("c", 9, 4, 2, Some((30, 32, "C"))),
    ];
    let edits = build_fixes(text, &msgs, 0, 4, PositionEncoding::Utf16);
    assert_eq!(edits.len(), 2);
    assert_eq!(edits[0].new_text, "A");
    assert_eq!(edits[1].new_text, "B");
}

#[test]
fn message_without_fix_is_never_offered() {
    let msgs = vec![message("max-ten", 1, 1, 1, None)];
    assert!(build_fixes("text", &msgs, 0, 5, PositionEncoding::Utf16).is_empty());
    assert!(build_fixes("text", &msgs, 0, u32::MAX, PositionEncoding::Utf8).is_empty());
}

#[test]
fn fixes_keep_order_and_overlaps() {
    let text = "test がが error";
    let msgs = vec![
        message("no-doubled-joshi", 1, 5, 2, Some((6, 7, "けれど"))),
        message("other", 1, 5, 2, Some((5, 7, "x"))),
    ];
    let edits = build_fixes(text, &msgs, 0, 10, PositionEncoding::Utf8);
    assert_eq!(edits.len(), 2);
    assert_eq!(edits[0].start, Position { line: 0, character: 8 });
    assert_eq!(edits[0].end, Position { line: 0, character: 11 });
    assert_eq!(edits[0].new_text, "けれど");
    assert!(edits[0].title.contains("no-doubled-joshi"));
    assert_eq!(edits[1].start, Position { line: 0, character: 5 });
}

#[test]
fn store_upsert_replaces_whole_entry() {
    let mut store = DocumentStore::new();
    assert!(store.get("doc1").is_none());
    store.upsert("doc1", "v1".to_string(), vec![message("a", 1, 1, 2, None)]);
    let e = store.get("doc1").unwrap();
    assert_eq!(e.text, "v1");
    assert_eq!(e.messages[0].rule_id, "a");
    store.upsert("doc1", "v2".to_string(), vec![message("b", 1, 1, 2, None)]);
    let e = store.get("doc1").unwrap();
    assert_eq!(e.text, "v2");
    assert_eq!(e.messages.len(), 1);
    assert_eq!(e.messages[0].rule_id, "b");
}

#[test]
fn store_update_text_keeps_messages() {
    let mut store = DocumentStore::new();
    store.update_text("doc", "nothing".to_string());
    assert!(store.get("doc").is_none());
    store.upsert("doc", "old".to_string(), vec![message("a", 1, 1, 2, None)]);
    store.update_text("doc", "new".to_string());
    let e = store.get("doc").unwrap();
    assert_eq!(e.text, "new");
    assert_eq!(e.messages[0].rule_id, "a");
}

#[test]
fn store_remove_and_other_keys() {
    let mut store = DocumentStore::new();
    store.upsert("a", "ta".to_string(), vec![]);
    store.upsert("b", "tb".to_string(), vec![]);
    store.remove("a");
    assert!(store.get("a").is_none());
    assert_eq!(store.get("b").unwrap().text, "tb");
}
