use newsdeck::chat::{ChatTable, DedupCursor, TelegramMonitor};

#[test]
fn cursor_forwards_only_strictly_newer_ids() {
    let mut c = DedupCursor::new();
    assert!(c.observe(7, 5));
    assert!(!c.observe(7, 5));
    assert!(!c.observe(7, 4));
    assert!(c.observe(7, 6));
    assert!(!c.observe(7, 6));
}

#[test]
fn cursor_tracks_conversations_independently() {
    let mut c = DedupCursor::new();
    assert!(c.observe(1, 10));
    assert!(c.observe(2, 3));
    assert!(!c.observe(1, 10));
    assert!(c.observe(2, 4));
    assert!(c.observe(1, 11));
}

#[test]
fn chat_table_overwrites_and_sorts_by_key() {
    let mut t = ChatTable::new();
    t.upsert("alice", "hi");
    t.upsert("bob", "yo");
    t.upsert("alice", "bye");
    let entries = t.entries();
    assert_eq!(entries.len(), 2);
    assert_eq!(entries[0].0, "alice");
    assert_eq!(entries[0].1, "bye");
    assert_eq!(entries[1].0, "bob");
    assert_eq!(entries[1].1, "yo");
}

#[test]
fn chat_table_orders_unicode_keys_by_code_point() {
    let mut t = ChatTable::new();
    t.upsert("zeta", "1");
    t.upsert("Alpha", "2");
    t.upsert("alpha", "3");
    let entries = t.entries();
    assert_eq!(entries[0].0, "Alpha");
    assert_eq!(entries[1].0, "alpha");
    assert_eq!(entries[2].0, "zeta");
}

#[test]
fn monitor_filters_untargeted_conversations() {
    let mut m = TelegramMonitor::new();
    let targets: Vec<i64> = vec![100, 200];
    assert!(m.handle_dialog(&targets, 300, 1, Some("x"), "hello").is_none());
    assert!(m.handle_dialog(&targets, 100, 1, Some("x"), "hello").is_some());
}

#[test]
fn monitor_deduplicates_and_normalizes() {
    let mut m = TelegramMonitor::new();
    let targets: Vec<i64> = vec![42];
    let first = m.handle_dialog(&targets, 42, 9, Some("carol"), "line one\nline two");
    let (sender, text) = first.unwrap();
    assert_eq!(sender, "carol");
    assert_eq!(text, "line one line two");
    assert!(m.handle_dialog(&targets, 42, 9, Some("carol"), "line one\nline two").is_none());
    assert!(m.handle_dialog(&targets, 42, 10, None, "again").is_some());
}

#[test]
fn monitor_uses_fallback_sender_name() {
    let mut m = TelegramMonitor::new();
    let targets: Vec<i64> = vec![5];
    let r = m.handle_dialog(&targets, 5, 1, None, "msg").unwrap();
    assert_eq!(r.0, "Unknown");
}
