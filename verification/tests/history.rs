use clipit::history::{hash_hex, History};

#[test]
fn dedupe_moves_to_front_without_duplicates() {
    let mut h = History::default();
    assert!(h.add_text("a".into(), &[]));
    assert!(h.add_text("b".into(), &[]));
    assert!(h.add_text("a".into(), &[]));
    let items = h.display();
    assert_eq!(items.len(), 2);
    assert_eq!(items[0].text, "a");
}

#[test]
fn re_copied_entry_keeps_pin_state() {
    let mut h = History::default();
    h.add_text("a".into(), &[]);
    h.toggle_pin(&hash_hex(b"a"));
    h.add_text("b".into(), &[]);
    h.add_text("a".into(), &[]);
    let items = h.display();
    assert_eq!(items[0].text, "a");
    assert!(items[0].pinned);
}

#[test]
fn clear_keeps_pinned_only() {
    let mut h = History::default();
    h.add_text("a".into(), &[]);
    h.add_text("b".into(), &[]);
    h.toggle_pin(&hash_hex(b"b"));
    h.clear();
    assert_eq!(h.total(), 1);
    assert_eq!(h.display()[0].text, "b");
}

#[test]
fn trim_respects_pins_and_max() {
    let mut h = History::default();
    h.add_text("a".into(), &[]);
    h.add_text("b".into(), &[]);
    h.add_text("c".into(), &[]);
    h.add_text("p".into(), &[]);
    h.toggle_pin(&hash_hex(b"p"));
    h.trim(2);
    assert_eq!(h.total(), 3);
    let texts: Vec<String> = h.display().into_iter().map(|e| e.text).collect();
    assert!(texts.contains(&"p".to_string()));
    assert!(!texts.contains(&"a".to_string()));
}

#[test]
fn ignore_patterns_block_capture() {
    let mut h = History::default();
    let patterns = vec!["secret".to_string(), "Token:".to_string()];
    assert!(!h.add_text("my secret data".into(), &patterns));
    assert!(!h.add_text("Token: abc123".into(), &patterns));
    assert!(h.add_text("harmless".into(), &patterns));
    assert_eq!(h.total(), 1);
}

#[test]
fn delete_returns_entry_and_undo_restores() {
    let mut h = History::default();
    h.add_text("a".into(), &[]);
    h.add_text("b".into(), &[]);
    let removed = h.delete(&hash_hex(b"b")).unwrap();
    assert_eq!(h.total(), 1);
    h.restore(removed);
    assert_eq!(h.display()[0].text, "b");
}

#[test]
fn prune_drops_old_unpinned_keeps_pinned() {
    let mut h = History::default();
    h.add_text("old".into(), &[]);
    h.entries[0].ts = 1;
    h.add_text("pinned-old".into(), &[]);
    h.entries[0].ts = 1;
    h.toggle_pin(&hash_hex(b"pinned-old"));
    h.add_text("fresh".into(), &[]);
    h.prune(1);
    let texts: Vec<String> = h.display().into_iter().map(|e| e.text).collect();
    assert!(texts.contains(&"fresh".to_string()));
    assert!(texts.contains(&"pinned-old".to_string()));
    assert!(!texts.contains(&"old".to_string()));
}
