use flowly_gui::history::{HistoryEntry, HistoryStore, KeyValueRow, MAX_HISTORY};

fn entry(id: u64, url: &str) -> HistoryEntry {
    HistoryEntry {
        id,
        method: "POST".to_string(),
        url: url.to_string(),
        params: vec![KeyValueRow { key: "q".into(), value: "1".into(), enabled: true }],
        form_rows: vec![],
        headers: vec![("Accept".into(), "*/*".into())],
        body_type: "none".to_string(),
        body_raw_format: "Text".to_string(),
        body: Some(vec![1, 2, 3]),
        timestamp: 1_700_000_000,
    }
}

#[test]
fn next_id_follows_the_largest_loaded_id() {
    let mut store = HistoryStore::new(vec![entry(4, "a"), entry(9, "b"), entry(2, "c")]);
    let saved = store.save(entry(0, "d"));
    assert_eq!(saved.id, 10);
    assert_eq!(HistoryStore::new(vec![]).save(entry(77, "x")).id, 1);
}

#[test]
fn save_puts_the_entry_first_and_keeps_its_fields() {
    let mut store = HistoryStore::new(vec![entry(1, "old")]);
    let saved = store.save(entry(123, "new"));
    let list = store.list();
    assert_eq!(list.len(), 2);
    assert_eq!(list[0].id, saved.id);
    assert_eq!(list[0].url, "new");
    assert_eq!(list[0].body, Some(vec![1, 2, 3]));
    assert_eq!(list[0].params[0].key, "q");
    assert_eq!(list[1].url, "old");
}

#[test]
fn history_keeps_at_most_200_entries() {
    let mut store = HistoryStore::new(vec![]);
    for i in 0..(MAX_HISTORY + 5) {
        store.save(entry(0, &format!("u{i}")));
    }
    let list = store.list();
    assert_eq!(list.len(), MAX_HISTORY);
    assert_eq!(list[0].url, format!("u{}", MAX_HISTORY + 4));
    assert_eq!(list[MAX_HISTORY - 1].url, "u5");
}

#[test]
fn delete_and_clear() {
    let mut store = HistoryStore::new(vec![]);
    let a = store.save(entry(0, "a"));
    let b = store.save(entry(0, "b"));
    store.delete(a.id);
    let ids: Vec<u64> = store.list().iter().map(|e| e.id).collect();
    assert_eq!(ids, vec![b.id]);
    store.delete(999);
    assert_eq!(store.list().len(), 1);
    store.clear();
    assert!(store.list().is_empty());
    assert_eq!(store.save(entry(0, "c")).id, b.id + 1);
}

#[test]
fn missing_fields_take_their_defaults() {
    assert!(flowly_gui::history::default_enabled());
    assert_eq!(flowly_gui::history::default_body_type(), "none");
    assert_eq!(flowly_gui::history::default_body_raw_format(), "Text");
}

#[test]
fn next_id_reports_the_id_the_next_save_gets() {
    let mut store = HistoryStore::new(vec![entry(5, "a")]);
    assert_eq!(store.next_id(), 6);
    let saved = store.save(entry(0, "b"));
    assert_eq!(saved.id, 6);
    assert_eq!(store.next_id(), 7);
}

#[test]
fn ids_grow_with_each_save_even_after_clear_and_delete() {
    let mut store = HistoryStore::new(vec![entry(7, "a"), entry(3, "b")]);
    assert_eq!(store.save(entry(0, "c")).id, 8);
    store.delete(8);
    assert_eq!(store.save(entry(0, "d")).id, 9);
    store.clear();
    let _ = store.list();
    assert_eq!(store.save(entry(0, "e")).id, 10);
}
