use tiny_log_kv::kv_store::KvStore;

fn lines(raw: &[&str]) -> Vec<String> {
    raw.iter().map(|s| s.to_string()).collect()
}

#[test]
fn replay_of_empty_log_is_empty() {
    let store = KvStore::replay(&Vec::new());
    assert_eq!(store.get("a"), None);
}

#[test]
fn delete_precedence_on_replay() {
    let store = KvStore::replay(&lines(&["SET a 1", "SET b 2", "DEL a"]));
    assert_eq!(store.get("a"), None);
    assert_eq!(store.get("b"), Some(&"2".to_string()));
}

#[test]
fn later_set_wins_on_replay() {
    let store = KvStore::replay(&lines(&["SET k first", "SET k second"]));
    assert_eq!(store.get("k"), Some(&"second".to_string()));
}

#[test]
fn malformed_lines_contribute_nothing() {
    let store = KvStore::replay(&lines(&[
        "",
        "   ",
        "SET",
        "SET a",
        "DEL",
        "DEL a b",
        "JUNK a 1",
        "SET a 1",
    ]));
    assert_eq!(store.get("a"), Some(&"1".to_string()));
    assert_eq!(store.get("SET"), None);
    assert_eq!(store.get("JUNK"), None);
    assert_eq!(store.get("b"), None);
}

#[test]
fn value_keeps_embedded_spaces() {
    let store = KvStore::replay(&lines(&["SET k two words"]));
    assert_eq!(store.get("k"), Some(&"two words".to_string()));
}

#[test]
fn outer_whitespace_is_stripped_before_splitting() {
    let store = KvStore::replay(&lines(&["  SET a 1  ", "\tSET b 2\r"]));
    assert_eq!(store.get("a"), Some(&"1".to_string()));
    assert_eq!(store.get("b"), Some(&"2".to_string()));
}

#[test]
fn replayed_delete_of_absent_key_is_ignored() {
    let store = KvStore::replay(&lines(&["DEL ghost", "SET a 1"]));
    assert_eq!(store.get("ghost"), None);
    assert_eq!(store.get("a"), Some(&"1".to_string()));
}
