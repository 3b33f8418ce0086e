use tiny_log_kv::kv_store::KvStore;
use tiny_log_kv::log::{del_record_line, set_record_line};

// A session mirroring the store's intended use: every committed mutation
// first has its record line appended to the (here, in-memory) log, and a
// later session replays that log.

#[test]
fn test_set_get_delete() {
    let mut log: Vec<String> = Vec::new();

    {
        let mut store = KvStore::new();
        log.push(set_record_line("a", "1"));
        store.set("a".to_string(), "1".to_string());
        log.push(set_record_line("b", "2"));
        store.set("b".to_string(), "2".to_string());
        assert_eq!(store.get("a"), Some(&"1".to_string()));
        assert_eq!(store.get("b"), Some(&"2".to_string()));
        log.push(del_record_line("a"));
        store.delete("a");
        assert_eq!(store.get("a"), None);
    }

    // Reload: "a" should be gone, "b" should remain!
    {
        let store = KvStore::replay(&log);
        assert_eq!(store.get("a"), None);
        assert_eq!(store.get("b"), Some(&"2".to_string()));
    }
}

#[test]
fn set_then_get_same_session() {
    let mut store = KvStore::new();
    store.set("k".to_string(), "v".to_string());
    assert_eq!(store.get("k"), Some(&"v".to_string()));
}

#[test]
fn set_overwrites_in_memory() {
    let mut store = KvStore::new();
    store.set("k".to_string(), "old".to_string());
    store.set("k".to_string(), "new".to_string());
    assert_eq!(store.get("k"), Some(&"new".to_string()));
}

#[test]
fn get_absent_key() {
    let store = KvStore::new();
    assert_eq!(store.get("missing"), None);
}

#[test]
fn delete_present_key_reports_presence() {
    let mut store = KvStore::new();
    store.set("a".to_string(), "1".to_string());
    assert!(store.delete("a"));
    assert_eq!(store.get("a"), None);
}

#[test]
fn delete_absent_is_no_op_on_state_but_still_logged() {
    let mut log: Vec<String> = Vec::new();
    let mut store = KvStore::new();

    // The record line is produced, and would be appended, unconditionally.
    let line = del_record_line("z");
    assert_eq!(line, "DEL z");
    log.push(line);
    let was_present = store.delete("z");
    assert!(!was_present);
    assert_eq!(store.get("z"), None);
    assert_eq!(log.len(), 1);

    // The logged DEL stays harmless on replay too.
    let reopened = KvStore::replay(&log);
    assert_eq!(reopened.get("z"), None);
}

#[test]
fn durability_across_restart() {
    let mut log: Vec<String> = Vec::new();
    {
        let mut store = KvStore::new();
        log.push(set_record_line("a", "1"));
        store.set("a".to_string(), "1".to_string());
    }
    let reopened = KvStore::replay(&log);
    assert_eq!(reopened.get("a"), Some(&"1".to_string()));
}

#[test]
fn full_session_scenario() {
    let mut log: Vec<String> = Vec::new();

    let mut store = KvStore::new();
    log.push(set_record_line("a", "1"));
    store.set("a".to_string(), "1".to_string());
    log.push(set_record_line("b", "2"));
    store.set("b".to_string(), "2".to_string());
    assert_eq!(store.get("a"), Some(&"1".to_string()));
    assert_eq!(store.get("b"), Some(&"2".to_string()));
    log.push(del_record_line("a"));
    assert!(store.delete("a"));
    assert_eq!(store.get("a"), None);

    let reopened = KvStore::replay(&log);
    assert_eq!(reopened.get("a"), None);
    assert_eq!(reopened.get("b"), Some(&"2".to_string()));
}
