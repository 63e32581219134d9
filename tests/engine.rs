use statehouse::engine::StateMachine;
use statehouse::memory::InMemoryStorage;
use statehouse::records::{Snapshot, SnapshotMetadata, StateRecord, StorageConfig, SNAPSHOT_VERSION};
use statehouse::storage::Storage;
use statehouse::types::StateError;

fn json(text: &str) -> serde_json::Value {
    serde_json::from_str(text).unwrap()
}

fn engine() -> StateMachine<InMemoryStorage> {
    StateMachine::new(InMemoryStorage::new())
}

fn commit_write(sm: &mut StateMachine<InMemoryStorage>, key: &str, value: serde_json::Value) -> u64 {
    let txn_id = sm.begin_transaction(None).unwrap();
    sm.write(&txn_id, "default".to_string(), "agent-1".to_string(), key.to_string(), value).unwrap();
    sm.commit(&txn_id).unwrap()
}

fn commit_delete(sm: &mut StateMachine<InMemoryStorage>, key: &str) -> u64 {
    let txn_id = sm.begin_transaction(None).unwrap();
    sm.delete(&txn_id, "default".to_string(), "agent-1".to_string(), key.to_string()).unwrap();
    sm.commit(&txn_id).unwrap()
}

#[test]
fn test_transaction_lifecycle() {
    let mut sm = engine();
    let txn_id = sm.begin_transaction(None).unwrap();
    sm.write(&txn_id, "default".to_string(), "agent-1".to_string(), "key1".to_string(), json(r#"{"value": 42}"#)).unwrap();
    let commit_ts = sm.commit(&txn_id).unwrap();
    assert!(commit_ts > 0);
    let state = sm.get_state("default", "agent-1", "key1").unwrap();
    assert!(state.is_some());
    let record = state.unwrap();
    assert_eq!(record.value.unwrap()["value"], 42);
}

#[test]
fn test_delete() {
    let mut sm = engine();
    let txn_id = sm.begin_transaction(None).unwrap();
    sm.write(&txn_id, "default".to_string(), "agent-1".to_string(), "key1".to_string(), json(r#"{"value": 42}"#)).unwrap();
    sm.commit(&txn_id).unwrap();
    let txn_id = sm.begin_transaction(None).unwrap();
    sm.delete(&txn_id, "default".to_string(), "agent-1".to_string(), "key1".to_string()).unwrap();
    sm.commit(&txn_id).unwrap();
    let state = sm.get_state("default", "agent-1", "key1").unwrap();
    assert!(state.is_some());
    assert!(state.unwrap().deleted);
}

#[test]
fn test_versioning() {
    let mut sm = engine();
    let txn_id = sm.begin_transaction(None).unwrap();
    sm.write(&txn_id, "default".to_string(), "agent-1".to_string(), "key1".to_string(), json(r#"{"value": 1}"#)).unwrap();
    sm.commit(&txn_id).unwrap();
    let txn_id = sm.begin_transaction(None).unwrap();
    sm.write(&txn_id, "default".to_string(), "agent-1".to_string(), "key1".to_string(), json(r#"{"value": 2}"#)).unwrap();
    sm.commit(&txn_id).unwrap();
    let state_v1 = sm.get_state_at_version("default", "agent-1", "key1", 1).unwrap();
    assert_eq!(state_v1.unwrap().value.unwrap()["value"], 1);
    let state_v2 = sm.get_state_at_version("default", "agent-1", "key1", 2).unwrap();
    assert_eq!(state_v2.unwrap().value.unwrap()["value"], 2);
    let state_latest = sm.get_state("default", "agent-1", "key1").unwrap();
    assert_eq!(state_latest.unwrap().value.unwrap()["value"], 2);
}

#[test]
fn test_read_after_write() {
    let mut sm = engine();
    let txn_id = sm.begin_transaction(None).unwrap();
    sm.write(&txn_id, "default".to_string(), "agent-1".to_string(), "counter".to_string(), serde_json::Value::from(1)).unwrap();
    sm.commit(&txn_id).unwrap();
    let state = sm.get_state("default", "agent-1", "counter").unwrap();
    assert!(state.is_some());
    assert_eq!(state.unwrap().value.unwrap(), serde_json::Value::from(1));
}

#[test]
fn test_aborted_tx_has_no_effect() {
    let mut sm = engine();
    let txn_id = sm.begin_transaction(None).unwrap();
    sm.write(&txn_id, "default".to_string(), "agent-1".to_string(), "temp".to_string(), serde_json::Value::from(42)).unwrap();
    sm.abort(&txn_id).unwrap();
    let state = sm.get_state("default", "agent-1", "temp").unwrap();
    assert!(state.is_none());
}

#[test]
fn test_transaction_timeout() {
    let mut sm = engine();
    // begun at 0 ms with a 100 ms timeout, committed at 150 ms
    let txn_id = sm.begin_transaction_at("txn-timeout".to_string(), 0, Some(100)).unwrap();
    let result = sm.commit_at(&txn_id, 150);
    assert!(result.is_err());
    assert!(result.unwrap_err().message().contains("expired"));
}

#[test]
fn test_list_keys_after_operations() {
    let mut sm = engine();
    for i in 1..=5 {
        commit_write(&mut sm, &format!("key{}", i), serde_json::Value::from(i));
    }
    commit_delete(&mut sm, "key3");
    let keys = sm.list_keys("default", "agent-1").unwrap();
    assert_eq!(keys.len(), 4);
    assert!(!keys.contains(&"key3".to_string()));
}

#[test]
fn test_replay_determinism() {
    let mut sm = engine();
    for i in 1..=5 {
        commit_write(&mut sm, &format!("key{}", i), json(&format!(r#"{{"step": {}}}"#, i)));
    }
    let events = sm.replay("default", "agent-1", None, None).unwrap();
    assert_eq!(events.len(), 5);
    for i in 1..events.len() {
        assert!(events[i].commit_ts > events[i - 1].commit_ts);
    }
}

#[test]
fn test_create_snapshot() {
    let mut sm = engine();
    for i in 1..=3 {
        commit_write(&mut sm, &format!("key{}", i), json(&format!(r#"{{"value": {}}}"#, i)));
    }
    let snapshot = sm.storage().create_snapshot().unwrap();
    assert_eq!(snapshot.metadata.version, 1);
    assert_eq!(snapshot.metadata.record_count, 3);
    assert_eq!(snapshot.records.len(), 3);
}

#[test]
fn basic_write_read_scenario() {
    let mut sm = engine();
    let ts = commit_write(&mut sm, "k1", json(r#"{"v": 42}"#));
    assert_eq!(ts, 1);
    let record = sm.get_state("default", "agent-1", "k1").unwrap().unwrap();
    assert_eq!(record.version, 1);
    assert_eq!(record.commit_ts, 1);
    assert_eq!(record.value.unwrap()["v"], 42);
    assert!(!record.deleted);
    assert_eq!(record.namespace, "default");
    assert_eq!(record.agent_id, "agent-1");
    assert_eq!(record.key, "k1");
}

#[test]
fn versioning_scenario_keeps_every_version() {
    let mut sm = engine();
    commit_write(&mut sm, "k", json(r#"{"v": 1}"#));
    commit_write(&mut sm, "k", json(r#"{"v": 2}"#));
    commit_write(&mut sm, "k", json(r#"{"v": 3}"#));
    for v in 1..=3u64 {
        let rec = sm.get_state_at_version("default", "agent-1", "k", v).unwrap().unwrap();
        assert_eq!(rec.version, v);
        assert_eq!(rec.value.unwrap()["v"], v);
        assert_eq!(rec.commit_ts, v);
    }
    assert!(sm.get_state_at_version("default", "agent-1", "k", 4).unwrap().is_none());
    assert!(sm.get_state_at_version("default", "agent-1", "k", 0).unwrap().is_none());
    assert_eq!(sm.get_state("default", "agent-1", "k").unwrap().unwrap().value.unwrap()["v"], 3);
}

#[test]
fn tombstone_scenario() {
    let mut sm = engine();
    commit_write(&mut sm, "k1", serde_json::Value::from(42));
    commit_delete(&mut sm, "k1");
    let rec = sm.get_state("default", "agent-1", "k1").unwrap().unwrap();
    assert!(rec.deleted);
    assert_eq!(rec.version, 2);
    assert!(rec.value.is_none());
    assert!(sm.list_keys("default", "agent-1").unwrap().is_empty());
    let tomb = sm.get_state_at_version("default", "agent-1", "k1", 2).unwrap().unwrap();
    assert!(tomb.deleted);
    let first = sm.get_state_at_version("default", "agent-1", "k1", 1).unwrap().unwrap();
    assert_eq!(first.value.unwrap(), serde_json::Value::from(42));
    assert!(sm.scan_prefix("default", "agent-1", "").unwrap().is_empty());
}

#[test]
fn abort_scenario_leaves_no_event() {
    let mut sm = engine();
    let txn_id = sm.begin_transaction(None).unwrap();
    sm.write(&txn_id, "default".to_string(), "agent-1".to_string(), "temp".to_string(), serde_json::Value::from(42)).unwrap();
    sm.abort(&txn_id).unwrap();
    assert!(sm.get_state("default", "agent-1", "temp").unwrap().is_none());
    assert!(sm.replay("default", "agent-1", None, None).unwrap().is_empty());
    assert_eq!(sm.commit(&txn_id), Err(StateError::TxnNotFound));
}

#[test]
fn ten_commits_get_distinct_increasing_timestamps() {
    let mut sm = engine();
    let mut seen = Vec::new();
    for i in 0..10 {
        seen.push(commit_write(&mut sm, &format!("key{}", i), serde_json::Value::from(i)));
    }
    assert_eq!(seen, (1..=10).collect::<Vec<u64>>());
    assert_eq!(sm.list_keys("default", "agent-1").unwrap().len(), 10);
    for i in 0..10 {
        let rec = sm.get_state("default", "agent-1", &format!("key{}", i)).unwrap().unwrap();
        assert_eq!(rec.value.unwrap(), serde_json::Value::from(i));
    }
}

#[test]
fn second_commit_of_same_txn_is_not_found() {
    let mut sm = engine();
    let txn_id = sm.begin_transaction(None).unwrap();
    sm.write(&txn_id, "default".to_string(), "agent-1".to_string(), "a".to_string(), serde_json::Value::from(1)).unwrap();
    assert_eq!(sm.commit(&txn_id), Ok(1));
    assert_eq!(sm.commit(&txn_id), Err(StateError::TxnNotFound));
    assert_eq!(sm.get_state("default", "agent-1", "a").unwrap().unwrap().version, 1);
}

#[test]
fn abort_of_unknown_txn_succeeds() {
    let mut sm = engine();
    assert_eq!(sm.abort("no-such-txn"), Ok(()));
}

#[test]
fn staging_into_unknown_txn_is_not_found() {
    let mut sm = engine();
    let r = sm.write("missing", "default".to_string(), "agent-1".to_string(), "k".to_string(), serde_json::Value::Null);
    assert_eq!(r, Err(StateError::TxnNotFound));
    let r = sm.delete("missing", "default".to_string(), "agent-1".to_string(), "k".to_string());
    assert_eq!(r, Err(StateError::TxnNotFound));
}

#[test]
fn expiry_is_strictly_after_the_deadline() {
    let mut sm = engine();
    let id = sm.begin_transaction_at("t1".to_string(), 1000, Some(100)).unwrap();
    assert_eq!(sm.write_at(&id, "default".to_string(), "agent-1".to_string(), "k".to_string(), serde_json::Value::from(1), 1100), Ok(()));
    assert_eq!(sm.commit_at(&id, 1100), Ok(1));

    let id = sm.begin_transaction_at("t2".to_string(), 1000, Some(100)).unwrap();
    assert_eq!(sm.delete_at(&id, "default".to_string(), "agent-1".to_string(), "k".to_string(), 1101), Err(StateError::TxnExpired));
    // an expired transaction is dropped when observed
    assert_eq!(sm.commit_at(&id, 1101), Err(StateError::TxnNotFound));

    let id = sm.begin_transaction_at("t3".to_string(), 1000, None).unwrap();
    assert_eq!(sm.commit_at(&id, 31000), Ok(2));
    let id = sm.begin_transaction_at("t4".to_string(), 1000, None).unwrap();
    assert_eq!(sm.commit_at(&id, 31001), Err(StateError::TxnExpired));
}

#[test]
fn cleanup_drops_only_expired_transactions() {
    let mut sm = engine();
    let old = sm.begin_transaction_at("old".to_string(), 0, Some(10)).unwrap();
    let fresh = sm.begin_transaction_at("fresh".to_string(), 0, Some(1000)).unwrap();
    sm.cleanup_expired_transactions_at(11);
    assert_eq!(sm.commit_at(&old, 11), Err(StateError::TxnNotFound));
    assert_eq!(sm.commit_at(&fresh, 11), Ok(1));
}

#[test]
fn empty_transaction_commits_and_advances() {
    let mut sm = engine();
    let txn_id = sm.begin_transaction(None).unwrap();
    assert_eq!(sm.commit(&txn_id), Ok(1));
    assert!(sm.list_keys("default", "agent-1").unwrap().is_empty());
    assert_eq!(commit_write(&mut sm, "k", serde_json::Value::Bool(true)), 2);
}

#[test]
fn operations_apply_in_staging_order() {
    let mut sm = engine();
    let txn_id = sm.begin_transaction(None).unwrap();
    sm.write(&txn_id, "default".to_string(), "agent-1".to_string(), "k".to_string(), serde_json::Value::from(1)).unwrap();
    sm.delete(&txn_id, "default".to_string(), "agent-1".to_string(), "k".to_string()).unwrap();
    sm.write(&txn_id, "default".to_string(), "agent-1".to_string(), "k".to_string(), serde_json::Value::from(3)).unwrap();
    sm.write(&txn_id, "ns2".to_string(), "agent-1".to_string(), "k".to_string(), serde_json::Value::from(9)).unwrap();
    assert_eq!(sm.commit(&txn_id), Ok(1));
    let latest = sm.get_state("default", "agent-1", "k").unwrap().unwrap();
    assert_eq!(latest.version, 3);
    assert_eq!(latest.value.unwrap(), serde_json::Value::from(3));
    assert!(sm.get_state_at_version("default", "agent-1", "k", 2).unwrap().unwrap().deleted);
    let events = sm.replay("default", "agent-1", None, None).unwrap();
    assert_eq!(events.len(), 1);
    let ops = &events[0].operations;
    assert_eq!(ops.len(), 4);
    assert_eq!(ops.iter().map(|o| o.version).collect::<Vec<_>>(), vec![1, 2, 3, 1]);
    assert!(ops[1].value.is_none());
    assert_eq!(ops[3].namespace, "ns2");
    assert_eq!(events[0].commit_ts, 1);
    assert_eq!(events[0].txn_id, txn_id);
}

#[test]
fn scan_prefix_filters_by_key_prefix() {
    let mut sm = engine();
    commit_write(&mut sm, "user:1", serde_json::Value::from(1));
    commit_write(&mut sm, "user:2", serde_json::Value::from(2));
    commit_write(&mut sm, "item:1", serde_json::Value::from(3));
    commit_delete(&mut sm, "user:2");
    let txn_id = sm.begin_transaction(None).unwrap();
    sm.write(&txn_id, "default".to_string(), "agent-2".to_string(), "user:9".to_string(), serde_json::Value::from(9)).unwrap();
    sm.commit(&txn_id).unwrap();
    let users = sm.scan_prefix("default", "agent-1", "user:").unwrap();
    assert_eq!(users.len(), 1);
    assert_eq!(users[0].key, "user:1");
    let mut all: Vec<String> = sm.scan_prefix("default", "agent-1", "").unwrap().into_iter().map(|r| r.key).collect();
    all.sort();
    let mut keys = sm.list_keys("default", "agent-1").unwrap();
    keys.sort();
    assert_eq!(all, vec!["item:1".to_string(), "user:1".to_string()]);
    assert_eq!(all, keys);
}

#[test]
fn replay_respects_inclusive_bounds_and_agent() {
    let mut sm = engine();
    for i in 1..=5 {
        commit_write(&mut sm, &format!("key{}", i), serde_json::Value::from(i));
    }
    let txn_id = sm.begin_transaction(None).unwrap();
    sm.write(&txn_id, "default".to_string(), "agent-2".to_string(), "x".to_string(), serde_json::Value::from(0)).unwrap();
    sm.commit(&txn_id).unwrap();
    let ts: Vec<u64> = sm.replay("default", "agent-1", Some(2), Some(4)).unwrap().iter().map(|e| e.commit_ts).collect();
    assert_eq!(ts, vec![2, 3, 4]);
    let ts: Vec<u64> = sm.replay("default", "agent-1", Some(4), None).unwrap().iter().map(|e| e.commit_ts).collect();
    assert_eq!(ts, vec![4, 5]);
    let ts: Vec<u64> = sm.replay("default", "agent-2", None, None).unwrap().iter().map(|e| e.commit_ts).collect();
    assert_eq!(ts, vec![6]);
    assert!(sm.replay("other", "agent-1", None, None).unwrap().is_empty());
}

fn snapshot_of(records: Vec<StateRecord>, version: u32) -> Snapshot {
    Snapshot {
        metadata: SnapshotMetadata { version, snapshot_ts: 7, record_count: records.len(), created_at: 0 },
        records,
    }
}

fn stored(key: &str, version: u64) -> StateRecord {
    StateRecord {
        namespace: "default".to_string(),
        agent_id: "agent-1".to_string(),
        key: key.to_string(),
        value: Some(serde_json::Value::from(0)),
        version,
        commit_ts: 7,
        deleted: false,
    }
}

#[test]
fn recovery_continues_versions_after_snapshot() {
    let mut sm = engine();
    sm.recover_from_snapshot(&snapshot_of(vec![stored("k", 5), stored("j", 2)], SNAPSHOT_VERSION)).unwrap();
    commit_write(&mut sm, "k", serde_json::Value::from(6));
    commit_write(&mut sm, "fresh", serde_json::Value::from(1));
    assert_eq!(sm.get_state("default", "agent-1", "k").unwrap().unwrap().version, 6);
    assert_eq!(sm.get_state("default", "agent-1", "fresh").unwrap().unwrap().version, 1);
}

#[test]
fn recovery_rejects_other_snapshot_versions() {
    let mut sm = engine();
    let r = sm.recover_from_snapshot(&snapshot_of(vec![stored("k", 5)], 2));
    assert_eq!(r, Err(StateError::SnapshotVersionMismatch));
    commit_write(&mut sm, "k", serde_json::Value::from(1));
    assert_eq!(sm.get_state("default", "agent-1", "k").unwrap().unwrap().version, 1);
}

#[test]
fn version_counter_exhaustion_fails_the_commit() {
    let mut sm = engine();
    sm.recover_from_snapshot(&snapshot_of(vec![stored("k", u64::MAX)], SNAPSHOT_VERSION)).unwrap();
    let txn_id = sm.begin_transaction(None).unwrap();
    sm.write(&txn_id, "default".to_string(), "agent-1".to_string(), "k".to_string(), serde_json::Value::from(1)).unwrap();
    assert_eq!(sm.commit(&txn_id), Err(StateError::Exhausted));
}

#[test]
fn maybe_snapshot_counts_commits() {
    let mut sm = engine();
    assert_eq!(sm.maybe_snapshot(3), Ok(()));
    assert_eq!(sm.commits_since_snapshot(), 1);
    assert_eq!(sm.maybe_snapshot(3), Ok(()));
    assert_eq!(sm.commits_since_snapshot(), 2);
    assert_eq!(sm.maybe_snapshot(3), Ok(()));
    assert_eq!(sm.commits_since_snapshot(), 0);
    assert_eq!(sm.maybe_snapshot(0), Ok(()));
    assert_eq!(sm.maybe_snapshot(0), Ok(()));
    assert_eq!(sm.commits_since_snapshot(), 2);
    assert_eq!(sm.create_snapshot(), Ok(()));
    assert_eq!(sm.commits_since_snapshot(), 0);
}

#[test]
fn snapshot_holds_latest_record_per_identity() {
    let mut sm = engine();
    commit_write(&mut sm, "a", serde_json::Value::from(1));
    commit_write(&mut sm, "a", serde_json::Value::from(2));
    commit_write(&mut sm, "b", serde_json::Value::from(3));
    commit_delete(&mut sm, "b");
    let snap = sm.storage().create_snapshot().unwrap();
    assert_eq!(snap.metadata.version, SNAPSHOT_VERSION);
    assert_eq!(snap.metadata.snapshot_ts, 4);
    assert_eq!(snap.metadata.record_count, 2);
    let mut versions: Vec<(String, u64, bool)> = snap.records.iter().map(|r| (r.key.clone(), r.version, r.deleted)).collect();
    versions.sort();
    assert_eq!(versions, vec![("a".to_string(), 2, false), ("b".to_string(), 2, true)]);
    assert_eq!(sm.storage().get_all_state().unwrap().len(), 2);
    assert!(sm.storage().load_snapshot().unwrap().is_none());
}

#[test]
fn begin_transaction_issues_distinct_uuid_ids() {
    let mut sm = engine();
    let a = sm.begin_transaction(None).unwrap();
    let b = sm.begin_transaction(Some(5)).unwrap();
    assert_eq!(a.len(), 36);
    assert_eq!(b.len(), 36);
    assert_ne!(a, b);
    assert_eq!(a.matches('-').count(), 4);
}

#[test]
fn error_messages_name_the_failure() {
    assert!(StateError::TxnNotFound.message().contains("not found"));
    assert!(StateError::TxnExpired.message().contains("expired"));
    assert!(StateError::SnapshotVersionMismatch.message().contains("mismatch"));
}

#[test]
fn storage_config_defaults() {
    let c = StorageConfig::default();
    assert_eq!(c.data_dir, "./data");
    assert!(c.fsync_on_commit);
    assert_eq!(c.snapshot_interval, 1000);
    assert_eq!(c.max_log_size, 100 * 1024 * 1024);
}

#[test]
fn in_memory_storage_direct_use() {
    let mut s = InMemoryStorage::new();
    assert_eq!(s.next_commit_ts(), Ok(1));
    assert_eq!(s.next_commit_ts(), Ok(2));
    assert!(s.health_check().is_ok());
    assert!(s.flush().is_ok());
    s.write_state(stored("k", 1)).unwrap();
    s.write_state(stored("k", 2)).unwrap();
    let id = statehouse::types::RecordId::new("default".to_string(), "agent-1".to_string(), "k".to_string());
    assert_eq!(s.read_state(&id).unwrap().unwrap().version, 2);
    assert_eq!(s.read_state_at_version(&id, 1).unwrap().unwrap().version, 1);
    assert_eq!(s.list_keys("default", "agent-1").unwrap(), vec!["k".to_string()]);
}

#[test]
fn begin_refuses_an_open_id() {
    let mut sm = engine();
    assert_eq!(sm.begin_transaction_at("t".to_string(), 0, None), Ok("t".to_string()));
    assert_eq!(sm.begin_transaction_at("t".to_string(), 5, Some(1)), Err(StateError::TxnIdInUse));
    // the first transaction is untouched: its default timeout still holds at 20000 ms
    assert_eq!(sm.commit_at("t", 20000), Ok(1));
    assert_eq!(sm.begin_transaction_at("t".to_string(), 0, None), Ok("t".to_string()));
}

#[test]
fn error_messages_are_exact() {
    assert_eq!(StateError::TxnNotFound.message(), "Transaction not found");
    assert_eq!(StateError::TxnExpired.message(), "Transaction expired");
    assert_eq!(StateError::TxnIdInUse.message(), "Transaction id already in use");
    assert_eq!(StateError::BackendIo.message(), "Backend I/O failed");
    assert_eq!(StateError::Decode.message(), "Stored data could not be decoded");
    assert_eq!(StateError::SnapshotVersionMismatch.message(), "Snapshot version mismatch");
    assert_eq!(StateError::Exhausted.message(), "Counter exhausted");
}

#[test]
fn saving_a_snapshot_leaves_the_records() {
    let mut sm = engine();
    commit_write(&mut sm, "a", serde_json::Value::from(1));
    assert_eq!(sm.create_snapshot(), Ok(()));
    assert_eq!(sm.get_state("default", "agent-1", "a").unwrap().unwrap().version, 1);
    assert_eq!(commit_write(&mut sm, "a", serde_json::Value::from(2)), 2);
}
