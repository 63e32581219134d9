use statehouse::layout::{
    commit_ts_key, decimal_padded, decode_commit_ts, encode_commit_ts, event_family_prefix,
    event_key, has_prefix, keep_scan_hits, replay_step, restored_commit_ts, state_family_prefix,
    state_key, state_scan_prefix, version_key, ScanStep,
};
use statehouse::memory::{str_equal, str_starts_with};
use statehouse::types::RecordId;

fn rid() -> RecordId {
    RecordId::new("default".to_string(), "agent-1".to_string(), "k1".to_string())
}

#[test]
fn state_key_layout() {
    assert_eq!(state_key(&rid()), b"state:default:agent-1:k1".to_vec());
}

#[test]
fn version_key_is_zero_padded() {
    assert_eq!(version_key(&rid(), 42), b"version:default:agent-1:k1:00000000000000000042".to_vec());
    assert_eq!(version_key(&rid(), u64::MAX), b"version:default:agent-1:k1:18446744073709551615".to_vec());
}

#[test]
fn event_keys_sort_numerically() {
    assert_eq!(event_key(7), b"event:00000000000000000007".to_vec());
    assert!(event_key(9) < event_key(10));
    assert!(event_key(99) < event_key(100));
    assert!(event_key(u64::MAX - 1) < event_key(u64::MAX));
}

#[test]
fn family_prefixes() {
    assert_eq!(state_family_prefix(), b"state:".to_vec());
    assert_eq!(event_family_prefix(), b"event:".to_vec());
    assert_eq!(commit_ts_key(), b"__commit_ts__".to_vec());
    assert_eq!(state_scan_prefix("ns", "ag", "us"), b"state:ns:ag:us".to_vec());
    assert_eq!(state_scan_prefix("ns", "ag", ""), b"state:ns:ag:".to_vec());
}

#[test]
fn non_ascii_components_are_utf8() {
    let id = RecordId::new("ns".to_string(), "é".to_string(), "k".to_string());
    assert_eq!(state_key(&id), "state:ns:é:k".as_bytes().to_vec());
}

#[test]
fn decimal_padding() {
    assert_eq!(decimal_padded(305, 5), b"00305".to_vec());
    assert_eq!(decimal_padded(305, 2), b"05".to_vec());
    assert!(decimal_padded(1, 0).is_empty());
}

#[test]
fn commit_ts_counter_round_trip() {
    assert_eq!(encode_commit_ts(258), vec![0, 0, 0, 0, 0, 0, 1, 2]);
    assert_eq!(encode_commit_ts(258), 258u64.to_be_bytes().to_vec());
    for ts in [0u64, 1, 255, 256, 1 << 40, u64::MAX] {
        assert_eq!(decode_commit_ts(&encode_commit_ts(ts)), ts);
    }
    assert_eq!(decode_commit_ts(&[1, 2, 3]), 0);
    assert_eq!(decode_commit_ts(&[]), 0);
}

#[test]
fn prefix_bound() {
    assert!(has_prefix(b"event:0001", b"event:"));
    assert!(!has_prefix(b"state:x", b"event:"));
    assert!(!has_prefix(b"eve", b"event:"));
    assert!(has_prefix(b"anything", b""));
}

#[test]
fn string_helpers() {
    assert!(str_starts_with("user:1", "user:"));
    assert!(!str_starts_with("use", "user:"));
    assert!(str_starts_with("x", ""));
    assert!(str_equal("ab", "ab"));
    assert!(!str_equal("ab", "abc"));
    assert!(!str_equal("ab", "ac"));
}

fn event(ts: u64, ns: &str) -> statehouse::records::EventLogEntry {
    statehouse::records::EventLogEntry {
        txn_id: "t".to_string(),
        commit_ts: ts,
        operations: vec![statehouse::records::OperationRecord {
            namespace: ns.to_string(),
            agent_id: "agent-1".to_string(),
            key: "k".to_string(),
            value: None,
            version: 1,
        }],
    }
}

#[test]
fn replay_step_decisions() {
    assert_eq!(replay_step(&event(5, "default"), "default", "agent-1", Some(2), Some(9)), ScanStep::Take);
    assert_eq!(replay_step(&event(5, "other"), "default", "agent-1", Some(2), Some(9)), ScanStep::Skip);
    assert_eq!(replay_step(&event(1, "default"), "default", "agent-1", Some(2), None), ScanStep::Skip);
    assert_eq!(replay_step(&event(10, "default"), "default", "agent-1", None, Some(9)), ScanStep::Stop);
    assert_eq!(replay_step(&event(10, "other"), "default", "agent-1", None, Some(9)), ScanStep::Stop);
    assert_eq!(replay_step(&event(9, "default"), "default", "agent-1", None, Some(9)), ScanStep::Take);
}

fn rec(agent: &str, key: &str, deleted: bool) -> statehouse::records::StateRecord {
    statehouse::records::StateRecord {
        namespace: "n".to_string(),
        agent_id: agent.to_string(),
        key: key.to_string(),
        value: if deleted { None } else { Some(serde_json::Value::from(1)) },
        version: 1,
        commit_ts: 1,
        deleted,
    }
}

#[test]
fn scan_hits_drop_tombstones_and_other_agents() {
    // "a" and "a:x" share the byte prefix "state:n:a:"
    let reached = vec![rec("a", "k1", false), rec("a", "k2", true), rec("a:x", "k3", false), rec("a", "u1", false)];
    let keys: Vec<String> = keep_scan_hits(&reached, "n", "a", "").into_iter().map(|r| r.key).collect();
    assert_eq!(keys, vec!["k1".to_string(), "u1".to_string()]);
    let keys: Vec<String> = keep_scan_hits(&reached, "n", "a", "u").into_iter().map(|r| r.key).collect();
    assert_eq!(keys, vec!["u1".to_string()]);
    assert!(keep_scan_hits(&reached, "other", "a", "").is_empty());
}

#[test]
fn restored_counter_never_moves_back() {
    assert_eq!(restored_commit_ts(10, 4), 10);
    assert_eq!(restored_commit_ts(4, 10), 10);
    assert_eq!(restored_commit_ts(0, 0), 0);
}
