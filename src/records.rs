//! What the backends store: state records, event-log entries, snapshots,
//! and the backend configuration.
use crate::types::{AgentId, CommitTs, Key, Namespace, RecordKey, TxnId, Version};
use vstd::prelude::*;

verus! {

/// Format version written into, and required of, every snapshot.
pub const SNAPSHOT_VERSION: u32 = 1;

/// Backend configuration.
#[derive(Debug)]
pub struct StorageConfig {
    /// Root directory for persistent files.
    pub data_dir: String,
    /// Whether every commit is flushed to stable storage before it returns.
    pub fsync_on_commit: bool,
    /// Commits between automatic snapshots; 0 disables them.
    pub snapshot_interval: u64,
    /// Soft ceiling on event-log bytes before compaction.
    pub max_log_size: u64,
}

impl Default for StorageConfig {
    fn default() -> (r: Self)
        ensures
            r.data_dir@ == "./data"@,
            r.fsync_on_commit,
            r.snapshot_interval == 1000,
            r.max_log_size == 100 * 1024 * 1024,
    {
        StorageConfig {
            data_dir: "./data".to_owned(),
            fsync_on_commit: true,
            snapshot_interval: 1000,
            max_log_size: 100 * 1024 * 1024,
        }
    }
}

impl Clone for StorageConfig {
    fn clone(&self) -> (r: Self)
        ensures
            r == *self,
    {
        StorageConfig {
            data_dir: self.data_dir.clone(),
            fsync_on_commit: self.fsync_on_commit,
            snapshot_interval: self.snapshot_interval,
            max_log_size: self.max_log_size,
        }
    }
}

/// One stored version of a record; `value` is `None` for a tombstone.
#[derive(Debug)]
pub struct StateRecord {
    pub namespace: Namespace,
    pub agent_id: AgentId,
    pub key: Key,
    pub value: Option<serde_json::Value>,
    pub version: Version,
    pub commit_ts: CommitTs,
    pub deleted: bool,
}

impl View for StateRecord {
    type V = StateRecord;

    open spec fn view(&self) -> StateRecord {
        *self
    }
}

impl StateRecord {
    /// The identity of the record this is a version of.
    pub open spec fn record_key(&self) -> RecordKey {
        (self.namespace@, self.agent_id@, self.key@)
    }
}

impl Clone for StateRecord {
    fn clone(&self) -> (r: Self)
        ensures
            r == *self,
    {
        StateRecord {
            namespace: self.namespace.clone(),
            agent_id: self.agent_id.clone(),
            key: self.key.clone(),
            value: match &self.value {
                Some(v) => Some(v.clone()),
                None => None,
            },
            version: self.version,
            commit_ts: self.commit_ts,
            deleted: self.deleted,
        }
    }
}

/// One operation of a committed transaction, as the event log keeps it.
#[derive(Debug)]
pub struct OperationRecord {
    pub namespace: Namespace,
    pub agent_id: AgentId,
    pub key: Key,
    pub value: Option<serde_json::Value>,
    pub version: Version,
}

impl OperationRecord {
    pub open spec fn record_key(&self) -> RecordKey {
        (self.namespace@, self.agent_id@, self.key@)
    }
}

impl Clone for OperationRecord {
    fn clone(&self) -> (r: Self)
        ensures
            r == *self,
    {
        OperationRecord {
            namespace: self.namespace.clone(),
            agent_id: self.agent_id.clone(),
            key: self.key.clone(),
            value: match &self.value {
                Some(v) => Some(v.clone()),
                None => None,
            },
            version: self.version,
        }
    }
}

/// A committed transaction in the event log.
#[derive(Debug)]
pub struct EventLogEntry {
    pub txn_id: TxnId,
    pub commit_ts: CommitTs,
    pub operations: Vec<OperationRecord>,
}

/// The view of an event-log entry.
pub struct EventView {
    pub txn_id: Seq<char>,
    pub commit_ts: CommitTs,
    pub operations: Seq<OperationRecord>,
}

impl View for EventLogEntry {
    type V = EventView;

    open spec fn view(&self) -> EventView {
        EventView {
            txn_id: self.txn_id@,
            commit_ts: self.commit_ts,
            operations: self.operations@,
        }
    }
}

impl Clone for EventLogEntry {
    fn clone(&self) -> (r: Self)
        ensures
            r@ == self@,
    {
        let operations = self.operations.clone();
        proof {
            assert forall|i: int| 0 <= i < operations@.len() implies operations@[i]
                == self.operations@[i] by {
                assert(cloned::<OperationRecord>(self.operations[i], operations[i]));
            }
            assert(operations@ =~= self.operations@);
        }
        EventLogEntry { txn_id: self.txn_id.clone(), commit_ts: self.commit_ts, operations }
    }
}

/// Snapshot metadata.
#[derive(Debug, Clone, Copy)]
pub struct SnapshotMetadata {
    /// Snapshot format version.
    pub version: u32,
    /// Commit timestamp current when the snapshot was built.
    pub snapshot_ts: CommitTs,
    /// Number of state records in the snapshot.
    pub record_count: usize,
    /// Wall-clock seconds since the Unix epoch when the snapshot was built.
    pub created_at: u64,
}

/// The latest state record of every record identity, at one commit timestamp.
#[derive(Debug)]
pub struct Snapshot {
    pub metadata: SnapshotMetadata,
    pub records: Vec<StateRecord>,
}

impl Clone for Snapshot {
    fn clone(&self) -> (r: Self)
        ensures
            r.metadata == self.metadata,
            r.records@ == self.records@,
    {
        let records = self.records.clone();
        proof {
            assert forall|i: int| 0 <= i < records@.len() implies records@[i] == self.records@[i] by {
                assert(cloned::<StateRecord>(self.records[i], records[i]));
            }
            assert(records@ =~= self.records@);
        }
        Snapshot { metadata: self.metadata, records }
    }
}

} // verus!
