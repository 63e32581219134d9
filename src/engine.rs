//! The transaction and commit engine: transactions staged in memory,
//! committed atomically with fresh versions and one event-log entry.
use crate::clock::wall_clock_millis;
use crate::records::{EventLogEntry, EventView, OperationRecord, Snapshot, StateRecord, SNAPSHOT_VERSION};
use crate::storage::{
    coherent, event_views, is_snapshot_of, lists_live_keys, lists_scan, lookup, selected_events,
    Storage,
};
use crate::table::Table;
use crate::types::{AgentId, CommitTs, Key, Namespace, RecordId, RecordKey, StateError, TxnId, Version};
use vstd::prelude::*;

verus! {

/// Timeout of a transaction begun without one, in milliseconds.
pub const DEFAULT_TXN_TIMEOUT_MS: u64 = 30000;

/// How many fresh ids `begin_transaction` draws before it gives up.
pub const BEGIN_ATTEMPTS: u32 = 4;

/// An operation staged in a transaction, not yet visible to readers.
#[derive(Debug)]
pub enum StagedOperation {
    Write { namespace: Namespace, agent_id: AgentId, key: Key, value: serde_json::Value },
    Delete { namespace: Namespace, agent_id: AgentId, key: Key },
}

impl StagedOperation {
    pub open spec fn record_key(&self) -> RecordKey {
        match self {
            StagedOperation::Write { namespace, agent_id, key, .. } => (namespace@, agent_id@, key@),
            StagedOperation::Delete { namespace, agent_id, key } => (namespace@, agent_id@, key@),
        }
    }
}

/// The value an operation stages: `None` for a delete.
pub open spec fn staged_value(op: StagedOperation) -> Option<serde_json::Value> {
    match op {
        StagedOperation::Write { value, .. } => Some(value),
        StagedOperation::Delete { .. } => None,
    }
}

/// Command to the engine.
#[derive(Debug)]
pub enum Command {
    BeginTransaction { timeout_ms: Option<u64> },
    Write { txn_id: TxnId, namespace: Namespace, agent_id: AgentId, key: Key, value: serde_json::Value },
    Delete { txn_id: TxnId, namespace: Namespace, agent_id: AgentId, key: Key },
    Commit { txn_id: TxnId },
    Abort { txn_id: TxnId },
}

/// An open transaction: its id, when it began (wall-clock milliseconds),
/// its timeout (milliseconds) and its staged operations in order.
#[derive(Debug)]
pub struct Transaction {
    pub txn_id: TxnId,
    pub created_at: u64,
    pub timeout: u64,
    pub operations: Vec<StagedOperation>,
}

pub struct TxnView {
    pub txn_id: Seq<char>,
    pub created_at: u64,
    pub timeout: u64,
    pub operations: Seq<StagedOperation>,
}

impl View for Transaction {
    type V = TxnView;

    open spec fn view(&self) -> TxnView {
        TxnView {
            txn_id: self.txn_id@,
            created_at: self.created_at,
            timeout: self.timeout,
            operations: self.operations@,
        }
    }
}

/// A transaction is expired once more than `timeout` milliseconds have passed
/// since it began.
pub open spec fn expired(created_at: u64, timeout: u64, now: u64) -> bool {
    now as int - created_at as int > timeout as int
}

pub fn is_expired(created_at: u64, timeout: u64, now: u64) -> (r: bool)
    ensures
        r == expired(created_at, timeout, now),
{
    now > created_at && now - created_at > timeout
}

/// The version the next write to `k` receives.
pub open spec fn next_version(vers: Map<RecordKey, Version>, k: RecordKey) -> int {
    if vers.contains_key(k) {
        vers[k] + 1
    } else {
        1
    }
}

/// The version counters after `ops` are applied in order.
pub open spec fn versions_after(vers: Map<RecordKey, Version>, ops: Seq<StagedOperation>) -> Map<
    RecordKey,
    Version,
>
    decreases ops.len(),
{
    if ops.len() == 0 {
        vers
    } else {
        let prev = versions_after(vers, ops.drop_last());
        let k = ops.last().record_key();
        prev.insert(k, next_version(prev, k) as Version)
    }
}

/// No version counter runs past `u64::MAX` while `ops` are applied.
pub open spec fn versions_fit(vers: Map<RecordKey, Version>, ops: Seq<StagedOperation>) -> bool
    decreases ops.len(),
{
    ops.len() == 0 || (versions_fit(vers, ops.drop_last()) && next_version(
        versions_after(vers, ops.drop_last()),
        ops.last().record_key(),
    ) <= u64::MAX)
}

/// The operation record of `op` at `version`.
pub open spec fn op_record(op: StagedOperation, version: Version) -> OperationRecord {
    match op {
        StagedOperation::Write { namespace, agent_id, key, value } => OperationRecord {
            namespace,
            agent_id,
            key,
            value: Some(value),
            version,
        },
        StagedOperation::Delete { namespace, agent_id, key } => OperationRecord {
            namespace,
            agent_id,
            key,
            value: None,
            version,
        },
    }
}

/// The operation records of `ops`, in staging order, each with its new version.
pub open spec fn operation_records(vers: Map<RecordKey, Version>, ops: Seq<StagedOperation>) -> Seq<
    OperationRecord,
>
    decreases ops.len(),
{
    if ops.len() == 0 {
        Seq::empty()
    } else {
        let prev = versions_after(vers, ops.drop_last());
        let op = ops.last();
        operation_records(vers, ops.drop_last()).push(
            op_record(op, next_version(prev, op.record_key()) as Version),
        )
    }
}

/// The state record that `o` becomes when committed at `ts`.
pub open spec fn state_record_of(o: OperationRecord, ts: CommitTs) -> StateRecord {
    StateRecord {
        namespace: o.namespace,
        agent_id: o.agent_id,
        key: o.key,
        value: o.value,
        version: o.version,
        commit_ts: ts,
        deleted: o.value is None,
    }
}

/// The latest records after `recs` are written in order at `ts`.
pub open spec fn latest_after(
    latest: Map<RecordKey, StateRecord>,
    recs: Seq<OperationRecord>,
    ts: CommitTs,
) -> Map<RecordKey, StateRecord>
    decreases recs.len(),
{
    if recs.len() == 0 {
        latest
    } else {
        let o = recs.last();
        latest_after(latest, recs.drop_last(), ts).insert(o.record_key(), state_record_of(o, ts))
    }
}

/// The record history after `recs` are written in order at `ts`.
pub open spec fn history_after(
    history: Map<(RecordKey, Version), StateRecord>,
    recs: Seq<OperationRecord>,
    ts: CommitTs,
) -> Map<(RecordKey, Version), StateRecord>
    decreases recs.len(),
{
    if recs.len() == 0 {
        history
    } else {
        let o = recs.last();
        history_after(history, recs.drop_last(), ts).insert(
            (o.record_key(), o.version),
            state_record_of(o, ts),
        )
    }
}

/// The version counters agree with the stored records: a record identity has
/// a counter exactly when it has a latest record, the latest record carries
/// the counter's version and is the record at that version, the history holds
/// exactly the versions from 1 up to the counter, and a stored record is a
/// tombstone exactly when it has no value.
pub open spec fn versions_consistent(
    vers: Map<RecordKey, Version>,
    latest: Map<RecordKey, StateRecord>,
    history: Map<(RecordKey, Version), StateRecord>,
) -> bool {
    &&& forall|k: RecordKey| #[trigger] vers.contains_key(k) <==> latest.contains_key(k)
    &&& forall|k: RecordKey| #[trigger]
        vers.contains_key(k) ==> latest[k].version == vers[k] && history.contains_key((k, vers[k]))
            && history[(k, vers[k])] == latest[k]
    &&& forall|k: RecordKey, v: Version|
        vers.contains_key(k) && 1 <= v <= vers[k] ==> #[trigger] history.contains_key((k, v))
    &&& forall|kv: (RecordKey, Version)| #[trigger]
        history.contains_key(kv) ==> vers.contains_key(kv.0) && 1 <= kv.1 <= vers[kv.0]
            && history[kv].deleted == (history[kv].value is None)
}

/// The version counters recorded by a snapshot's records, later ones winning.
pub open spec fn snapshot_versions(recs: Seq<StateRecord>) -> Map<RecordKey, Version>
    decreases recs.len(),
{
    if recs.len() == 0 {
        Map::empty()
    } else {
        snapshot_versions(recs.drop_last()).insert(recs.last().record_key(), recs.last().version)
    }
}

/// `after` holds exactly the transactions of `before` that are not expired
/// at `now`.
pub open spec fn swept(before: Map<Seq<char>, TxnView>, after: Map<Seq<char>, TxnView>, now: u64) -> bool {
    &&& forall|id: Seq<char>| #[trigger]
        after.contains_key(id) <==> before.contains_key(id) && !expired(
            before[id].created_at,
            before[id].timeout,
            now,
        )
    &&& forall|id: Seq<char>| #[trigger] after.contains_key(id) ==> after[id] == before[id]
}

/// `after` holds what `before` holds, and fails as `before` fails; only the
/// kept snapshot may differ.
pub open spec fn same_contents<S: Storage>(before: S, after: S) -> bool {
    &&& after.wf()
    &&& after.latest() == before.latest()
    &&& after.history() == before.history()
    &&& after.events() == before.events()
    &&& after.last_commit_ts() == before.last_commit_ts()
    &&& after.infallible() == before.infallible()
}

/// The backend keeps a snapshot of `latest` taken at timestamp `ts`.
pub open spec fn keeps_snapshot_of<S: Storage>(store: S, latest: Map<RecordKey, StateRecord>, ts: CommitTs) -> bool {
    store.saved_snapshot() matches Some(s) && is_snapshot_of(s, latest, ts)
}

/// Relies on `uuid::Uuid::new_v4` and the `Display` of `Uuid`: a random
/// version-4 id in its hyphenated form, 36 characters.
#[verifier::external_body]
fn fresh_txn_id() -> (r: String)
    ensures
        r@.len() == 36,
{
    uuid::Uuid::new_v4().to_string()
}

/// The engine: open transactions, per-record version counters, and the
/// backend that holds what was committed.
pub struct StateMachine<S: Storage> {
    storage: S,
    transactions: Table<String, Transaction>,
    version_counters: Table<RecordId, Version>,
    commits_since_snapshot: u64,
}

impl<S: Storage> StateMachine<S> {
    /// The open transactions, by id.
    pub closed spec fn txns(&self) -> Map<Seq<char>, TxnView> {
        self.transactions@
    }

    /// The version counters: the last version issued for each record identity.
    pub closed spec fn versions(&self) -> Map<RecordKey, Version> {
        self.version_counters@
    }

    pub closed spec fn store(&self) -> S {
        self.storage
    }

    pub closed spec fn snapshot_counter(&self) -> u64 {
        self.commits_since_snapshot
    }

    pub closed spec fn wf(&self) -> bool {
        &&& self.transactions.wf()
        &&& self.version_counters.wf()
        &&& self.storage.wf()
        &&& coherent(
            self.storage.latest(),
            self.storage.history(),
            self.storage.events(),
            self.storage.last_commit_ts(),
        )
        &&& forall|id: Seq<char>| #[trigger]
            self.transactions@.contains_key(id) ==> self.transactions@[id].txn_id == id
    }

    /// A well-formed engine's backend is coherent.
    pub proof fn lemma_coherent(&self)
        requires
            self.wf(),
        ensures
            coherent(
                self.store().latest(),
                self.store().history(),
                self.store().events(),
                self.store().last_commit_ts(),
            ),
    {
    }

    /// Every open transaction carries its table key as its id.
    pub proof fn lemma_txn_ids(&self)
        requires
            self.wf(),
        ensures
            forall|id: Seq<char>| #[trigger] self.txns().contains_key(id) ==> self.txns()[id].txn_id == id,
    {
    }

    /// The version counters agree with what the backend holds.
    pub open spec fn consistent(&self) -> bool {
        versions_consistent(self.versions(), self.store().latest(), self.store().history())
    }

    /// `self` is `before` with the transaction `t` committed at `ts`.
    pub open spec fn commit_applied(&self, before: &Self, t: TxnView, ts: CommitTs) -> bool {
        let recs = operation_records(before.versions(), t.operations);
        &&& ts == before.store().last_commit_ts() + 1
        &&& self.store().last_commit_ts() == ts
        &&& versions_fit(before.versions(), t.operations)
        &&& self.versions() == versions_after(before.versions(), t.operations)
        &&& self.store().latest() == latest_after(before.store().latest(), recs, ts)
        &&& self.store().history() == history_after(before.store().history(), recs, ts)
        &&& self.store().events() == before.store().events().push(
            EventView { txn_id: t.txn_id, commit_ts: ts, operations: recs },
        )
    }

    pub fn new(storage: S) -> (r: Self)
        requires
            storage.wf(),
            coherent(storage.latest(), storage.history(), storage.events(), storage.last_commit_ts()),
        ensures
            r.wf(),
            r.store() == storage,
            r.txns() == Map::<Seq<char>, TxnView>::empty(),
            r.versions() == Map::<RecordKey, Version>::empty(),
            r.snapshot_counter() == 0,
            storage.latest().is_empty() && storage.history().is_empty() ==> r.consistent(),
    {
        let r = StateMachine {
            storage,
            transactions: Table::new(),
            version_counters: Table::new(),
            commits_since_snapshot: 0,
        };
        proof {
            if storage.latest().is_empty() {
                assert forall|k: RecordKey| #[trigger] r.versions().contains_key(k) <==> r.store().latest().contains_key(k) by {
                    assert(!storage.latest().dom().contains(k));
                }
            }
        }
        r
    }

    /// The backend.
    pub fn storage(&self) -> (r: &S)
        ensures
            *r == self.store(),
    {
        &self.storage
    }

    /// Commits counted since the last snapshot.
    pub fn commits_since_snapshot(&self) -> (r: u64)
        ensures
            r == self.snapshot_counter(),
    {
        self.commits_since_snapshot
    }

    /// Registers a new transaction `txn_id` that began at `now` (wall-clock
    /// milliseconds), with the given timeout or the default one. An id that
    /// is already open is refused.
    pub fn begin_transaction_at(&mut self, txn_id: String, now: u64, timeout_ms: Option<u64>) -> (r:
        Result<TxnId, StateError>)
        requires
            old(self).wf(),
        ensures
            final(self).wf(),
            final(self).store() == old(self).store(),
            final(self).versions() == old(self).versions(),
            final(self).snapshot_counter() == old(self).snapshot_counter(),
            r == Err::<TxnId, StateError>(StateError::TxnIdInUse) <==> old(self).txns().contains_key(txn_id@),
            r is Err ==> final(self).txns() == old(self).txns(),
            r matches Ok(id) ==> id@ == txn_id@ && final(self).txns() == old(self).txns().insert(
                txn_id@,
                TxnView {
                    txn_id: txn_id@,
                    created_at: now,
                    timeout: match timeout_ms {
                        Some(t) => t,
                        None => DEFAULT_TXN_TIMEOUT_MS,
                    },
                    operations: Seq::empty(),
                },
            ),
    {
        if let Some(_) = self.transactions.find(&txn_id) {
            return Err(StateError::TxnIdInUse);
        }
        let timeout = match timeout_ms {
            Some(t) => t,
            None => DEFAULT_TXN_TIMEOUT_MS,
        };
        let txn = Transaction { txn_id: txn_id.clone(), created_at: now, timeout, operations: Vec::new() };
        proof {
            assert(txn@.operations =~= Seq::<StagedOperation>::empty());
        }
        self.transactions.insert(txn_id.clone(), txn);
        Ok(txn_id)
    }

    /// Begins a transaction with a fresh random id at the current wall-clock
    /// time. A fresh id that is already open is drawn again, a few times at
    /// most.
    pub fn begin_transaction(&mut self, timeout_ms: Option<u64>) -> (r: Result<TxnId, StateError>)
        requires
            old(self).wf(),
        ensures
            final(self).wf(),
            final(self).store() == old(self).store(),
            final(self).versions() == old(self).versions(),
            final(self).snapshot_counter() == old(self).snapshot_counter(),
            r matches Ok(id) ==> !old(self).txns().contains_key(id@) && final(self).txns()
                == old(self).txns().insert(
                id@,
                TxnView {
                    txn_id: id@,
                    created_at: final(self).txns()[id@].created_at,
                    timeout: match timeout_ms {
                        Some(t) => t,
                        None => DEFAULT_TXN_TIMEOUT_MS,
                    },
                    operations: Seq::empty(),
                },
            ),
            r is Err ==> r == Err::<TxnId, StateError>(StateError::TxnIdInUse) && final(self).txns()
                == old(self).txns(),
    {
        let now = wall_clock_millis();
        let mut attempt: u32 = 0;
        while attempt < BEGIN_ATTEMPTS
            invariant
                self.wf(),
                self.txns() == old(self).txns(),
                self.store() == old(self).store(),
                self.versions() == old(self).versions(),
                self.snapshot_counter() == old(self).snapshot_counter(),
            decreases BEGIN_ATTEMPTS - attempt,
        {
            let txn_id = fresh_txn_id();
            match self.begin_transaction_at(txn_id, now, timeout_ms) {
                Ok(id) => return Ok(id),
                Err(_) => {},
            }
            attempt = attempt + 1;
        }
        Err(StateError::TxnIdInUse)
    }

    /// Appends `op` to the operations of transaction `txn_id`, observed at
    /// `now`.
    fn stage_at(&mut self, txn_id: &str, op: StagedOperation, now: u64) -> (r: Result<(), StateError>)
        requires
            old(self).wf(),
        ensures
            final(self).wf(),
            final(self).store() == old(self).store(),
            final(self).versions() == old(self).versions(),
            final(self).snapshot_counter() == old(self).snapshot_counter(),
            Self::stage_outcome(*old(self), *final(self), txn_id@, op, now, r),
    {
        let id = txn_id.to_owned();
        match self.transactions.remove(&id) {
            None => {
                assert(self.transactions@ == old(self).transactions@);
                Err(StateError::TxnNotFound)
            },
            Some(mut txn) => {
                if is_expired(txn.created_at, txn.timeout, now) {
                    return Err(StateError::TxnExpired);
                }
                let ghost before = txn@;
                let ghost opv = op;
                txn.operations.push(op);
                assert(txn@ == TxnView { operations: before.operations.push(opv), ..before });
                self.transactions.insert(id, txn);
                assert(self.transactions@ =~= old(self).transactions@.insert(
                    txn_id@,
                    TxnView { operations: before.operations.push(opv), ..before },
                ));
                Ok(())
            },
        }
    }

    /// What staging `op` in `id` at `now` does to the open transactions.
    pub open spec fn stage_outcome(
        before: Self,
        after: Self,
        id: Seq<char>,
        op: StagedOperation,
        now: u64,
        r: Result<(), StateError>,
    ) -> bool {
        let t = before.txns()[id];
        &&& !before.txns().contains_key(id) ==> r == Err::<(), StateError>(StateError::TxnNotFound)
            && after.txns() == before.txns()
        &&& before.txns().contains_key(id) && expired(t.created_at, t.timeout, now) ==> r
            == Err::<(), StateError>(StateError::TxnExpired) && after.txns() == before.txns().remove(id)
        &&& before.txns().contains_key(id) && !expired(t.created_at, t.timeout, now) ==> r
            == Ok::<(), StateError>(()) && after.txns() == before.txns().insert(
            id,
            TxnView { operations: t.operations.push(op), ..t },
        )
    }
}

/// Counters that fit for a run of operations fit for each of its prefixes.
proof fn lemma_fit_prefix(vers: Map<RecordKey, Version>, ops: Seq<StagedOperation>, j: int)
    requires
        versions_fit(vers, ops),
        0 <= j <= ops.len(),
    ensures
        versions_fit(vers, ops.subrange(0, j)),
    decreases ops.len() - j,
{
    if j < ops.len() {
        assert(ops.drop_last() =~= ops.subrange(0, ops.len() - 1));
        lemma_fit_prefix(vers, ops.drop_last(), j);
        assert(ops.drop_last().subrange(0, j) =~= ops.subrange(0, j));
    } else {
        assert(ops.subrange(0, j) =~= ops);
    }
}

/// Writing one more record keeps the version counters consistent, when the
/// record takes the next version of its identity.
proof fn lemma_consistent_step(
    vers: Map<RecordKey, Version>,
    latest: Map<RecordKey, StateRecord>,
    history: Map<(RecordKey, Version), StateRecord>,
    k: RecordKey,
    nv: Version,
    rec: StateRecord,
)
    requires
        versions_consistent(vers, latest, history),
        nv == next_version(vers, k),
        rec.version == nv,
        rec.deleted == (rec.value is None),
    ensures
        versions_consistent(vers.insert(k, nv), latest.insert(k, rec), history.insert((k, nv), rec)),
{
    let vers2 = vers.insert(k, nv);
    let latest2 = latest.insert(k, rec);
    let history2 = history.insert((k, nv), rec);
    assert forall|k2: RecordKey| #[trigger] vers2.contains_key(k2) implies latest2[k2].version == vers2[k2]
        && history2.contains_key((k2, vers2[k2])) && history2[(k2, vers2[k2])] == latest2[k2] by {
        if k2 != k {
            assert(vers.contains_key(k2));
            assert((k2, vers2[k2]) != (k, nv));
        }
    }
    assert forall|kv: (RecordKey, Version)| #[trigger] history2.contains_key(kv) implies vers2.contains_key(kv.0)
        && 1 <= kv.1 <= vers2[kv.0] && history2[kv].deleted == (history2[kv].value is None) by {
        if kv != (k, nv) {
            assert(history.contains_key(kv));
        }
    }
    assert forall|k2: RecordKey, v: Version| vers2.contains_key(k2) && 1 <= v <= vers2[k2] implies #[trigger] history2.contains_key((k2, v)) by {
        if k2 != k {
            assert(history.contains_key((k2, v)));
        } else if v != nv {
            assert(vers.contains_key(k));
            assert(history.contains_key((k, v)));
        }
    }
}

impl<S: Storage> StateMachine<S> {
    /// Stages a write of `value` to (`namespace`, `agent_id`, `key`) in
    /// transaction `txn_id`, observed at `now`.
    pub fn write_at(
        &mut self,
        txn_id: &str,
        namespace: String,
        agent_id: String,
        key: String,
        value: serde_json::Value,
        now: u64,
    ) -> (r: Result<(), StateError>)
        requires
            old(self).wf(),
        ensures
            final(self).wf(),
            final(self).store() == old(self).store(),
            final(self).versions() == old(self).versions(),
            final(self).snapshot_counter() == old(self).snapshot_counter(),
            Self::stage_outcome(
                *old(self),
                *final(self),
                txn_id@,
                StagedOperation::Write { namespace, agent_id, key, value },
                now,
                r,
            ),
    {
        self.stage_at(txn_id, StagedOperation::Write { namespace, agent_id, key, value }, now)
    }

    /// Stages a write at the current wall-clock time.
    pub fn write(
        &mut self,
        txn_id: &str,
        namespace: String,
        agent_id: String,
        key: String,
        value: serde_json::Value,
    ) -> (r: Result<(), StateError>)
        requires
            old(self).wf(),
        ensures
            final(self).wf(),
            final(self).store() == old(self).store(),
            final(self).versions() == old(self).versions(),
            final(self).snapshot_counter() == old(self).snapshot_counter(),
            exists|now: u64|
                Self::stage_outcome(
                    *old(self),
                    *final(self),
                    txn_id@,
                    StagedOperation::Write { namespace, agent_id, key, value },
                    now,
                    r,
                ),
    {
        let now = wall_clock_millis();
        self.write_at(txn_id, namespace, agent_id, key, value, now)
    }

    /// Stages a delete of (`namespace`, `agent_id`, `key`) in transaction
    /// `txn_id`, observed at `now`.
    pub fn delete_at(
        &mut self,
        txn_id: &str,
        namespace: String,
        agent_id: String,
        key: String,
        now: u64,
    ) -> (r: Result<(), StateError>)
        requires
            old(self).wf(),
        ensures
            final(self).wf(),
            final(self).store() == old(self).store(),
            final(self).versions() == old(self).versions(),
            final(self).snapshot_counter() == old(self).snapshot_counter(),
            Self::stage_outcome(
                *old(self),
                *final(self),
                txn_id@,
                StagedOperation::Delete { namespace, agent_id, key },
                now,
                r,
            ),
    {
        self.stage_at(txn_id, StagedOperation::Delete { namespace, agent_id, key }, now)
    }

    /// Stages a delete at the current wall-clock time.
    pub fn delete(&mut self, txn_id: &str, namespace: String, agent_id: String, key: String) -> (r:
        Result<(), StateError>)
        requires
            old(self).wf(),
        ensures
            final(self).wf(),
            final(self).store() == old(self).store(),
            final(self).versions() == old(self).versions(),
            final(self).snapshot_counter() == old(self).snapshot_counter(),
            exists|now: u64|
                Self::stage_outcome(
                    *old(self),
                    *final(self),
                    txn_id@,
                    StagedOperation::Delete { namespace, agent_id, key },
                    now,
                    r,
                ),
    {
        let now = wall_clock_millis();
        self.delete_at(txn_id, namespace, agent_id, key, now)
    }

    /// Discards transaction `txn_id` if it is open; otherwise does nothing.
    pub fn abort(&mut self, txn_id: &str) -> (r: Result<(), StateError>)
        requires
            old(self).wf(),
        ensures
            final(self).wf(),
            r is Ok,
            final(self).txns() == old(self).txns().remove(txn_id@),
            final(self).store() == old(self).store(),
            final(self).versions() == old(self).versions(),
            final(self).snapshot_counter() == old(self).snapshot_counter(),
    {
        let id = txn_id.to_owned();
        let _ = self.transactions.remove(&id);
        Ok(())
    }

    /// Commits transaction `txn_id`, observed at `now`: removes it from the
    /// open transactions, issues the next commit timestamp, writes one state
    /// record per staged operation, in order, each with the next version of
    /// its identity, appends one event-log entry, and flushes. A backend
    /// failure after the timestamp is issued leaves what was written.
    pub fn commit_at(&mut self, txn_id: &str, now: u64) -> (r: Result<CommitTs, StateError>)
        requires
            old(self).wf(),
        ensures
            final(self).wf(),
            final(self).txns() == old(self).txns().remove(txn_id@),
            final(self).snapshot_counter() == old(self).snapshot_counter(),
            final(self).store().last_commit_ts() >= old(self).store().last_commit_ts(),
            r == Err::<CommitTs, StateError>(StateError::TxnNotFound) <==> !old(self).txns().contains_key(txn_id@),
            old(self).txns().contains_key(txn_id@) ==> (r == Err::<CommitTs, StateError>(StateError::TxnExpired)
                <==> expired(old(self).txns()[txn_id@].created_at, old(self).txns()[txn_id@].timeout, now)),
            r matches Err(e) && !e.is_backend_error() ==> final(self).store() == old(self).store()
                && final(self).versions() == old(self).versions(),
            r matches Ok(ts) ==> final(self).commit_applied(old(self), old(self).txns()[txn_id@], ts),
            r is Ok ==> final(self).store().events().last().txn_id == txn_id@,
            r is Ok && old(self).consistent() ==> final(self).consistent(),
            final(self).store().infallible() == old(self).store().infallible(),
            old(self).store().infallible() && old(self).txns().contains_key(txn_id@) && !expired(
                old(self).txns()[txn_id@].created_at,
                old(self).txns()[txn_id@].timeout,
                now,
            ) && old(self).store().last_commit_ts() < u64::MAX && versions_fit(
                old(self).versions(),
                old(self).txns()[txn_id@].operations,
            ) ==> r is Ok,
    {
        let id = txn_id.to_owned();
        let txn = match self.transactions.remove(&id) {
            None => {
                assert(self.transactions@ == old(self).transactions@);
                return Err(StateError::TxnNotFound);
            },
            Some(t) => t,
        };
        if is_expired(txn.created_at, txn.timeout, now) {
            return Err(StateError::TxnExpired);
        }
        let commit_ts = match self.storage.next_commit_ts() {
            Ok(ts) => ts,
            Err(e) => return Err(e),
        };
        let ghost t = txn@;
        let ghost ops = txn@.operations;
        let ghost vers0 = self.version_counters@;
        let ghost latest0 = self.storage.latest();
        let ghost history0 = self.storage.history();
        let ghost events0 = self.storage.events();
        let ghost was_consistent = old(self).consistent();
        let mut op_records: Vec<OperationRecord> = Vec::new();
        let mut i: usize = 0;
        proof {
            assert(ops.subrange(0, 0) =~= Seq::<StagedOperation>::empty());
            assert(op_records@ =~= Seq::<OperationRecord>::empty());
        }
        while i < txn.operations.len()
            invariant
                self.wf(),
                t == txn@,
                ops == t.operations,
                old(self).txns().contains_key(txn_id@),
                t == old(self).txns()[txn_id@],
                !expired(t.created_at, t.timeout, now),
                self.transactions@ == old(self).transactions@.remove(txn_id@),
                self.commits_since_snapshot == old(self).commits_since_snapshot,
                i <= ops.len(),
                commit_ts == old(self).storage.last_commit_ts() + 1,
                self.storage.last_commit_ts() == commit_ts,
                self.storage.events() == events0,
                events0 == old(self).storage.events(),
                vers0 == old(self).version_counters@,
                latest0 == old(self).storage.latest(),
                history0 == old(self).storage.history(),
                was_consistent == old(self).consistent(),
                self.storage.infallible() == old(self).storage.infallible(),
                versions_fit(vers0, ops.subrange(0, i as int)),
                self.version_counters@ == versions_after(vers0, ops.subrange(0, i as int)),
                op_records@ == operation_records(vers0, ops.subrange(0, i as int)),
                self.storage.latest() == latest_after(latest0, op_records@, commit_ts),
                self.storage.history() == history_after(history0, op_records@, commit_ts),
                was_consistent ==> versions_consistent(
                    self.version_counters@,
                    self.storage.latest(),
                    self.storage.history(),
                ),
            decreases ops.len() - i,
        {
            let op = &txn.operations[i];
            let ghost pre = ops.subrange(0, i as int);
            let ghost post = ops.subrange(0, i + 1);
            proof {
                assert(post.drop_last() =~= pre);
                assert(post.last() == ops[i as int]);
            }
            let (record_id, value) = match op {
                StagedOperation::Write { namespace, agent_id, key, value } => (
                    RecordId::new(namespace.clone(), agent_id.clone(), key.clone()),
                    Some(value.clone()),
                ),
                StagedOperation::Delete { namespace, agent_id, key } => (
                    RecordId::new(namespace.clone(), agent_id.clone(), key.clone()),
                    None,
                ),
            };
            let version: Version = match self.version_counters.get(&record_id) {
                Some(v) => {
                    if *v == u64::MAX {
                        proof {
                            if versions_fit(vers0, ops) {
                                lemma_fit_prefix(vers0, ops, i + 1);
                            }
                        }
                        return Err(StateError::Exhausted);
                    }
                    *v + 1
                },
                None => 1,
            };
            let deleted = match &value {
                Some(_) => false,
                None => true,
            };
            let stored_value = match &value {
                Some(v) => Some(v.clone()),
                None => None,
            };
            let o = OperationRecord {
                namespace: record_id.namespace.clone(),
                agent_id: record_id.agent_id.clone(),
                key: record_id.key.clone(),
                value,
                version,
            };
            let record = StateRecord {
                namespace: record_id.namespace.clone(),
                agent_id: record_id.agent_id.clone(),
                key: record_id.key.clone(),
                value: stored_value,
                version,
                commit_ts,
                deleted,
            };
            proof {
                assert(record_id@ == op.record_key());
                assert(o == op_record(*op, version));
                assert(record == state_record_of(o, commit_ts));
                assert(version == next_version(self.version_counters@, op.record_key()));
            }
            let ghost recs_before = op_records@;
            let ghost latest_before = self.storage.latest();
            let ghost history_before = self.storage.history();
            let ghost vers_before = self.version_counters@;
            match self.storage.write_state(record) {
                Ok(()) => {},
                Err(e) => return Err(e),
            }
            self.version_counters.insert(record_id, version);
            op_records.push(o);
            proof {
                assert(op_records@.drop_last() =~= recs_before);
                assert(op_records@.last() == o);
                if was_consistent {
                    lemma_consistent_step(
                        vers_before,
                        latest_before,
                        history_before,
                        o.record_key(),
                        version,
                        state_record_of(o, commit_ts),
                    );
                }
            }
            i = i + 1;
        }
        proof {
            assert(ops.subrange(0, ops.len() as int) =~= ops);
        }
        let ghost recs = op_records@;
        let event = EventLogEntry { txn_id: txn.txn_id, commit_ts, operations: op_records };
        assert(event@ == EventView { txn_id: t.txn_id, commit_ts, operations: recs });
        match self.storage.append_event(event) {
            Ok(()) => {},
            Err(e) => return Err(e),
        }
        match self.storage.flush() {
            Ok(()) => {},
            Err(e) => return Err(e),
        }
        Ok(commit_ts)
    }

    /// Commits transaction `txn_id` at the current wall-clock time.
    pub fn commit(&mut self, txn_id: &str) -> (r: Result<CommitTs, StateError>)
        requires
            old(self).wf(),
        ensures
            final(self).wf(),
            final(self).txns() == old(self).txns().remove(txn_id@),
            final(self).snapshot_counter() == old(self).snapshot_counter(),
            final(self).store().last_commit_ts() >= old(self).store().last_commit_ts(),
            r == Err::<CommitTs, StateError>(StateError::TxnNotFound) <==> !old(self).txns().contains_key(txn_id@),
            r matches Err(e) && !e.is_backend_error() ==> final(self).store() == old(self).store()
                && final(self).versions() == old(self).versions(),
            r matches Ok(ts) ==> final(self).commit_applied(old(self), old(self).txns()[txn_id@], ts),
            r is Ok ==> final(self).store().events().last().txn_id == txn_id@,
            r is Ok && old(self).consistent() ==> final(self).consistent(),
            final(self).store().infallible() == old(self).store().infallible(),
    {
        let now = wall_clock_millis();
        self.commit_at(txn_id, now)
    }
}

impl<S: Storage> StateMachine<S> {
    /// The latest record of (`namespace`, `agent_id`, `key`), tombstones included.
    pub fn get_state(&self, namespace: &str, agent_id: &str, key: &str) -> (r: Result<
        Option<StateRecord>,
        StateError,
    >)
        requires
            self.wf(),
        ensures
            r matches Ok(o) ==> o == lookup(self.store().latest(), (namespace@, agent_id@, key@)),
            self.store().infallible() ==> r is Ok,
    {
        let record_id = RecordId::new(namespace.to_owned(), agent_id.to_owned(), key.to_owned());
        self.storage.read_state(&record_id)
    }

    /// The record of (`namespace`, `agent_id`, `key`) at `version`, if that
    /// version was written.
    pub fn get_state_at_version(&self, namespace: &str, agent_id: &str, key: &str, version: Version) -> (r:
        Result<Option<StateRecord>, StateError>)
        requires
            self.wf(),
        ensures
            r matches Ok(o) ==> o == lookup(self.store().history(), ((namespace@, agent_id@, key@), version)),
            self.store().infallible() ==> r is Ok,
    {
        let record_id = RecordId::new(namespace.to_owned(), agent_id.to_owned(), key.to_owned());
        self.storage.read_state_at_version(&record_id, version)
    }

    /// The keys of the agent whose latest record is not a tombstone, once each.
    pub fn list_keys(&self, namespace: &str, agent_id: &str) -> (r: Result<Vec<String>, StateError>)
        requires
            self.wf(),
        ensures
            r matches Ok(keys) ==> lists_live_keys(keys@, self.store().latest(), namespace@, agent_id@),
            self.store().infallible() ==> r is Ok,
    {
        self.storage.list_keys(namespace, agent_id)
    }

    /// The latest non-tombstone records of the agent whose key starts with
    /// `prefix`, once each.
    pub fn scan_prefix(&self, namespace: &str, agent_id: &str, prefix: &str) -> (r: Result<
        Vec<StateRecord>,
        StateError,
    >)
        requires
            self.wf(),
        ensures
            r matches Ok(recs) ==> lists_scan(recs@, self.store().latest(), namespace@, agent_id@, prefix@),
            self.store().infallible() ==> r is Ok,
    {
        self.storage.scan_prefix(namespace, agent_id, prefix)
    }

    /// The event-log entries, in log order, that touch the agent and whose
    /// commit timestamp lies within the inclusive bounds given.
    pub fn replay(
        &self,
        namespace: &str,
        agent_id: &str,
        start_ts: Option<CommitTs>,
        end_ts: Option<CommitTs>,
    ) -> (r: Result<Vec<EventLogEntry>, StateError>)
        requires
            self.wf(),
        ensures
            r matches Ok(evs) ==> event_views(evs@) == selected_events(
                self.store().events(),
                namespace@,
                agent_id@,
                start_ts,
                end_ts,
            ),
            self.store().infallible() ==> r is Ok,
    {
        self.storage.replay_events(namespace, agent_id, start_ts, end_ts)
    }

    /// Drops every open transaction that is expired at `now`.
    pub fn cleanup_expired_transactions_at(&mut self, now: u64)
        requires
            old(self).wf(),
        ensures
            final(self).wf(),
            swept(old(self).txns(), final(self).txns(), now),
            final(self).store() == old(self).store(),
            final(self).versions() == old(self).versions(),
            final(self).snapshot_counter() == old(self).snapshot_counter(),
    {
        let mut old_table: Table<String, Transaction> = Table::new();
        std::mem::swap(&mut self.transactions, &mut old_table);
        let ghost m0 = old_table@;
        let ghost orig = old_table.entries@;
        let mut entries = old_table.entries;
        while entries.len() > 0
            invariant
                self.transactions.wf(),
                self.version_counters == old(self).version_counters,
                self.storage == old(self).storage,
                self.commits_since_snapshot == old(self).commits_since_snapshot,
                m0 == old(self).transactions@,
                orig == old(self).transactions.entries@,
                old(self).transactions.wf(),
                entries@.len() <= orig.len(),
                entries@ == orig.subrange(0, entries@.len() as int),
                forall|id: Seq<char>| #[trigger]
                    self.transactions@.contains_key(id) ==> m0.contains_key(id) && !expired(
                        m0[id].created_at,
                        m0[id].timeout,
                        now,
                    ) && self.transactions@[id] == m0[id],
                forall|j: int|
                    entries@.len() <= j < orig.len() && !expired(
                        (#[trigger] orig[j]).1.created_at,
                        orig[j].1.timeout,
                        now,
                    ) ==> self.transactions@.contains_key(orig[j].0@),
            decreases entries@.len(),
        {
            let ghost n = entries@.len() - 1;
            match entries.pop() {
                Some((k, t)) => {
                    proof {
                        assert(orig[n] == (k, t));
                        assert(m0.contains_key(k@) && m0[k@] == t@);
                    }
                    if !is_expired(t.created_at, t.timeout, now) {
                        self.transactions.insert(k, t);
                    }
                    proof {
                        assert(entries@ =~= orig.subrange(0, entries@.len() as int));
                    }
                },
                None => {},
            }
        }
        proof {
            assert forall|id: Seq<char>| #[trigger] m0.contains_key(id) && !expired(m0[id].created_at, m0[id].timeout, now)
                implies self.transactions@.contains_key(id) by {
                let j = choose|j: int| 0 <= j < orig.len() && (#[trigger] orig[j]).0@ == id;
                assert(m0[orig[j].0@] == orig[j].1@);
            }
        }
    }

    /// Drops every open transaction that is expired now.
    pub fn cleanup_expired_transactions(&mut self)
        requires
            old(self).wf(),
        ensures
            final(self).wf(),
            exists|now: u64| #[trigger] swept(old(self).txns(), final(self).txns(), now),
            final(self).store() == old(self).store(),
            final(self).versions() == old(self).versions(),
            final(self).snapshot_counter() == old(self).snapshot_counter(),
    {
        let now = wall_clock_millis();
        self.cleanup_expired_transactions_at(now);
    }

    /// Builds a snapshot of the latest records, hands it to the backend to
    /// keep, and resets the count of commits since the last snapshot.
    pub fn create_snapshot(&mut self) -> (r: Result<(), StateError>)
        requires
            old(self).wf(),
        ensures
            final(self).wf(),
            final(self).txns() == old(self).txns(),
            same_contents(old(self).store(), final(self).store()),
            final(self).versions() == old(self).versions(),
            r is Ok ==> final(self).snapshot_counter() == 0,
            r is Ok ==> keeps_snapshot_of(
                final(self).store(),
                old(self).store().latest(),
                old(self).store().last_commit_ts(),
            ),
            r is Err ==> final(self).snapshot_counter() == old(self).snapshot_counter(),
            r matches Err(e) ==> e.is_backend_error(),
            old(self).store().infallible() ==> r is Ok,
    {
        let snapshot = match self.storage.create_snapshot() {
            Ok(s) => s,
            Err(e) => return Err(e),
        };
        match self.storage.save_snapshot(&snapshot) {
            Ok(()) => {},
            Err(e) => return Err(e),
        }
        self.commits_since_snapshot = 0;
        Ok(())
    }

    /// Counts one more commit and, when the count reaches a non-zero
    /// `snapshot_interval`, creates a snapshot. An interval of 0 disables
    /// snapshots.
    pub fn maybe_snapshot(&mut self, snapshot_interval: u64) -> (r: Result<(), StateError>)
        requires
            old(self).wf(),
        ensures
            final(self).wf(),
            final(self).txns() == old(self).txns(),
            final(self).versions() == old(self).versions(),
            ({
                let c = if old(self).snapshot_counter() < u64::MAX {
                    (old(self).snapshot_counter() + 1) as u64
                } else {
                    old(self).snapshot_counter()
                };
                if snapshot_interval > 0 && c >= snapshot_interval {
                    &&& same_contents(old(self).store(), final(self).store())
                    &&& old(self).store().infallible() ==> r is Ok
                    &&& r is Ok ==> final(self).snapshot_counter() == 0 && keeps_snapshot_of(
                        final(self).store(),
                        old(self).store().latest(),
                        old(self).store().last_commit_ts(),
                    )
                    &&& r is Err ==> final(self).snapshot_counter() == c
                } else {
                    &&& r is Ok
                    &&& final(self).snapshot_counter() == c
                    &&& final(self).store() == old(self).store()
                }
            }),
    {
        if self.commits_since_snapshot < u64::MAX {
            self.commits_since_snapshot = self.commits_since_snapshot + 1;
        }
        if snapshot_interval > 0 && self.commits_since_snapshot >= snapshot_interval {
            self.create_snapshot()
        } else {
            Ok(())
        }
    }

    /// Rebuilds the version counters from `snapshot`, whose format version
    /// must be the supported one.
    pub fn recover_from_snapshot(&mut self, snapshot: &Snapshot) -> (r: Result<(), StateError>)
        requires
            old(self).wf(),
        ensures
            final(self).wf(),
            final(self).txns() == old(self).txns(),
            final(self).store() == old(self).store(),
            final(self).snapshot_counter() == old(self).snapshot_counter(),
            r is Err <==> snapshot.metadata.version != SNAPSHOT_VERSION,
            r is Err ==> r == Err::<(), StateError>(StateError::SnapshotVersionMismatch)
                && final(self).versions() == old(self).versions(),
            r is Ok ==> final(self).versions() == snapshot_versions(snapshot.records@),
    {
        if snapshot.metadata.version != SNAPSHOT_VERSION {
            return Err(StateError::SnapshotVersionMismatch);
        }
        let mut counters: Table<RecordId, Version> = Table::new();
        let mut i: usize = 0;
        proof {
            assert(snapshot.records@.subrange(0, 0) =~= Seq::<StateRecord>::empty());
        }
        while i < snapshot.records.len()
            invariant
                counters.wf(),
                i <= snapshot.records@.len(),
                counters@ == snapshot_versions(snapshot.records@.subrange(0, i as int)),
            decreases snapshot.records@.len() - i,
        {
            let record = &snapshot.records[i];
            let record_id = RecordId::new(
                record.namespace.clone(),
                record.agent_id.clone(),
                record.key.clone(),
            );
            proof {
                let post = snapshot.records@.subrange(0, i + 1);
                assert(post.drop_last() =~= snapshot.records@.subrange(0, i as int));
                assert(post.last() == *record);
            }
            counters.insert(record_id, record.version);
            i = i + 1;
        }
        proof {
            assert(snapshot.records@.subrange(0, snapshot.records@.len() as int) =~= snapshot.records@);
        }
        self.version_counters = counters;
        Ok(())
    }
}

} // verus!
