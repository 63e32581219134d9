//! The backend contract: what every storage backend offers the engine,
//! stated over an abstract model of its contents.
use crate::records::{EventLogEntry, EventView, Snapshot, StateRecord, SNAPSHOT_VERSION};
use crate::types::{CommitTs, RecordId, RecordKey, StateError, Version};
use vstd::prelude::*;

verus! {

/// `p` is a prefix of `s`.
pub open spec fn is_prefix(p: Seq<char>, s: Seq<char>) -> bool {
    p.len() <= s.len() && s.subrange(0, p.len() as int) == p
}

/// The latest record of `k` exists and is not a tombstone.
pub open spec fn is_live(latest: Map<RecordKey, StateRecord>, k: RecordKey) -> bool {
    latest.contains_key(k) && !latest[k].deleted
}

/// `k` belongs to the agent and its key starts with `prefix`.
pub open spec fn in_scan(k: RecordKey, ns: Seq<char>, agent: Seq<char>, prefix: Seq<char>) -> bool {
    k.0 == ns && k.1 == agent && is_prefix(prefix, k.2)
}

pub open spec fn lookup<K, V>(m: Map<K, V>, k: K) -> Option<V> {
    if m.contains_key(k) {
        Some(m[k])
    } else {
        None
    }
}

/// Every record sits under its own identity, every historical record under
/// its identity and version; events are in strictly ascending commit
/// timestamp, none beyond the last one issued.
pub open spec fn coherent(
    latest: Map<RecordKey, StateRecord>,
    history: Map<(RecordKey, Version), StateRecord>,
    events: Seq<EventView>,
    last_ts: CommitTs,
) -> bool {
    &&& forall|k: RecordKey| #[trigger] latest.contains_key(k) ==> latest[k].record_key() == k
    &&& forall|kv: (RecordKey, Version)| #[trigger]
        history.contains_key(kv) ==> history[kv].record_key() == kv.0 && history[kv].version
            == kv.1
    &&& events_ordered(events)
    &&& forall|i: int| 0 <= i < events.len() ==> (#[trigger] events[i]).commit_ts <= last_ts
}

pub open spec fn events_ordered(events: Seq<EventView>) -> bool {
    forall|i: int, j: int|
        0 <= i < j < events.len() ==> (#[trigger] events[i]).commit_ts < (#[trigger] events[j]).commit_ts
}

/// The entry holds an operation on the agent's records.
pub open spec fn touches(e: EventView, ns: Seq<char>, agent: Seq<char>) -> bool {
    exists|i: int|
        0 <= i < e.operations.len() && (#[trigger] e.operations[i]).namespace@ == ns
            && e.operations[i].agent_id@ == agent
}

/// `ts` lies within the inclusive bounds that are given.
pub open spec fn in_range(ts: CommitTs, start: Option<CommitTs>, end: Option<CommitTs>) -> bool {
    (start matches Some(s) ==> s <= ts) && (end matches Some(e) ==> ts <= e)
}

/// The entries, in order, that touch the agent and lie within the bounds.
pub open spec fn selected_events(
    events: Seq<EventView>,
    ns: Seq<char>,
    agent: Seq<char>,
    start: Option<CommitTs>,
    end: Option<CommitTs>,
) -> Seq<EventView>
    decreases events.len(),
{
    if events.len() == 0 {
        Seq::empty()
    } else {
        let rest = selected_events(events.drop_last(), ns, agent, start, end);
        let e = events.last();
        if touches(e, ns, agent) && in_range(e.commit_ts, start, end) {
            rest.push(e)
        } else {
            rest
        }
    }
}

pub open spec fn event_views(s: Seq<EventLogEntry>) -> Seq<EventView> {
    s.map_values(|e: EventLogEntry| e@)
}

/// `keys` lists, once each, the keys of the agent whose latest record is live.
pub open spec fn lists_live_keys(
    keys: Seq<String>,
    latest: Map<RecordKey, StateRecord>,
    ns: Seq<char>,
    agent: Seq<char>,
) -> bool {
    &&& forall|i: int, j: int| 0 <= i < j < keys.len() ==> (#[trigger] keys[i])@ != (#[trigger] keys[j])@
    &&& forall|i: int| 0 <= i < keys.len() ==> is_live(latest, (ns, agent, (#[trigger] keys[i])@))
    &&& forall|k: Seq<char>| #[trigger] is_live(latest, (ns, agent, k)) ==> exists|i: int|
        0 <= i < keys.len() && (#[trigger] keys[i])@ == k
}

/// `recs` lists, once each, the latest live records of the agent whose key
/// starts with `prefix`.
pub open spec fn lists_scan(
    recs: Seq<StateRecord>,
    latest: Map<RecordKey, StateRecord>,
    ns: Seq<char>,
    agent: Seq<char>,
    prefix: Seq<char>,
) -> bool {
    &&& forall|i: int, j: int|
        0 <= i < j < recs.len() ==> (#[trigger] recs[i]).record_key() != (#[trigger] recs[j]).record_key()
    &&& forall|i: int|
        0 <= i < recs.len() ==> {
            let k = (#[trigger] recs[i]).record_key();
            &&& latest.contains_key(k)
            &&& latest[k] == recs[i]
            &&& is_live(latest, k)
            &&& in_scan(k, ns, agent, prefix)
        }
    &&& forall|k: RecordKey|
        #![trigger latest.contains_key(k), in_scan(k, ns, agent, prefix)]
        is_live(latest, k) && in_scan(k, ns, agent, prefix) ==> exists|i: int|
            0 <= i < recs.len() && (#[trigger] recs[i]).record_key() == k
}

/// `recs` lists the latest record of every identity, once each.
pub open spec fn lists_latest(recs: Seq<StateRecord>, latest: Map<RecordKey, StateRecord>) -> bool {
    &&& forall|i: int, j: int|
        0 <= i < j < recs.len() ==> (#[trigger] recs[i]).record_key() != (#[trigger] recs[j]).record_key()
    &&& forall|i: int|
        0 <= i < recs.len() ==> latest.contains_key((#[trigger] recs[i]).record_key())
            && latest[recs[i].record_key()] == recs[i]
    &&& forall|k: RecordKey| #[trigger]
        latest.contains_key(k) ==> exists|i: int|
            0 <= i < recs.len() && (#[trigger] recs[i]).record_key() == k
}

/// `s` is a snapshot of `latest` taken when `last_ts` was the last commit
/// timestamp issued.
pub open spec fn is_snapshot_of(s: Snapshot, latest: Map<RecordKey, StateRecord>, last_ts: CommitTs) -> bool {
    &&& s.metadata.version == SNAPSHOT_VERSION
    &&& s.metadata.snapshot_ts == last_ts
    &&& s.metadata.record_count == s.records@.len()
    &&& lists_latest(s.records@, latest)
}

/// An ordered key-value backend holding state records, their history and
/// the event log.
pub trait Storage: Sized {
    /// The backend's own well-formedness.
    spec fn wf(&self) -> bool;

    /// The latest record of each identity.
    spec fn latest(&self) -> Map<RecordKey, StateRecord>;

    /// Every record written, by identity and version.
    spec fn history(&self) -> Map<(RecordKey, Version), StateRecord>;

    /// The event log, in order.
    spec fn events(&self) -> Seq<EventView>;

    /// The last commit timestamp issued (0 before the first).
    spec fn last_commit_ts(&self) -> CommitTs;

    /// The snapshot the backend last kept, if any.
    spec fn saved_snapshot(&self) -> Option<Snapshot>;

    /// The backend cannot fail (as one held in memory): each operation then
    /// succeeds, except for issuing a timestamp past `u64::MAX`.
    spec fn infallible(&self) -> bool;

    fn health_check(&self) -> (r: Result<(), StateError>)
        requires
            self.wf(),
        ensures
            self.infallible() ==> r is Ok,
    ;

    /// Writes `record` as the latest record of its identity and as the record
    /// at its version.
    fn write_state(&mut self, record: StateRecord) -> (r: Result<(), StateError>)
        requires
            old(self).wf(),
            coherent(old(self).latest(), old(self).history(), old(self).events(), old(self).last_commit_ts()),
        ensures
            final(self).wf(),
            coherent(final(self).latest(), final(self).history(), final(self).events(), final(self).last_commit_ts()),
            final(self).events() == old(self).events(),
            final(self).last_commit_ts() == old(self).last_commit_ts(),
            r is Ok ==> final(self).latest() == old(self).latest().insert(record.record_key(), record),
            r is Ok ==> final(self).history() == old(self).history().insert(
                (record.record_key(), record.version),
                record,
            ),
            r matches Err(e) ==> e.is_backend_error(),
            final(self).infallible() == old(self).infallible(),
            old(self).infallible() ==> r is Ok,
            final(self).saved_snapshot() == old(self).saved_snapshot(),
    ;

    fn read_state(&self, record_id: &RecordId) -> (r: Result<Option<StateRecord>, StateError>)
        requires
            self.wf(),
        ensures
            r matches Ok(o) ==> o == lookup(self.latest(), record_id@),
            self.infallible() ==> r is Ok,
    ;

    fn read_state_at_version(&self, record_id: &RecordId, version: Version) -> (r: Result<
        Option<StateRecord>,
        StateError,
    >)
        requires
            self.wf(),
        ensures
            r matches Ok(o) ==> o == lookup(self.history(), (record_id@, version)),
            self.infallible() ==> r is Ok,
    ;

    fn list_keys(&self, namespace: &str, agent_id: &str) -> (r: Result<Vec<String>, StateError>)
        requires
            self.wf(),
            coherent(self.latest(), self.history(), self.events(), self.last_commit_ts()),
        ensures
            r matches Ok(keys) ==> lists_live_keys(keys@, self.latest(), namespace@, agent_id@),
            self.infallible() ==> r is Ok,
    ;

    fn scan_prefix(&self, namespace: &str, agent_id: &str, prefix: &str) -> (r: Result<
        Vec<StateRecord>,
        StateError,
    >)
        requires
            self.wf(),
            coherent(self.latest(), self.history(), self.events(), self.last_commit_ts()),
        ensures
            r matches Ok(recs) ==> lists_scan(recs@, self.latest(), namespace@, agent_id@, prefix@),
            self.infallible() ==> r is Ok,
    ;

    /// Appends `event`, whose timestamp is issued and later than any logged.
    fn append_event(&mut self, event: EventLogEntry) -> (r: Result<(), StateError>)
        requires
            old(self).wf(),
            coherent(old(self).latest(), old(self).history(), old(self).events(), old(self).last_commit_ts()),
            event.commit_ts <= old(self).last_commit_ts(),
            forall|i: int|
                0 <= i < old(self).events().len() ==> (#[trigger] old(self).events()[i]).commit_ts
                    < event.commit_ts,
        ensures
            final(self).wf(),
            coherent(final(self).latest(), final(self).history(), final(self).events(), final(self).last_commit_ts()),
            final(self).latest() == old(self).latest(),
            final(self).history() == old(self).history(),
            final(self).last_commit_ts() == old(self).last_commit_ts(),
            r is Ok ==> final(self).events() == old(self).events().push(event@),
            r is Err ==> final(self).events() == old(self).events() || final(self).events()
                == old(self).events().push(event@),
            r matches Err(e) ==> e.is_backend_error(),
            final(self).infallible() == old(self).infallible(),
            old(self).infallible() ==> r is Ok,
            final(self).saved_snapshot() == old(self).saved_snapshot(),
    ;

    fn replay_events(
        &self,
        namespace: &str,
        agent_id: &str,
        start_ts: Option<CommitTs>,
        end_ts: Option<CommitTs>,
    ) -> (r: Result<Vec<EventLogEntry>, StateError>)
        requires
            self.wf(),
            coherent(self.latest(), self.history(), self.events(), self.last_commit_ts()),
        ensures
            r matches Ok(evs) ==> event_views(evs@) == selected_events(
                self.events(),
                namespace@,
                agent_id@,
                start_ts,
                end_ts,
            ),
            self.infallible() ==> r is Ok,
    ;

    /// Issues the next commit timestamp, durably.
    fn next_commit_ts(&mut self) -> (r: Result<CommitTs, StateError>)
        requires
            old(self).wf(),
            coherent(old(self).latest(), old(self).history(), old(self).events(), old(self).last_commit_ts()),
        ensures
            final(self).wf(),
            coherent(final(self).latest(), final(self).history(), final(self).events(), final(self).last_commit_ts()),
            final(self).latest() == old(self).latest(),
            final(self).history() == old(self).history(),
            final(self).events() == old(self).events(),
            final(self).last_commit_ts() >= old(self).last_commit_ts(),
            r matches Ok(ts) ==> ts == old(self).last_commit_ts() + 1 && final(self).last_commit_ts() == ts,
            r matches Err(e) ==> e.is_backend_error(),
            final(self).infallible() == old(self).infallible(),
            old(self).infallible() && old(self).last_commit_ts() < u64::MAX ==> r is Ok,
            final(self).saved_snapshot() == old(self).saved_snapshot(),
    ;

    fn flush(&self) -> (r: Result<(), StateError>)
        requires
            self.wf(),
        ensures
            r matches Err(e) ==> e.is_backend_error(),
            self.infallible() ==> r is Ok,
    ;

    fn create_snapshot(&self) -> (r: Result<Snapshot, StateError>)
        requires
            self.wf(),
            coherent(self.latest(), self.history(), self.events(), self.last_commit_ts()),
        ensures
            r matches Ok(s) ==> is_snapshot_of(s, self.latest(), self.last_commit_ts()),
            r matches Err(e) ==> e.is_backend_error(),
            self.infallible() ==> r is Ok,
    ;

    /// Keeps `snapshot`, replacing the one kept before.
    fn save_snapshot(&mut self, snapshot: &Snapshot) -> (r: Result<(), StateError>)
        requires
            old(self).wf(),
            coherent(old(self).latest(), old(self).history(), old(self).events(), old(self).last_commit_ts()),
        ensures
            final(self).wf(),
            coherent(final(self).latest(), final(self).history(), final(self).events(), final(self).last_commit_ts()),
            final(self).latest() == old(self).latest(),
            final(self).history() == old(self).history(),
            final(self).events() == old(self).events(),
            final(self).last_commit_ts() == old(self).last_commit_ts(),
            final(self).infallible() == old(self).infallible(),
            r is Ok ==> final(self).saved_snapshot() == Some(*snapshot),
            r matches Err(e) ==> e.is_backend_error(),
            old(self).infallible() ==> r is Ok,
    ;

    fn load_snapshot(&self) -> (r: Result<Option<Snapshot>, StateError>)
        requires
            self.wf(),
        ensures
            r matches Ok(Some(s)) ==> s.metadata.version == SNAPSHOT_VERSION,
            self.infallible() ==> r is Ok,
    ;

    fn get_all_state(&self) -> (r: Result<Vec<StateRecord>, StateError>)
        requires
            self.wf(),
            coherent(self.latest(), self.history(), self.events(), self.last_commit_ts()),
        ensures
            r matches Ok(recs) ==> lists_latest(recs@, self.latest()),
            self.infallible() ==> r is Ok,
    ;
}

} // verus!
