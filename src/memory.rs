//! The in-memory backend: the same record families as the durable layout,
//! held in process memory. Snapshots are not persisted.
use crate::clock::wall_clock_millis;
use crate::records::{EventLogEntry, EventView, Snapshot, SnapshotMetadata, StateRecord, SNAPSHOT_VERSION};
use crate::storage::{
    coherent, event_views, in_range, in_scan, is_live, is_prefix, lists_latest, selected_events,
    touches, Storage,
};
use crate::table::Table;
use crate::types::{CommitTs, RecordId, RecordKey, StateError, Version};
use vstd::prelude::*;

verus! {

/// `p` is a prefix of `s`, decided character by character.
pub fn str_starts_with(s: &str, p: &str) -> (r: bool)
    ensures
        r == is_prefix(p@, s@),
{
    let n = p.unicode_len();
    if n > s.unicode_len() {
        return false;
    }
    let mut i: usize = 0;
    while i < n
        invariant
            n == p@.len(),
            n <= s@.len(),
            i <= n,
            forall|j: int| 0 <= j < i ==> s@[j] == p@[j],
        decreases n - i,
    {
        if s.get_char(i) != p.get_char(i) {
            assert(s@.subrange(0, n as int)[i as int] != p@[i as int]);
            return false;
        }
        i = i + 1;
    }
    assert(s@.subrange(0, n as int) =~= p@);
    true
}

/// Whether `a` and `b` hold the same characters.
pub fn str_equal(a: &str, b: &str) -> (r: bool)
    ensures
        r == (a@ == b@),
{
    if a.unicode_len() != b.unicode_len() {
        return false;
    }
    let r = str_starts_with(a, b);
    proof {
        if r {
            assert(a@.subrange(0, b@.len() as int) =~= a@);
        } else if a@ == b@ {
            assert(a@.subrange(0, b@.len() as int) =~= b@);
        }
    }
    r
}

/// Whether some operation of `e` is on the agent's records.
pub fn event_touches(e: &EventLogEntry, namespace: &str, agent_id: &str) -> (r: bool)
    ensures
        r == touches(e@, namespace@, agent_id@),
{
    let mut i: usize = 0;
    while i < e.operations.len()
        invariant
            i <= e.operations@.len(),
            forall|j: int|
                0 <= j < i ==> !((#[trigger] e.operations@[j]).namespace@ == namespace@
                    && e.operations@[j].agent_id@ == agent_id@),
        decreases e.operations@.len() - i,
    {
        let op = &e.operations[i];
        if str_equal(op.namespace.as_str(), namespace) && str_equal(op.agent_id.as_str(), agent_id) {
            return true;
        }
        i = i + 1;
    }
    false
}

/// Whether `ts` lies within the inclusive bounds that are given.
pub fn ts_in_range(ts: CommitTs, start_ts: Option<CommitTs>, end_ts: Option<CommitTs>) -> (r: bool)
    ensures
        r == in_range(ts, start_ts, end_ts),
{
    let after_start = match start_ts {
        Some(s) => s <= ts,
        None => true,
    };
    let before_end = match end_ts {
        Some(e) => ts <= e,
        None => true,
    };
    after_start && before_end
}

pub struct InMemoryStorage {
    latest: Table<RecordId, StateRecord>,
    history: Table<(RecordId, Version), StateRecord>,
    events: Vec<EventLogEntry>,
    commit_ts_counter: CommitTs,
    saved: Ghost<Option<Snapshot>>,
}

impl InMemoryStorage {
    pub fn new() -> (r: Self)
        ensures
            r.wf(),
            coherent(r.latest(), r.history(), r.events(), r.last_commit_ts()),
            r.latest() == Map::<RecordKey, StateRecord>::empty(),
            r.history() == Map::<(RecordKey, Version), StateRecord>::empty(),
            r.events() == Seq::<EventView>::empty(),
            r.last_commit_ts() == 0,
            r.infallible(),
            r.saved_snapshot() == None::<Snapshot>,
    {
        let r = InMemoryStorage {
            latest: Table::new(),
            history: Table::new(),
            events: Vec::new(),
            commit_ts_counter: 0,
            saved: Ghost(None),
        };
        assert(r.events() =~= Seq::<EventView>::empty());
        r
    }

    /// The latest records, once each, in table order.
    fn latest_records(&self) -> (r: Vec<StateRecord>)
        requires
            self.wf(),
            coherent(self.latest(), self.history(), self.events(), self.last_commit_ts()),
        ensures
            lists_latest(r@, self.latest()),
    {
        let mut out: Vec<StateRecord> = Vec::new();
        let mut i: usize = 0;
        let ghost entries = self.latest.entries@;
        let ghost m = self.latest@;
        while i < self.latest.entries.len()
            invariant
                self.wf(),
                coherent(self.latest(), self.history(), self.events(), self.last_commit_ts()),
                entries == self.latest.entries@,
                m == self.latest@,
                i <= entries.len(),
                out@.len() == i,
                forall|j: int| 0 <= j < i ==> #[trigger] out@[j] == entries[j].1,
            decreases entries.len() - i,
        {
            out.push(self.latest.entries[i].1.clone());
            i = i + 1;
        }
        proof {
            assert forall|j: int| 0 <= j < out@.len() implies #[trigger] out@[j].record_key()
                == entries[j].0@ by {
                assert(m.contains_key(entries[j].0@));
            }
            assert forall|k: RecordKey| #[trigger] m.contains_key(k) implies exists|j: int|
                0 <= j < out@.len() && (#[trigger] out@[j]).record_key() == k by {
                let j = choose|j: int| 0 <= j < entries.len() && (#[trigger] entries[j]).0@ == k;
                assert(out@[j].record_key() == entries[j].0@);
            }
        }
        out
    }
}

impl Storage for InMemoryStorage {
    closed spec fn wf(&self) -> bool {
        self.latest.wf() && self.history.wf()
    }

    closed spec fn latest(&self) -> Map<RecordKey, StateRecord> {
        self.latest@
    }

    closed spec fn history(&self) -> Map<(RecordKey, Version), StateRecord> {
        self.history@
    }

    closed spec fn events(&self) -> Seq<EventView> {
        event_views(self.events@)
    }

    closed spec fn last_commit_ts(&self) -> CommitTs {
        self.commit_ts_counter
    }

    closed spec fn infallible(&self) -> bool {
        true
    }

    closed spec fn saved_snapshot(&self) -> Option<Snapshot> {
        self.saved@
    }

    fn health_check(&self) -> (r: Result<(), StateError>) {
        Ok(())
    }

    fn write_state(&mut self, record: StateRecord) -> (r: Result<(), StateError>) {
        let record_id = RecordId::new(
            record.namespace.clone(),
            record.agent_id.clone(),
            record.key.clone(),
        );
        let version = record.version;
        self.latest.insert(record_id.clone(), record.clone());
        self.history.insert((record_id, version), record);
        Ok(())
    }

    fn read_state(&self, record_id: &RecordId) -> (r: Result<Option<StateRecord>, StateError>) {
        match self.latest.get(record_id) {
            Some(rec) => Ok(Some(rec.clone())),
            None => Ok(None),
        }
    }

    fn read_state_at_version(&self, record_id: &RecordId, version: Version) -> (r: Result<
        Option<StateRecord>,
        StateError,
    >) {
        match self.history.get(&(record_id.clone(), version)) {
            Some(rec) => Ok(Some(rec.clone())),
            None => Ok(None),
        }
    }

    fn list_keys(&self, namespace: &str, agent_id: &str) -> (r: Result<Vec<String>, StateError>) {
        let ghost entries = self.latest.entries@;
        let ghost m = self.latest@;
        let ghost ns = namespace@;
        let ghost ag = agent_id@;
        let mut keys: Vec<String> = Vec::new();
        let mut i: usize = 0;
        while i < self.latest.entries.len()
            invariant
                self.wf(),
                entries == self.latest.entries@,
                m == self.latest@,
                ns == namespace@,
                ag == agent_id@,
                i <= entries.len(),
                forall|a: int, b: int| 0 <= a < b < keys@.len() ==> (#[trigger] keys@[a])@ != (#[trigger] keys@[b])@,
                forall|a: int| 0 <= a < keys@.len() ==> is_live(m, (ns, ag, (#[trigger] keys@[a])@)),
                forall|a: int| 0 <= a < keys@.len() ==> exists|j: int| 0 <= j < i && (#[trigger] entries[j]).0@ == (ns, ag, (#[trigger] keys@[a])@),
                forall|j: int| 0 <= j < i && (#[trigger] entries[j]).0@.0 == ns && entries[j].0@.1 == ag && !entries[j].1.deleted ==> exists|a: int| 0 <= a < keys@.len() && (#[trigger] keys@[a])@ == entries[j].0@.2,
            decreases entries.len() - i,
        {
            let (id, rec) = (&self.latest.entries[i].0, &self.latest.entries[i].1);
            if str_equal(id.namespace.as_str(), namespace) && str_equal(id.agent_id.as_str(), agent_id) && !rec.deleted {
                proof {
                    assert(m.contains_key(entries[i as int].0@));
                    assert forall|a: int| 0 <= a < keys@.len() implies (#[trigger] keys@[a])@ != id.key@ by {
                        let j = choose|j: int| 0 <= j < i && (#[trigger] entries[j]).0@ == (ns, ag, keys@[a]@);
                        assert(entries[j].0@ != entries[i as int].0@);
                    }
                }
                let ghost before = keys@;
                keys.push(id.key.clone());
                proof {
                    let n = before.len() as int;
                    assert(keys@ == before.push(id.key));
                    assert forall|a: int| 0 <= a < keys@.len() implies exists|j: int| 0 <= j < i + 1 && (#[trigger] entries[j]).0@ == (ns, ag, (#[trigger] keys@[a])@) by {
                        if a == n {
                            assert(entries[i as int].0@ == (ns, ag, keys@[a]@));
                        } else {
                            assert(keys@[a] == before[a]);
                            let j = choose|j: int| 0 <= j < i && (#[trigger] entries[j]).0@ == (ns, ag, (#[trigger] before[a])@);
                            assert(entries[j].0@ == (ns, ag, keys@[a]@));
                        }
                    }
                    assert forall|j: int| 0 <= j < i + 1 && (#[trigger] entries[j]).0@.0 == ns && entries[j].0@.1 == ag && !entries[j].1.deleted implies exists|a: int| 0 <= a < keys@.len() && (#[trigger] keys@[a])@ == entries[j].0@.2 by {
                        if j == i {
                            assert(keys@[n]@ == entries[j].0@.2);
                        } else {
                            let a = choose|a: int| 0 <= a < before.len() && (#[trigger] before[a])@ == entries[j].0@.2;
                            assert(keys@[a] == before[a]);
                        }
                    }
                }
            }
            i = i + 1;
        }
        proof {
            assert forall|k: Seq<char>| #[trigger] is_live(m, (ns, ag, k)) implies exists|a: int| 0 <= a < keys@.len() && (#[trigger] keys@[a])@ == k by {
                let j = choose|j: int| 0 <= j < entries.len() && (#[trigger] entries[j]).0@ == (ns, ag, k);
                assert(entries[j].0@.2 == k);
            }
        }
        Ok(keys)
    }

    fn scan_prefix(&self, namespace: &str, agent_id: &str, prefix: &str) -> (r: Result<
        Vec<StateRecord>,
        StateError,
    >) {
        let ghost entries = self.latest.entries@;
        let ghost m = self.latest@;
        let ghost ns = namespace@;
        let ghost ag = agent_id@;
        let ghost pf = prefix@;
        let mut recs: Vec<StateRecord> = Vec::new();
        let mut i: usize = 0;
        while i < self.latest.entries.len()
            invariant
                self.wf(),
                coherent(self.latest(), self.history(), self.events(), self.last_commit_ts()),
                entries == self.latest.entries@,
                m == self.latest@,
                ns == namespace@,
                ag == agent_id@,
                pf == prefix@,
                i <= entries.len(),
                forall|a: int, b: int| 0 <= a < b < recs@.len() ==> (#[trigger] recs@[a]).record_key() != (#[trigger] recs@[b]).record_key(),
                forall|a: int| 0 <= a < recs@.len() ==> {
                    let k = (#[trigger] recs@[a]).record_key();
                    &&& m.contains_key(k)
                    &&& m[k] == recs@[a]
                    &&& is_live(m, k)
                    &&& in_scan(k, ns, ag, pf)
                },
                forall|a: int| 0 <= a < recs@.len() ==> exists|j: int| 0 <= j < i && (#[trigger] entries[j]).0@ == (#[trigger] recs@[a]).record_key(),
                forall|j: int| 0 <= j < i && in_scan((#[trigger] entries[j]).0@, ns, ag, pf) && !entries[j].1.deleted ==> exists|a: int| 0 <= a < recs@.len() && (#[trigger] recs@[a]).record_key() == entries[j].0@,
            decreases entries.len() - i,
        {
            let (id, rec) = (&self.latest.entries[i].0, &self.latest.entries[i].1);
            if str_equal(id.namespace.as_str(), namespace) && str_equal(id.agent_id.as_str(), agent_id)
                && str_starts_with(id.key.as_str(), prefix) && !rec.deleted {
                proof {
                    assert(m.contains_key(entries[i as int].0@));
                    assert(rec.record_key() == id@);
                    assert forall|a: int| 0 <= a < recs@.len() implies (#[trigger] recs@[a]).record_key() != id@ by {
                        let j = choose|j: int| 0 <= j < i && (#[trigger] entries[j]).0@ == recs@[a].record_key();
                        assert(entries[j].0@ != entries[i as int].0@);
                    }
                }
                let ghost before = recs@;
                recs.push(rec.clone());
                proof {
                    let n = before.len() as int;
                    assert(recs@ == before.push(*rec));
                    assert forall|a: int| 0 <= a < recs@.len() implies exists|j: int| 0 <= j < i + 1 && (#[trigger] entries[j]).0@ == (#[trigger] recs@[a]).record_key() by {
                        if a == n {
                            assert(entries[i as int].0@ == recs@[a].record_key());
                        } else {
                            assert(recs@[a] == before[a]);
                            let j = choose|j: int| 0 <= j < i && (#[trigger] entries[j]).0@ == (#[trigger] before[a]).record_key();
                        }
                    }
                    assert forall|j: int| 0 <= j < i + 1 && in_scan((#[trigger] entries[j]).0@, ns, ag, pf) && !entries[j].1.deleted implies exists|a: int| 0 <= a < recs@.len() && (#[trigger] recs@[a]).record_key() == entries[j].0@ by {
                        if j == i {
                            assert(recs@[n].record_key() == entries[j].0@);
                        } else {
                            let a = choose|a: int| 0 <= a < before.len() && (#[trigger] before[a]).record_key() == entries[j].0@;
                            assert(recs@[a] == before[a]);
                        }
                    }
                }
            }
            i = i + 1;
        }
        proof {
            assert forall|k: RecordKey| is_live(m, k) && in_scan(k, ns, ag, pf) implies exists|a: int| 0 <= a < recs@.len() && (#[trigger] recs@[a]).record_key() == k by {
                let j = choose|j: int| 0 <= j < entries.len() && (#[trigger] entries[j]).0@ == k;
            }
        }
        Ok(recs)
    }

    fn append_event(&mut self, event: EventLogEntry) -> (r: Result<(), StateError>) {
        let ghost ev = event@;
        let ghost before = self.events@;
        self.events.push(event);
        proof {
            assert(event_views(self.events@) =~= event_views(before).push(ev));
        }
        Ok(())
    }

    fn replay_events(
        &self,
        namespace: &str,
        agent_id: &str,
        start_ts: Option<CommitTs>,
        end_ts: Option<CommitTs>,
    ) -> (r: Result<Vec<EventLogEntry>, StateError>) {
        let mut out: Vec<EventLogEntry> = Vec::new();
        let mut i: usize = 0;
        while i < self.events.len()
            invariant
                i <= self.events@.len(),
                event_views(out@) == selected_events(
                    event_views(self.events@.subrange(0, i as int)),
                    namespace@,
                    agent_id@,
                    start_ts,
                    end_ts,
                ),
            decreases self.events@.len() - i,
        {
            let e = &self.events[i];
            let ghost prev = event_views(self.events@.subrange(0, i as int));
            proof {
                assert(event_views(self.events@.subrange(0, i + 1)).drop_last() =~= prev);
                assert(event_views(self.events@.subrange(0, i + 1)).last() == e@);
            }
            if event_touches(e, namespace, agent_id) && ts_in_range(e.commit_ts, start_ts, end_ts) {
                let ghost before = out@;
                out.push(e.clone());
                proof {
                    assert(event_views(out@) =~= event_views(before).push(e@));
                }
            }
            i = i + 1;
        }
        proof {
            assert(self.events@.subrange(0, self.events@.len() as int) =~= self.events@);
        }
        Ok(out)
    }

    fn next_commit_ts(&mut self) -> (r: Result<CommitTs, StateError>) {
        if self.commit_ts_counter == u64::MAX {
            return Err(StateError::Exhausted);
        }
        self.commit_ts_counter = self.commit_ts_counter + 1;
        Ok(self.commit_ts_counter)
    }

    fn flush(&self) -> (r: Result<(), StateError>) {
        Ok(())
    }

    fn create_snapshot(&self) -> (r: Result<Snapshot, StateError>) {
        let records = self.latest_records();
        let metadata = SnapshotMetadata {
            version: SNAPSHOT_VERSION,
            snapshot_ts: self.commit_ts_counter,
            record_count: records.len(),
            created_at: wall_clock_millis() / 1000,
        };
        Ok(Snapshot { metadata, records })
    }

    /// The snapshot is kept only in the model: nothing survives the process.
    fn save_snapshot(&mut self, snapshot: &Snapshot) -> (r: Result<(), StateError>) {
        self.saved = Ghost(Some(*snapshot));
        Ok(())
    }

    fn load_snapshot(&self) -> (r: Result<Option<Snapshot>, StateError>) {
        Ok(None)
    }

    fn get_all_state(&self) -> (r: Result<Vec<StateRecord>, StateError>) {
        Ok(self.latest_records())
    }
}

} // verus!
