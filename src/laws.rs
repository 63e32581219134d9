//! Properties that hold of every run of the engine, stated over the
//! contracts of its operations.
use crate::engine::{
    expired, history_after, latest_after, next_version, operation_records, snapshot_versions,
    staged_value, state_record_of, versions_fit, StagedOperation, StateMachine, TxnView,
};
use crate::records::{EventView, OperationRecord, StateRecord};
use crate::storage::{
    events_ordered, in_range, in_scan, is_live, lists_live_keys, lists_scan, lookup,
    selected_events, touches, Storage,
};
use crate::types::{CommitTs, RecordKey, Version};
use vstd::prelude::*;

verus! {

/// Every version of a record from 1 up to its latest can be read back, each
/// at its own version, and the latest version is the latest record.
pub proof fn law_versions_gap_free<S: Storage>(sm: &StateMachine<S>, k: RecordKey, v: Version)
    requires
        sm.wf(),
        sm.consistent(),
        sm.store().latest().contains_key(k),
        1 <= v <= sm.store().latest()[k].version,
    ensures
        lookup(sm.store().history(), (k, v)) matches Some(rec) && rec.version == v && rec.record_key() == k,
        lookup(sm.store().history(), (k, sm.store().latest()[k].version)) == Some(sm.store().latest()[k]),
{
    sm.lemma_coherent();
    assert(sm.versions().contains_key(k));
    assert(sm.store().history().contains_key((k, v)));
}

/// No version outside 1 up to the latest can be read back: not 0, not one
/// past the latest, and none of a record never written.
pub proof fn law_no_version_beyond_latest<S: Storage>(sm: &StateMachine<S>, k: RecordKey, v: Version)
    requires
        sm.wf(),
        sm.consistent(),
        v == 0 || !sm.store().latest().contains_key(k) || v > sm.store().latest()[k].version,
    ensures
        lookup(sm.store().history(), (k, v)) is None,
{
    if sm.store().history().contains_key((k, v)) {
        assert(sm.versions().contains_key(k));
    }
}

/// Commits return strictly increasing timestamps, as long as nothing in
/// between moves the last issued timestamp back (no operation does).
pub proof fn law_commit_ts_increasing<S: Storage>(
    s0: &StateMachine<S>,
    s1: &StateMachine<S>,
    s2: &StateMachine<S>,
    s3: &StateMachine<S>,
    t1: TxnView,
    t2: TxnView,
    ts1: CommitTs,
    ts2: CommitTs,
)
    requires
        s1.commit_applied(s0, t1, ts1),
        s2.store().last_commit_ts() >= s1.store().last_commit_ts(),
        s3.commit_applied(s2, t2, ts2),
    ensures
        ts1 < ts2,
{
}

proof fn lemma_history_after_ts(
    history: Map<(RecordKey, Version), StateRecord>,
    recs: Seq<OperationRecord>,
    ts: CommitTs,
)
    ensures
        forall|i: int|
            0 <= i < recs.len() ==> history_after(history, recs, ts).contains_key(
                ((#[trigger] recs[i]).record_key(), recs[i].version),
            ) && history_after(history, recs, ts)[(recs[i].record_key(), recs[i].version)].commit_ts
                == ts,
    decreases recs.len(),
{
    if recs.len() > 0 {
        let rest = recs.drop_last();
        lemma_history_after_ts(history, rest, ts);
        assert forall|i: int| 0 <= i < recs.len() implies history_after(history, recs, ts).contains_key(
            ((#[trigger] recs[i]).record_key(), recs[i].version),
        ) && history_after(history, recs, ts)[(recs[i].record_key(), recs[i].version)].commit_ts
            == ts by {
            if i < recs.len() - 1 {
                assert(rest[i] == recs[i]);
            }
        }
    }
}

/// The entry a commit appends carries the commit's timestamp, and so does
/// every state record the commit wrote.
pub proof fn law_event_ts_matches_records<S: Storage>(
    before: &StateMachine<S>,
    after: &StateMachine<S>,
    t: TxnView,
    ts: CommitTs,
)
    requires
        after.commit_applied(before, t, ts),
    ensures
        after.store().events().last().commit_ts == ts,
        forall|i: int|
            0 <= i < after.store().events().last().operations.len() ==> {
                let o = #[trigger] after.store().events().last().operations[i];
                after.store().history().contains_key((o.record_key(), o.version))
                    && after.store().history()[(o.record_key(), o.version)].commit_ts == ts
            },
{
    let recs = operation_records(before.versions(), t.operations);
    lemma_history_after_ts(before.store().history(), recs, ts);
}

/// A record whose latest version is a tombstone is not listed among the
/// agent's keys, and its tombstone can still be read at its version.
pub proof fn law_tombstone_hidden_but_versioned<S: Storage>(
    sm: &StateMachine<S>,
    k: RecordKey,
    keys: Seq<String>,
)
    requires
        sm.wf(),
        sm.consistent(),
        sm.store().latest().contains_key(k),
        sm.store().latest()[k].deleted,
        lists_live_keys(keys, sm.store().latest(), k.0, k.1),
    ensures
        forall|i: int| 0 <= i < keys.len() ==> (#[trigger] keys[i])@ != k.2,
        lookup(sm.store().history(), (k, sm.store().latest()[k].version)) == Some(sm.store().latest()[k]),
        sm.store().latest()[k].value is None,
{
    assert forall|i: int| 0 <= i < keys.len() implies (#[trigger] keys[i])@ != k.2 by {
        assert(is_live(sm.store().latest(), (k.0, k.1, keys[i]@)));
    }
    assert(sm.versions().contains_key(k));
    assert(sm.store().history().contains_key((k, sm.versions()[k])));
}

proof fn lemma_selected_events(
    events: Seq<EventView>,
    ns: Seq<char>,
    agent: Seq<char>,
    start: Option<CommitTs>,
    end: Option<CommitTs>,
)
    ensures
        forall|e: EventView|
            selected_events(events, ns, agent, start, end).contains(e) <==> events.contains(e)
                && touches(e, ns, agent) && in_range(e.commit_ts, start, end),
        events_ordered(events) ==> events_ordered(selected_events(events, ns, agent, start, end)),
    decreases events.len(),
{
    if events.len() > 0 {
        let rest = events.drop_last();
        let last = events.last();
        lemma_selected_events(rest, ns, agent, start, end);
        let sel_rest = selected_events(rest, ns, agent, start, end);
        let sel = selected_events(events, ns, agent, start, end);
        assert forall|e: EventView|
            sel.contains(e) <==> events.contains(e) && touches(e, ns, agent) && in_range(e.commit_ts, start, end) by {
            if events.contains(e) {
                let i = choose|i: int| 0 <= i < events.len() && events[i] == e;
                if i < events.len() - 1 {
                    assert(rest[i] == e);
                }
            }
            if rest.contains(e) {
                let i = choose|i: int| 0 <= i < rest.len() && rest[i] == e;
                assert(events[i] == e);
            }
            if sel_rest.contains(e) {
                let i = choose|i: int| 0 <= i < sel_rest.len() && sel_rest[i] == e;
                if touches(last, ns, agent) && in_range(last.commit_ts, start, end) {
                    assert(sel[i] == e);
                }
            }
            if touches(last, ns, agent) && in_range(last.commit_ts, start, end) {
                assert(sel[sel.len() - 1] == last);
                if sel.contains(e) && e != last {
                    let i = choose|i: int| 0 <= i < sel.len() && sel[i] == e;
                    assert(sel_rest[i] == e);
                }
            }
        }
        if events_ordered(events) {
            assert(events_ordered(rest)) by {
                assert forall|i: int, j: int| 0 <= i < j < rest.len() implies (#[trigger] rest[i]).commit_ts
                    < (#[trigger] rest[j]).commit_ts by {
                    assert(rest[i] == events[i] && rest[j] == events[j]);
                }
            }
            if touches(last, ns, agent) && in_range(last.commit_ts, start, end) {
                assert forall|i: int, j: int| 0 <= i < j < sel.len() implies (#[trigger] sel[i]).commit_ts
                    < (#[trigger] sel[j]).commit_ts by {
                    assert(sel[i] == sel_rest[i]);
                    assert(sel_rest.contains(sel[i]));
                    let a = choose|a: int| 0 <= a < events.len() && events[a] == sel[i];
                    if j == sel.len() - 1 {
                        assert(rest.contains(sel[i]));
                        let b = choose|b: int| 0 <= b < rest.len() && rest[b] == sel[i];
                        assert(events[b] == sel[i]);
                        assert(events[events.len() - 1] == last);
                    } else {
                        assert(sel[j] == sel_rest[j]);
                    }
                }
            }
        }
    }
}

/// Replaying an agent without bounds yields exactly the logged entries that
/// touch the agent, in strictly ascending commit timestamp, so each once.
pub proof fn law_replay_exact<S: Storage>(sm: &StateMachine<S>, ns: Seq<char>, agent: Seq<char>)
    requires
        sm.wf(),
    ensures
        events_ordered(selected_events(sm.store().events(), ns, agent, None, None)),
        forall|e: EventView|
            selected_events(sm.store().events(), ns, agent, None, None).contains(e) <==> sm.store().events().contains(e)
                && touches(e, ns, agent),
{
    sm.lemma_coherent();
    lemma_selected_events(sm.store().events(), ns, agent, None, None);
}

/// A commit closes its transaction: committing the same id again finds no
/// transaction.
pub proof fn law_commit_closes_txn<S: Storage>(
    before: &StateMachine<S>,
    after: &StateMachine<S>,
    id: Seq<char>,
)
    requires
        after.txns() == before.txns().remove(id),
    ensures
        !after.txns().contains_key(id),
{
}

proof fn lemma_operation_records_shape(vers: Map<RecordKey, Version>, ops: Seq<StagedOperation>)
    ensures
        operation_records(vers, ops).len() == ops.len(),
        forall|i: int|
            0 <= i < ops.len() ==> (#[trigger] operation_records(vers, ops)[i]).record_key()
                == ops[i].record_key() && operation_records(vers, ops)[i].value == staged_value(ops[i]),
    decreases ops.len(),
{
    if ops.len() > 0 {
        let rest = ops.drop_last();
        lemma_operation_records_shape(vers, rest);
        let recs = operation_records(vers, ops);
        assert forall|i: int| 0 <= i < ops.len() implies (#[trigger] operation_records(vers, ops)[i]).record_key()
            == ops[i].record_key() && operation_records(vers, ops)[i].value == staged_value(ops[i]) by {
            if i < ops.len() - 1 {
                assert(recs[i] == operation_records(vers, rest)[i]);
                assert(rest[i] == ops[i]);
            }
        }
    }
}

proof fn lemma_latest_after_last_write(
    latest: Map<RecordKey, StateRecord>,
    recs: Seq<OperationRecord>,
    ts: CommitTs,
    i: int,
)
    requires
        0 <= i < recs.len(),
        forall|j: int| i < j < recs.len() ==> (#[trigger] recs[j]).record_key() != recs[i].record_key(),
    ensures
        latest_after(latest, recs, ts).contains_key(recs[i].record_key()),
        latest_after(latest, recs, ts)[recs[i].record_key()] == state_record_of(recs[i], ts),
    decreases recs.len(),
{
    if i < recs.len() - 1 {
        let rest = recs.drop_last();
        assert(rest[i] == recs[i]);
        assert forall|j: int| i < j < rest.len() implies (#[trigger] rest[j]).record_key() != rest[i].record_key() by {
            assert(rest[j] == recs[j]);
        }
        lemma_latest_after_last_write(latest, rest, ts, i);
        assert(recs[recs.len() - 1].record_key() != recs[i].record_key());
    }
}

/// Right after a commit, reading a record the transaction wrote gives the
/// value of the last operation staged on it, at the commit's timestamp.
pub proof fn law_read_after_commit<S: Storage>(
    before: &StateMachine<S>,
    after: &StateMachine<S>,
    t: TxnView,
    ts: CommitTs,
    i: int,
)
    requires
        after.commit_applied(before, t, ts),
        0 <= i < t.operations.len(),
        forall|j: int|
            i < j < t.operations.len() ==> (#[trigger] t.operations[j]).record_key()
                != t.operations[i].record_key(),
    ensures
        ({
            let k = t.operations[i].record_key();
            &&& after.store().latest().contains_key(k)
            &&& after.store().latest()[k].value == staged_value(t.operations[i])
            &&& after.store().latest()[k].deleted == (staged_value(t.operations[i]) is None)
            &&& after.store().latest()[k].commit_ts == ts
        }),
{
    let recs = operation_records(before.versions(), t.operations);
    lemma_operation_records_shape(before.versions(), t.operations);
    assert forall|j: int| i < j < recs.len() implies (#[trigger] recs[j]).record_key() != recs[i].record_key() by {
        assert(recs[j].record_key() == t.operations[j].record_key());
    }
    lemma_latest_after_last_write(before.store().latest(), recs, ts, i);
}

/// After recovery from a snapshot that holds one record per identity, the
/// next write to a snapshotted identity takes the version after the
/// snapshot's.
pub proof fn law_recovered_next_version(records: Seq<StateRecord>, i: int)
    requires
        0 <= i < records.len(),
        forall|a: int, b: int|
            0 <= a < b < records.len() ==> (#[trigger] records[a]).record_key() != (#[trigger] records[b]).record_key(),
    ensures
        next_version(snapshot_versions(records), records[i].record_key()) == records[i].version + 1,
    decreases records.len(),
{
    if i < records.len() - 1 {
        let rest = records.drop_last();
        assert(rest[i] == records[i]);
        assert forall|a: int, b: int| 0 <= a < b < rest.len() implies (#[trigger] rest[a]).record_key() != (#[trigger] rest[b]).record_key() by {
            assert(rest[a] == records[a] && rest[b] == records[b]);
        }
        law_recovered_next_version(rest, i);
        assert(records[records.len() - 1].record_key() != records[i].record_key());
    }
}

/// A transaction touched after its deadline (begin time plus timeout) is
/// expired.
pub proof fn law_expired_after_deadline(created_at: u64, timeout: u64, now: u64)
    requires
        now > created_at + timeout,
    ensures
        expired(created_at, timeout, now),
{
}

/// Committing a transaction with no staged operations advances the commit
/// timestamp and logs an entry with no operations, and writes nothing.
pub proof fn law_empty_commit<S: Storage>(
    before: &StateMachine<S>,
    after: &StateMachine<S>,
    t: TxnView,
    ts: CommitTs,
)
    requires
        after.commit_applied(before, t, ts),
        t.operations.len() == 0,
    ensures
        ts > before.store().last_commit_ts(),
        after.store().events() == before.store().events().push(
            EventView { txn_id: t.txn_id, commit_ts: ts, operations: Seq::empty() },
        ),
        after.store().latest() == before.store().latest(),
        after.store().history() == before.store().history(),
        after.versions() == before.versions(),
{
}

/// A transaction with no staged operations exhausts no version counter and
/// records no operations, so on a backend that cannot fail its commit
/// succeeds whenever it is not expired and a timestamp is left.
pub proof fn law_empty_txn_fits(vers: Map<RecordKey, Version>)
    ensures
        versions_fit(vers, Seq::<StagedOperation>::empty()),
        operation_records(vers, Seq::<StagedOperation>::empty()) == Seq::<OperationRecord>::empty(),
{
}

/// A scan with the empty prefix lists every live latest record of the agent.
pub proof fn law_scan_empty_prefix(
    recs: Seq<StateRecord>,
    latest: Map<RecordKey, StateRecord>,
    ns: Seq<char>,
    agent: Seq<char>,
)
    requires
        lists_scan(recs, latest, ns, agent, Seq::empty()),
    ensures
        forall|i: int|
            0 <= i < recs.len() ==> is_live(latest, (#[trigger] recs[i]).record_key())
                && recs[i].record_key().0 == ns && recs[i].record_key().1 == agent,
        forall|k: RecordKey|
            is_live(latest, k) && k.0 == ns && k.1 == agent ==> exists|i: int|
                0 <= i < recs.len() && (#[trigger] recs[i]).record_key() == k,
{
    assert forall|k: RecordKey| is_live(latest, k) && k.0 == ns && k.1 == agent implies exists|i: int|
        0 <= i < recs.len() && (#[trigger] recs[i]).record_key() == k by {
        assert(k.2.subrange(0, 0) =~= Seq::<char>::empty());
        assert(in_scan(k, ns, agent, Seq::empty()));
    }
}

} // verus!
