//! The byte layout of the durable backend's ordered key space.
//!
//! | family           | key                                          |
//! |------------------|----------------------------------------------|
//! | latest state     | `state:{ns}:{agent}:{key}`                   |
//! | versioned state  | `version:{ns}:{agent}:{key}:{version:020}`   |
//! | event-log entry  | `event:{commit_ts:020}`                      |
//! | commit counter   | `__commit_ts__`, value 8 bytes big-endian    |
use crate::memory::{event_touches, str_equal, str_starts_with, ts_in_range};
use crate::records::{EventLogEntry, StateRecord};
use crate::storage::{in_range, in_scan, touches};
use crate::types::{CommitTs, RecordId, RecordKey, Version};
use vstd::prelude::*;
use vstd::utf8::encode_utf8;

verus! {

/// Width of the zero-padded decimal numbers in keys; enough for any `u64`.
pub const DECIMAL_WIDTH: usize = 20;

pub open spec fn colon() -> Seq<u8> {
    seq![58u8]
}

/// `state:`
pub open spec fn state_tag() -> Seq<u8> {
    seq![115u8, 116, 97, 116, 101, 58]
}

/// `version:`
pub open spec fn version_tag() -> Seq<u8> {
    seq![118u8, 101, 114, 115, 105, 111, 110, 58]
}

/// `event:`
pub open spec fn event_tag() -> Seq<u8> {
    seq![101u8, 118, 101, 110, 116, 58]
}

/// `__commit_ts__`
pub open spec fn commit_ts_tag() -> Seq<u8> {
    seq![95u8, 95, 99, 111, 109, 109, 105, 116, 95, 116, 115, 95, 95]
}

/// The last `width` decimal digits of `n`, most significant first, as ASCII.
pub open spec fn decimal_digits(n: nat, width: nat) -> Seq<u8>
    decreases width,
{
    if width == 0 {
        Seq::empty()
    } else {
        decimal_digits(n / 10, (width - 1) as nat).push((48 + n % 10) as u8)
    }
}

/// The last `width` base-256 digits of `n`, most significant first.
pub open spec fn be_bytes(n: nat, width: nat) -> Seq<u8>
    decreases width,
{
    if width == 0 {
        Seq::empty()
    } else {
        be_bytes(n / 256, (width - 1) as nat).push((n % 256) as u8)
    }
}

/// The number that big-endian `bytes` denote.
pub open spec fn be_value(bytes: Seq<u8>) -> nat
    decreases bytes.len(),
{
    if bytes.len() == 0 {
        0
    } else {
        be_value(bytes.drop_last()) * 256 + bytes.last() as nat
    }
}

pub open spec fn state_key_of(k: RecordKey) -> Seq<u8> {
    state_tag() + encode_utf8(k.0) + colon() + encode_utf8(k.1) + colon() + encode_utf8(k.2)
}

pub open spec fn version_key_of(k: RecordKey, version: Version) -> Seq<u8> {
    version_tag() + encode_utf8(k.0) + colon() + encode_utf8(k.1) + colon() + encode_utf8(k.2)
        + colon() + decimal_digits(version as nat, DECIMAL_WIDTH as nat)
}

pub open spec fn event_key_of(ts: CommitTs) -> Seq<u8> {
    event_tag() + decimal_digits(ts as nat, DECIMAL_WIDTH as nat)
}

pub open spec fn state_scan_prefix_of(ns: Seq<char>, agent: Seq<char>, prefix: Seq<char>) -> Seq<u8> {
    state_tag() + encode_utf8(ns) + colon() + encode_utf8(agent) + colon() + encode_utf8(prefix)
}

fn push_bytes(out: &mut Vec<u8>, bytes: &[u8])
    ensures
        final(out)@ == old(out)@ + bytes@,
{
    let ghost before = out@;
    out.extend_from_slice(bytes);
    assert(out@ =~= before + bytes@);
}

fn push_str_bytes(out: &mut Vec<u8>, s: &str)
    ensures
        final(out)@ == old(out)@ + encode_utf8(s@),
{
    push_bytes(out, s.as_bytes());
}

fn state_tag_bytes() -> (r: Vec<u8>)
    ensures
        r@ == state_tag(),
{
    let r = vec![115u8, 116, 97, 116, 101, 58];
    assert(r@ =~= state_tag());
    r
}

/// The last `width` decimal digits of `n`, zero-padded, as ASCII.
pub fn decimal_padded(n: u64, width: usize) -> (r: Vec<u8>)
    ensures
        r@ == decimal_digits(n as nat, width as nat),
    decreases width,
{
    if width == 0 {
        Vec::new()
    } else {
        let mut r = decimal_padded(n / 10, width - 1);
        r.push((48 + n % 10) as u8);
        r
    }
}

/// `state:{ns}:{agent}:{key}`
pub fn state_key(record_id: &RecordId) -> (r: Vec<u8>)
    ensures
        r@ == state_key_of(record_id@),
{
    let mut r = state_tag_bytes();
    push_str_bytes(&mut r, record_id.namespace.as_str());
    r.push(58u8);
    push_str_bytes(&mut r, record_id.agent_id.as_str());
    r.push(58u8);
    push_str_bytes(&mut r, record_id.key.as_str());
    assert(r@ =~= state_key_of(record_id@));
    r
}

/// `version:{ns}:{agent}:{key}:{version:020}`
pub fn version_key(record_id: &RecordId, version: Version) -> (r: Vec<u8>)
    ensures
        r@ == version_key_of(record_id@, version),
{
    let mut r = vec![118u8, 101, 114, 115, 105, 111, 110, 58];
    assert(r@ =~= version_tag());
    push_str_bytes(&mut r, record_id.namespace.as_str());
    r.push(58u8);
    push_str_bytes(&mut r, record_id.agent_id.as_str());
    r.push(58u8);
    push_str_bytes(&mut r, record_id.key.as_str());
    r.push(58u8);
    let digits = decimal_padded(version, DECIMAL_WIDTH);
    push_bytes(&mut r, digits.as_slice());
    assert(r@ =~= version_key_of(record_id@, version));
    r
}

/// `event:` followed by the zero-padded commit timestamp.
pub fn event_key(commit_ts: CommitTs) -> (r: Vec<u8>)
    ensures
        r@ == event_key_of(commit_ts),
{
    let mut r = event_family_prefix();
    let digits = decimal_padded(commit_ts, DECIMAL_WIDTH);
    push_bytes(&mut r, digits.as_slice());
    r
}

/// `event:`, the prefix of every event-log key.
pub fn event_family_prefix() -> (r: Vec<u8>)
    ensures
        r@ == event_tag(),
{
    let r = vec![101u8, 118, 101, 110, 116, 58];
    assert(r@ =~= event_tag());
    r
}

/// `state:`, the prefix of every latest-state key.
pub fn state_family_prefix() -> (r: Vec<u8>)
    ensures
        r@ == state_tag(),
{
    state_tag_bytes()
}

/// `state:{ns}:{agent}:{prefix}`, the prefix of the latest-state keys of the
/// agent whose key starts with `prefix`.
pub fn state_scan_prefix(namespace: &str, agent_id: &str, prefix: &str) -> (r: Vec<u8>)
    ensures
        r@ == state_scan_prefix_of(namespace@, agent_id@, prefix@),
{
    let mut r = state_tag_bytes();
    push_str_bytes(&mut r, namespace);
    r.push(58u8);
    push_str_bytes(&mut r, agent_id);
    r.push(58u8);
    push_str_bytes(&mut r, prefix);
    assert(r@ =~= state_scan_prefix_of(namespace@, agent_id@, prefix@));
    r
}

/// `__commit_ts__`, the key of the commit-timestamp counter.
pub fn commit_ts_key() -> (r: Vec<u8>)
    ensures
        r@ == commit_ts_tag(),
{
    let r = vec![95u8, 95, 99, 111, 109, 109, 105, 116, 95, 116, 115, 95, 95];
    assert(r@ =~= commit_ts_tag());
    r
}

fn be_padded(n: u64, width: usize) -> (r: Vec<u8>)
    ensures
        r@ == be_bytes(n as nat, width as nat),
    decreases width,
{
    if width == 0 {
        Vec::new()
    } else {
        let mut r = be_padded(n / 256, width - 1);
        r.push((n % 256) as u8);
        r
    }
}

/// The stored form of the commit-timestamp counter: 8 bytes, big-endian.
pub fn encode_commit_ts(ts: CommitTs) -> (r: Vec<u8>)
    ensures
        r@ == be_bytes(ts as nat, 8),
{
    be_padded(ts, 8)
}

/// The counter stored as `bytes`; 0 unless they are exactly 8 bytes.
pub fn decode_commit_ts(bytes: &[u8]) -> (r: CommitTs)
    ensures
        bytes@.len() == 8 ==> r == be_value(bytes@),
        bytes@.len() != 8 ==> r == 0,
{
    if bytes.len() != 8 {
        return 0;
    }
    let mut acc: u64 = 0;
    let mut i: usize = 0;
    while i < 8
        invariant
            bytes@.len() == 8,
            i <= 8,
            acc == be_value(bytes@.subrange(0, i as int)),
            acc < pow256(i as nat),
        decreases 8 - i,
    {
        proof {
            let s = bytes@.subrange(0, i + 1);
            assert(s.drop_last() =~= bytes@.subrange(0, i as int));
            lemma_pow256_step(i as nat);
            assert(acc * 256 + bytes@[i as int] < pow256((i + 1) as nat)) by (nonlinear_arith)
                requires
                    acc < pow256(i as nat),
                    bytes@[i as int] < 256,
                    pow256((i + 1) as nat) == pow256(i as nat) * 256,
            ;
            lemma_pow256_bound(i as nat);
        }
        acc = acc * 256 + bytes[i] as u64;
        i = i + 1;
    }
    assert(bytes@.subrange(0, 8) =~= bytes@);
    acc
}

pub open spec fn pow256(n: nat) -> nat
    decreases n,
{
    if n == 0 {
        1
    } else {
        pow256((n - 1) as nat) * 256
    }
}

proof fn lemma_pow256_step(n: nat)
    ensures
        pow256(n + 1) == pow256(n) * 256,
{
}

proof fn lemma_pow256_bound(n: nat)
    requires
        n <= 7,
    ensures
        pow256(n + 1) <= 0x1_0000_0000_0000_0000,
{
    reveal_with_fuel(pow256, 9);
    if n == 0 {
    } else if n == 1 {
    } else if n == 2 {
    } else if n == 3 {
    } else if n == 4 {
    } else if n == 5 {
    } else if n == 6 {
    } else {
        assert(n == 7);
    }
}

proof fn lemma_be_round_trip(n: nat, width: nat)
    ensures
        be_value(be_bytes(n, width)) == n % pow256(width),
    decreases width,
{
    if width > 0 {
        let w1 = (width - 1) as nat;
        lemma_be_round_trip(n / 256, w1);
        let bytes = be_bytes(n, width);
        assert(bytes.drop_last() =~= be_bytes(n / 256, w1));
        assert(pow256(w1) > 0) by {
            lemma_pow256_positive(w1);
        }
        vstd::arithmetic::div_mod::lemma_mod_breakdown(n as int, 256, pow256(w1) as int);
        assert(256 * pow256(w1) == pow256(width));
    } else {
        assert(n % 1 == 0);
    }
}

proof fn lemma_pow256_positive(n: nat)
    ensures
        pow256(n) > 0,
    decreases n,
{
    if n > 0 {
        lemma_pow256_positive((n - 1) as nat);
    }
}

/// The stored counter reads back as the value written.
pub proof fn law_commit_ts_round_trip(ts: CommitTs)
    ensures
        be_bytes(ts as nat, 8).len() == 8,
        be_value(be_bytes(ts as nat, 8)) == ts,
{
    lemma_be_round_trip(ts as nat, 8);
    lemma_pow256_bound(7);
    reveal_with_fuel(pow256, 9);
    reveal_with_fuel(be_bytes, 9);
    assert(pow256(8) == 0x1_0000_0000_0000_0000);
    vstd::arithmetic::div_mod::lemma_small_mod(ts as nat, pow256(8));
}

/// The records of `recs`, in order, that are live and belong to the agent
/// with a key that starts with `prefix`.
pub open spec fn scan_hits(recs: Seq<StateRecord>, ns: Seq<char>, agent: Seq<char>, prefix: Seq<char>) -> Seq<
    StateRecord,
>
    decreases recs.len(),
{
    if recs.len() == 0 {
        Seq::empty()
    } else {
        let rest = scan_hits(recs.drop_last(), ns, agent, prefix);
        let r = recs.last();
        if in_scan(r.record_key(), ns, agent, prefix) && !r.deleted {
            rest.push(r)
        } else {
            rest
        }
    }
}

/// Keeps, of the records a latest-state scan reached, those that are live
/// and belong to the agent with a key that starts with `prefix`. A byte
/// prefix alone can also reach another agent whose id extends this one.
pub fn keep_scan_hits(records: &Vec<StateRecord>, namespace: &str, agent_id: &str, prefix: &str) -> (r: Vec<
    StateRecord,
>)
    ensures
        r@ == scan_hits(records@, namespace@, agent_id@, prefix@),
{
    let mut out: Vec<StateRecord> = Vec::new();
    let mut i: usize = 0;
    proof {
        assert(records@.subrange(0, 0) =~= Seq::<StateRecord>::empty());
    }
    while i < records.len()
        invariant
            i <= records@.len(),
            out@ == scan_hits(records@.subrange(0, i as int), namespace@, agent_id@, prefix@),
        decreases records@.len() - i,
    {
        proof {
            let post = records@.subrange(0, i + 1);
            assert(post.drop_last() =~= records@.subrange(0, i as int));
            assert(post.last() == records@[i as int]);
        }
        let rec = &records[i];
        if str_equal(rec.namespace.as_str(), namespace) && str_equal(rec.agent_id.as_str(), agent_id)
            && str_starts_with(rec.key.as_str(), prefix) && !rec.deleted {
            out.push(rec.clone());
        }
        i = i + 1;
    }
    assert(records@.subrange(0, records@.len() as int) =~= records@);
    out
}

/// The commit counter after a snapshot taken at `snapshot_ts` is restored:
/// it never moves back, so no timestamp is issued twice.
pub fn restored_commit_ts(current: CommitTs, snapshot_ts: CommitTs) -> (r: CommitTs)
    ensures
        r >= current,
        r >= snapshot_ts,
        r == current || r == snapshot_ts,
{
    if snapshot_ts > current {
        snapshot_ts
    } else {
        current
    }
}

/// What a forward scan of the event family does with the entry it reached.
#[derive(Debug, Clone, Copy, PartialEq, Eq, Structural)]
pub enum ScanStep {
    /// Keep the entry.
    Take,
    /// Pass over the entry and go on.
    Skip,
    /// Stop: this entry and every later one lie past the end bound.
    Stop,
}

/// The decision for event-log entry `e` during a replay of the agent's
/// entries between the inclusive bounds, entries being reached in ascending
/// commit timestamp.
pub fn replay_step(
    e: &EventLogEntry,
    namespace: &str,
    agent_id: &str,
    start_ts: Option<CommitTs>,
    end_ts: Option<CommitTs>,
) -> (r: ScanStep)
    ensures
        r == ScanStep::Stop <==> (end_ts matches Some(end) && e.commit_ts > end),
        r == ScanStep::Take <==> touches(e@, namespace@, agent_id@) && in_range(e.commit_ts, start_ts, end_ts),
{
    if let Some(end) = end_ts {
        if e.commit_ts > end {
            return ScanStep::Stop;
        }
    }
    if event_touches(e, namespace, agent_id) && ts_in_range(e.commit_ts, start_ts, end_ts) {
        ScanStep::Take
    } else {
        ScanStep::Skip
    }
}

/// Whether `key` starts with `prefix`; iteration over a key family stops at
/// the first key for which this fails.
pub fn has_prefix(key: &[u8], prefix: &[u8]) -> (r: bool)
    ensures
        r == (prefix@.len() <= key@.len() && key@.subrange(0, prefix@.len() as int) == prefix@),
{
    if prefix.len() > key.len() {
        return false;
    }
    let mut i: usize = 0;
    while i < prefix.len()
        invariant
            prefix@.len() <= key@.len(),
            i <= prefix@.len(),
            forall|j: int| 0 <= j < i ==> key@[j] == prefix@[j],
        decreases prefix@.len() - i,
    {
        if key[i] != prefix[i] {
            assert(key@.subrange(0, prefix@.len() as int)[i as int] != prefix@[i as int]);
            return false;
        }
        i = i + 1;
    }
    assert(key@.subrange(0, prefix@.len() as int) =~= prefix@);
    true
}

} // verus!
