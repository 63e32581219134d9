//! Identities, values and errors shared by the engine and its backends.
use crate::table::KeyEq;
use vstd::prelude::*;

verus! {

pub type Namespace = String;

pub type AgentId = String;

pub type Key = String;

pub type TxnId = String;

/// Per-record version counter.
pub type Version = u64;

/// Logical commit timestamp.
pub type CommitTs = u64;

/// Values are structured documents (null, boolean, number, string, list,
/// object), carried through the engine without being inspected.
#[verifier::external_type_specification]
#[verifier::external_body]
pub struct ExJsonValue(serde_json::Value);

/// Relies on the derived `Clone` of `serde_json::Value`: the copy is the same value.
pub assume_specification[ <serde_json::Value as Clone>::clone ](v: &serde_json::Value) -> (r:
    serde_json::Value)
    ensures
        r == *v,
;

/// The view of a record identity: namespace, agent and key.
pub type RecordKey = (Seq<char>, Seq<char>, Seq<char>);

/// Record identity tuple.
#[derive(Debug, Eq, Hash)]
pub struct RecordId {
    pub namespace: Namespace,
    pub agent_id: AgentId,
    pub key: Key,
}

impl View for RecordId {
    type V = RecordKey;

    open spec fn view(&self) -> RecordKey {
        (self.namespace@, self.agent_id@, self.key@)
    }
}

impl RecordId {
    pub fn new(namespace: Namespace, agent_id: AgentId, key: Key) -> (r: Self)
        ensures
            r.namespace == namespace,
            r.agent_id == agent_id,
            r.key == key,
            r@ == (namespace@, agent_id@, key@),
    {
        RecordId { namespace, agent_id, key }
    }
}

impl Clone for RecordId {
    fn clone(&self) -> (r: Self)
        ensures
            r == *self,
    {
        RecordId {
            namespace: self.namespace.clone(),
            agent_id: self.agent_id.clone(),
            key: self.key.clone(),
        }
    }
}

impl PartialEq for RecordId {
    fn eq(&self, o: &RecordId) -> (r: bool) {
        self.namespace == o.namespace && self.agent_id == o.agent_id && self.key == o.key
    }
}

impl vstd::std_specs::cmp::PartialEqSpecImpl for RecordId {
    open spec fn obeys_eq_spec() -> bool {
        true
    }

    open spec fn eq_spec(&self, o: &RecordId) -> bool {
        self@ == o@
    }
}

impl KeyEq for RecordId {
    fn key_eq(&self, other: &Self) -> (r: bool) {
        self.namespace == other.namespace && self.agent_id == other.agent_id && self.key
            == other.key
    }
}

/// A record identity together with one of its versions.
impl KeyEq for (RecordId, u64) {
    fn key_eq(&self, other: &Self) -> (r: bool) {
        self.0.key_eq(&other.0) && self.1 == other.1
    }
}

/// The ways an engine operation can fail.
#[derive(Debug, Clone, Copy, PartialEq, Eq, Structural)]
pub enum StateError {
    /// The transaction id is not in the table of open transactions.
    TxnNotFound,
    /// The transaction outlived its timeout.
    TxnExpired,
    /// A transaction with this id is already open.
    TxnIdInUse,
    /// The backend failed to read or write.
    BackendIo,
    /// Stored bytes could not be decoded.
    Decode,
    /// A snapshot carries a format version other than the supported one.
    SnapshotVersionMismatch,
    /// A 64-bit counter (commit timestamp or version) has no successor.
    Exhausted,
}

impl StateError {
    /// An error that a backend may report: not one about transactions.
    pub open spec fn is_backend_error(self) -> bool {
        !(self is TxnNotFound) && !(self is TxnExpired) && !(self is TxnIdInUse)
    }

    /// A short human-readable description.
    pub fn message(&self) -> (r: &'static str)
        ensures
            r@ == match *self {
                StateError::TxnNotFound => "Transaction not found"@,
                StateError::TxnExpired => "Transaction expired"@,
                StateError::TxnIdInUse => "Transaction id already in use"@,
                StateError::BackendIo => "Backend I/O failed"@,
                StateError::Decode => "Stored data could not be decoded"@,
                StateError::SnapshotVersionMismatch => "Snapshot version mismatch"@,
                StateError::Exhausted => "Counter exhausted"@,
            },
    {
        match self {
            StateError::TxnNotFound => "Transaction not found",
            StateError::TxnExpired => "Transaction expired",
            StateError::TxnIdInUse => "Transaction id already in use",
            StateError::BackendIo => "Backend I/O failed",
            StateError::Decode => "Stored data could not be decoded",
            StateError::SnapshotVersionMismatch => "Snapshot version mismatch",
            StateError::Exhausted => "Counter exhausted",
        }
    }
}

} // verus!
