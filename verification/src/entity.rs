//! The entity model of the queue: what a producer hands in, what the store
//! keeps, and the lifecycle state of a stored message.
//!
//! Timestamps are microseconds since the Unix epoch, UTC. The payload is an
//! arbitrary JSON value that the queue carries and never inspects.

use vstd::prelude::*;

verus! {

/// `serde_json::Value`, made known to the verifier as an opaque type. Nothing
/// in the library looks inside a payload; it is only moved and copied.
#[verifier::external_type_specification]
#[verifier::external_body]
pub struct ExJsonValue(serde_json::Value);

/// The lifecycle state of a stored message.
///
/// A message is created `Pending`, and only a `Pending` message can be
/// claimed. A successful claim ends in `Completed`. `Processing` and `Failed`
/// are part of the stored vocabulary, but the claim protocol writes neither.
#[derive(Clone, Copy, Debug, PartialEq, Eq, Structural)]
pub enum MessageStatus {
    Pending,
    Processing,
    Completed,
    Failed,
}

/// The name under which the store keeps a status: the variant's name in
/// lower case.
pub open spec fn status_label(status: MessageStatus) -> Seq<char> {
    match status {
        MessageStatus::Pending => "pending"@,
        MessageStatus::Processing => "processing"@,
        MessageStatus::Completed => "completed"@,
        MessageStatus::Failed => "failed"@,
    }
}

/// The status that a stored name stands for, if it is one of the four.
pub open spec fn status_of_label(label: Seq<char>) -> Option<MessageStatus> {
    if label == "pending"@ {
        Some(MessageStatus::Pending)
    } else if label == "processing"@ {
        Some(MessageStatus::Processing)
    } else if label == "completed"@ {
        Some(MessageStatus::Completed)
    } else if label == "failed"@ {
        Some(MessageStatus::Failed)
    } else {
        None
    }
}

impl MessageStatus {
    /// Only a pending message is visible to a claim.
    pub open spec fn claimable(self) -> bool {
        self is Pending
    }

    /// `Completed` and `Failed` end an attempt.
    pub open spec fn terminal(self) -> bool {
        self is Completed || self is Failed
    }

    pub fn is_claimable(&self) -> (b: bool)
        ensures
            b == self.claimable(),
    {
        match self {
            MessageStatus::Pending => true,
            _ => false,
        }
    }

    pub fn is_terminal(&self) -> (b: bool)
        ensures
            b == self.terminal(),
    {
        match self {
            MessageStatus::Completed => true,
            MessageStatus::Failed => true,
            _ => false,
        }
    }

    /// The name the store keeps for this status.
    pub fn label(&self) -> (name: &'static str)
        ensures
            name@ == status_label(*self),
    {
        match self {
            MessageStatus::Pending => "pending",
            MessageStatus::Processing => "processing",
            MessageStatus::Completed => "completed",
            MessageStatus::Failed => "failed",
        }
    }

    /// Reads a stored name back. `None` for any text that is not exactly one
    /// of the four names.
    pub fn from_label(name: &str) -> (status: Option<MessageStatus>)
        ensures
            status == status_of_label(name@),
    {
        let text = name.to_owned();
        if text == "pending".to_owned() {
            Some(MessageStatus::Pending)
        } else if text == "processing".to_owned() {
            Some(MessageStatus::Processing)
        } else if text == "completed".to_owned() {
            Some(MessageStatus::Completed)
        } else if text == "failed".to_owned() {
            Some(MessageStatus::Failed)
        } else {
            None
        }
    }
}

/// Every status is read back from its own name.
pub proof fn lemma_label_round_trip(status: MessageStatus)
    ensures
        status_of_label(status_label(status)) == Some(status),
{
    reveal_strlit("pending");
    reveal_strlit("processing");
    reveal_strlit("completed");
    reveal_strlit("failed");
    assert("pending"@.len() == 7);
    assert("processing"@.len() == 10);
    assert("completed"@.len() == 9);
    assert("failed"@.len() == 6);
}

/// A name that is read as a status is that status's own name.
pub proof fn lemma_label_unique(label: Seq<char>, status: MessageStatus)
    requires
        status_of_label(label) == Some(status),
    ensures
        label == status_label(status),
{
    lemma_label_round_trip(MessageStatus::Pending);
    lemma_label_round_trip(MessageStatus::Processing);
    lemma_label_round_trip(MessageStatus::Completed);
    lemma_label_round_trip(MessageStatus::Failed);
}

/// What a producer submits: a payload and nothing else. The store assigns the
/// rest on insert.
#[derive(Debug, PartialEq)]
pub struct Message {
    pub payload: serde_json::Value,
}

/// A message as the store keeps it.
#[derive(Debug, PartialEq)]
pub struct MessageEntity {
    /// Assigned by the store; unique, and larger for every later insert.
    pub id: i32,
    pub status: MessageStatus,
    /// The producer's payload, kept verbatim.
    pub payload: serde_json::Value,
    /// Set by the store on insert and never changed.
    pub created_at: i64,
    /// Set by the store on insert and on every change of the row.
    pub updated_at: i64,
}

/// `Clone::clone` of `serde_json::Value`: the copy is the same JSON value.
#[verifier::external_body]
fn copy_payload(payload: &serde_json::Value) -> (copy: serde_json::Value)
    ensures
        copy == *payload,
{
    payload.clone()
}

impl MessageEntity {
    /// What holds of every stored message: ids start at 1, and a row is never
    /// updated before it was created.
    pub open spec fn wf(&self) -> bool {
        &&& self.id >= 1
        &&& self.created_at <= self.updated_at
    }

    /// Builds an entity from the columns of a stored row. `None` when the
    /// columns cannot be those of a stored message: an id below 1, or an
    /// update time before the creation time.
    pub fn from_columns(
        id: i32,
        status: MessageStatus,
        payload: serde_json::Value,
        created_at: i64,
        updated_at: i64,
    ) -> (entity: Option<MessageEntity>)
        ensures
            entity == (if id >= 1 && created_at <= updated_at {
                Some(MessageEntity { id, status, payload, created_at, updated_at })
            } else {
                None
            }),
            entity matches Some(e) ==> e.wf(),
    {
        if id >= 1 && created_at <= updated_at {
            Some(MessageEntity { id, status, payload, created_at, updated_at })
        } else {
            None
        }
    }
}

impl Clone for MessageEntity {
    fn clone(&self) -> (copy: MessageEntity)
        ensures
            copy == *self,
    {
        MessageEntity {
            id: self.id,
            status: self.status,
            payload: copy_payload(&self.payload),
            created_at: self.created_at,
            updated_at: self.updated_at,
        }
    }
}

} // verus!
