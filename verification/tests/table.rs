use std::collections::BTreeSet;

use pgqueue::entity::{MessageEntity, MessageStatus};
use pgqueue::table::{MessageTable, StoreError};
use serde_json::Value;

fn filled(count: i64) -> (MessageTable, Vec<i32>) {
    let mut table = MessageTable::new();
    let mut ids = Vec::new();
    for n in 0..count {
        ids.push(table.insert(Value::from(n)).unwrap().id);
    }
    (table, ids)
}

#[test]
fn new_table_is_empty() {
    let table = MessageTable::new();
    assert_eq!(table.len(), 0);
    assert_eq!(table.last_id(), 0);
    assert_eq!(table.clock(), 0);
    assert_eq!(table.find_by_id(1), None);
}

#[test]
fn continuing_table_resumes_the_sequence() {
    let mut table = MessageTable::continuing(41, 9).unwrap();
    assert_eq!(table.len(), 0);
    assert_eq!(table.last_id(), 41);
    assert_eq!(table.clock(), 9);
    assert_eq!(table.insert(Value::Null).unwrap().id, 42);
    assert!(MessageTable::continuing(-1, 0).is_none());
    assert!(MessageTable::continuing(0, -5).is_some());
}

#[test]
fn insert_fails_when_ids_are_exhausted() {
    let mut table = MessageTable::continuing(i32::MAX, 0).unwrap();
    assert_eq!(table.insert(Value::Null), Err(StoreError::IdsExhausted));
    assert_eq!(table.len(), 0);
    assert_eq!(table.last_id(), i32::MAX);
}

#[test]
fn concurrent_claims_take_distinct_messages() {
    let (mut table, inserted) = filled(5);
    let mut claimed = Vec::new();
    for _ in 0..5 {
        claimed.push(table.claim_oldest().unwrap().id);
    }
    assert_eq!(claimed, inserted);
    let distinct: BTreeSet<i32> = claimed.iter().copied().collect();
    assert_eq!(distinct.len(), 5);
    assert_eq!(distinct, inserted.iter().copied().collect());
    assert_eq!(table.claim_oldest(), None);

    for id in claimed.iter().rev() {
        assert_eq!(table.complete(*id), Ok(()));
    }
    for id in inserted {
        assert_eq!(
            table.find_by_id(id).unwrap().status,
            MessageStatus::Completed
        );
        assert!(!table.is_claimed(id));
    }
    assert_eq!(table.claim_oldest(), None);
}

#[test]
fn claim_returns_the_row_as_stored() {
    let mut table = MessageTable::new();
    table.advance_clock(77);
    let stored = table.insert(Value::from("payload")).unwrap();
    let claimed = table.claim_oldest().unwrap();
    assert_eq!(claimed, stored);
    assert_eq!(
        claimed,
        MessageEntity {
            id: 1,
            status: MessageStatus::Pending,
            payload: Value::from("payload"),
            created_at: 77,
            updated_at: 77,
        }
    );
    assert!(table.is_claimed(1));
    assert_eq!(table.find_by_id(1).unwrap().status, MessageStatus::Pending);
}

#[test]
fn released_claim_frees_the_oldest_row_again() {
    let (mut table, ids) = filled(3);
    assert_eq!(table.claim_oldest().unwrap().id, ids[0]);
    assert_eq!(table.claim_oldest().unwrap().id, ids[1]);
    assert_eq!(table.release(ids[0]), Ok(()));
    assert!(!table.is_claimed(ids[0]));
    assert!(table.is_claimed(ids[1]));
    assert_eq!(table.claim_oldest().unwrap().id, ids[0]);
    assert_eq!(table.claim_oldest().unwrap().id, ids[2]);
    assert_eq!(table.claim_oldest(), None);
}

#[test]
fn complete_needs_a_claim() {
    let (mut table, ids) = filled(2);
    assert_eq!(table.complete(ids[0]), Err(StoreError::NotClaimed));
    assert_eq!(table.complete(99), Err(StoreError::NotClaimed));
    assert_eq!(table.release(ids[0]), Err(StoreError::NotClaimed));
    assert_eq!(table.release(99), Err(StoreError::NotClaimed));
    assert_eq!(
        table.find_by_id(ids[0]).unwrap().status,
        MessageStatus::Pending
    );

    table.claim_oldest().unwrap();
    table.advance_clock(30);
    assert_eq!(table.complete(ids[0]), Ok(()));
    assert_eq!(table.complete(ids[0]), Err(StoreError::NotClaimed));
    assert_eq!(table.release(ids[0]), Err(StoreError::NotClaimed));
    let done = table.find_by_id(ids[0]).unwrap();
    assert_eq!(done.status, MessageStatus::Completed);
    assert_eq!(done.updated_at, 30);
    assert_eq!(done.created_at, 0);
}

#[test]
fn completed_rows_are_never_claimed() {
    let (mut table, ids) = filled(2);
    table.claim_oldest().unwrap();
    table.complete(ids[0]).unwrap();
    assert_eq!(table.claim_oldest().unwrap().id, ids[1]);
    table.complete(ids[1]).unwrap();
    assert_eq!(table.claim_oldest(), None);
    assert_eq!(table.len(), 2);
}

#[test]
fn entity_from_columns_checks_the_row() {
    let built =
        MessageEntity::from_columns(3, MessageStatus::Failed, Value::from(1), 10, 10).unwrap();
    assert_eq!(
        built,
        MessageEntity {
            id: 3,
            status: MessageStatus::Failed,
            payload: Value::from(1),
            created_at: 10,
            updated_at: 10,
        }
    );
    assert!(MessageEntity::from_columns(1, MessageStatus::Pending, Value::Null, -5, 8).is_some());
    assert_eq!(
        MessageEntity::from_columns(0, MessageStatus::Pending, Value::Null, 1, 2),
        None
    );
    assert_eq!(
        MessageEntity::from_columns(-4, MessageStatus::Pending, Value::Null, 1, 2),
        None
    );
    assert_eq!(
        MessageEntity::from_columns(1, MessageStatus::Pending, Value::Null, 3, 2),
        None
    );
}

#[test]
fn entity_clone_is_equal_and_independent() {
    let original = MessageEntity {
        id: 9,
        status: MessageStatus::Processing,
        payload: Value::Array(vec![Value::from(1), Value::from("two")]),
        created_at: 1,
        updated_at: 2,
    };
    let mut copy = original.clone();
    assert_eq!(copy, original);
    copy.payload = Value::Null;
    assert_eq!(
        original.payload,
        Value::Array(vec![Value::from(1), Value::from("two")])
    );
}

#[test]
fn status_labels_are_lower_case_names() {
    assert_eq!(MessageStatus::Pending.label(), "pending");
    assert_eq!(MessageStatus::Processing.label(), "processing");
    assert_eq!(MessageStatus::Completed.label(), "completed");
    assert_eq!(MessageStatus::Failed.label(), "failed");
}

#[test]
fn status_labels_are_read_back() {
    for status in [
        MessageStatus::Pending,
        MessageStatus::Processing,
        MessageStatus::Completed,
        MessageStatus::Failed,
    ] {
        assert_eq!(MessageStatus::from_label(status.label()), Some(status));
    }
    assert_eq!(MessageStatus::from_label("Pending"), None);
    assert_eq!(MessageStatus::from_label("pending "), None);
    assert_eq!(MessageStatus::from_label(""), None);
    assert_eq!(MessageStatus::from_label("done"), None);
}

#[test]
fn only_pending_is_claimable() {
    assert!(MessageStatus::Pending.is_claimable());
    assert!(!MessageStatus::Processing.is_claimable());
    assert!(!MessageStatus::Completed.is_claimable());
    assert!(!MessageStatus::Failed.is_claimable());
    assert!(!MessageStatus::Pending.is_terminal());
    assert!(!MessageStatus::Processing.is_terminal());
    assert!(MessageStatus::Completed.is_terminal());
    assert!(MessageStatus::Failed.is_terminal());
}
