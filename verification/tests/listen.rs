use std::cell::RefCell;

use pgqueue::claim::QueueError;
use pgqueue::entity::{Message, MessageEntity, MessageStatus};
use pgqueue::messenger::{ListenReport, Messenger};
use pgqueue::table::MessageTable;
use serde_json::Value;

fn numbered(n: i64) -> Value {
    let mut fields = serde_json::Map::new();
    fields.insert("n".to_owned(), Value::from(n));
    Value::Object(fields)
}

fn queue_of(count: i64) -> Messenger {
    let mut sut = Messenger::new(MessageTable::new());
    for n in 0..count {
        sut.add(Message { payload: numbered(n) }).unwrap();
    }
    sut
}

#[test]
fn listener_delivers_three_messages_in_order() {
    let mut sut = queue_of(3);
    let log: RefCell<Vec<(i32, Value)>> = RefCell::new(Vec::new());
    let record = |entity: &MessageEntity| -> Result<(), String> {
        log.borrow_mut().push((entity.id, entity.payload.clone()));
        Ok(())
    };
    let report = sut.listen(3, &record);
    assert_eq!(
        report,
        ListenReport {
            delivered: 3,
            stopped_by: None
        }
    );
    assert_eq!(
        log.into_inner(),
        vec![(1, numbered(0)), (2, numbered(1)), (3, numbered(2))]
    );
    for id in 1..=3 {
        assert_eq!(
            sut.find_by_id(id).unwrap().status,
            MessageStatus::Completed
        );
    }
}

#[test]
fn listener_treats_an_empty_queue_as_routine() {
    let mut sut = queue_of(2);
    let calls = RefCell::new(0);
    let count = |_entity: &MessageEntity| -> Result<(), String> {
        *calls.borrow_mut() += 1;
        Ok(())
    };
    let report = sut.listen(5, &count);
    assert_eq!(
        report,
        ListenReport {
            delivered: 2,
            stopped_by: None
        }
    );
    assert_eq!(*calls.borrow(), 2);

    let report = sut.listen(4, &count);
    assert_eq!(
        report,
        ListenReport {
            delivered: 0,
            stopped_by: None
        }
    );
    assert_eq!(*calls.borrow(), 2);
}

#[test]
fn listener_without_notifications_does_nothing() {
    let mut sut = queue_of(2);
    let refuse = |_entity: &MessageEntity| -> Result<(), String> { Err("never".to_owned()) };
    let report = sut.listen(0, &refuse);
    assert_eq!(
        report,
        ListenReport {
            delivered: 0,
            stopped_by: None
        }
    );
    assert_eq!(sut.find_by_id(1).unwrap().status, MessageStatus::Pending);
}

#[test]
fn listener_makes_one_attempt_per_notification() {
    let mut sut = queue_of(4);
    let accept = |_entity: &MessageEntity| -> Result<(), String> { Ok(()) };
    let report = sut.listen(3, &accept);
    assert_eq!(report.delivered, 3);
    assert_eq!(report.stopped_by, None);
    assert_eq!(sut.find_by_id(3).unwrap().status, MessageStatus::Completed);
    assert_eq!(sut.find_by_id(4).unwrap().status, MessageStatus::Pending);
}

#[test]
fn listener_stops_on_a_handler_failure() {
    let mut sut = queue_of(3);
    sut.advance_clock(50);
    let fail_on_second = |entity: &MessageEntity| -> Result<(), String> {
        if entity.id == 2 {
            Err("poison".to_owned())
        } else {
            Ok(())
        }
    };
    let report = sut.listen(3, &fail_on_second);
    assert_eq!(
        report,
        ListenReport {
            delivered: 1,
            stopped_by: Some(QueueError::HandlerFailure("poison".to_owned()))
        }
    );
    assert_eq!(sut.find_by_id(1).unwrap().status, MessageStatus::Completed);
    assert_eq!(sut.find_by_id(1).unwrap().updated_at, 50);
    let second = sut.find_by_id(2).unwrap();
    assert_eq!(second.status, MessageStatus::Pending);
    assert_eq!(second.updated_at, 0);
    assert_eq!(sut.find_by_id(3).unwrap().status, MessageStatus::Pending);
}

#[test]
fn redelivery_repeats_a_payload_only_after_a_failure() {
    let mut sut = queue_of(3);
    let log: RefCell<Vec<(i32, Value)>> = RefCell::new(Vec::new());
    let fail_first_time_on_two = |entity: &MessageEntity| -> Result<(), String> {
        let seen_before = log.borrow().iter().any(|(id, _)| *id == entity.id);
        log.borrow_mut().push((entity.id, entity.payload.clone()));
        if entity.id == 2 && !seen_before {
            Err("retry".to_owned())
        } else {
            Ok(())
        }
    };
    let first = sut.listen(3, &fail_first_time_on_two);
    assert_eq!(first.delivered, 1);
    assert_eq!(
        first.stopped_by,
        Some(QueueError::HandlerFailure("retry".to_owned()))
    );
    let second = sut.listen(3, &fail_first_time_on_two);
    assert_eq!(
        second,
        ListenReport {
            delivered: 2,
            stopped_by: None
        }
    );
    assert_eq!(
        log.into_inner(),
        vec![
            (1, numbered(0)),
            (2, numbered(1)),
            (2, numbered(1)),
            (3, numbered(2))
        ]
    );
}
