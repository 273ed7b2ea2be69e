use pgqueue::claim::{step, ClaimAction, ClaimEvent, ClaimState, QueueError};
use pgqueue::entity::{MessageEntity, MessageStatus};
use pgqueue::listener::{listen_step, ListenAction, ListenEvent, ListenState};
use serde_json::Value;

type Event = ClaimEvent<String, u8>;
type Action = ClaimAction<String, u8>;
type Heard = ListenEvent<String, u8>;
type Told = ListenAction<String, u8>;

fn entity(id: i32) -> MessageEntity {
    MessageEntity {
        id,
        status: MessageStatus::Pending,
        payload: Value::from(id),
        created_at: 1,
        updated_at: 1,
    }
}

fn all_events() -> Vec<Event> {
    vec![
        Event::Start,
        Event::Opened,
        Event::Selected(entity(4)),
        Event::NoneAvailable,
        Event::HandlerSucceeded,
        Event::HandlerFailed(7),
        Event::Marked,
        Event::Committed,
        Event::StoreFailed("down".to_owned()),
    ]
}

#[test]
fn claim_runs_to_commit_when_the_handler_succeeds() {
    let (state, action) = step(ClaimState::Idle, Event::Start).unwrap();
    assert_eq!((state, action), (ClaimState::Opening, Action::OpenTransaction));
    let (state, action) = step(state, Event::Opened).unwrap();
    assert_eq!(
        (state, action),
        (ClaimState::Selecting, Action::SelectOldestPending)
    );
    let (state, action) = step(state, Event::Selected(entity(4))).unwrap();
    assert_eq!(
        (state, action),
        (ClaimState::Handling { id: 4 }, Action::RunHandler(entity(4)))
    );
    let (state, action) = step(state, Event::HandlerSucceeded).unwrap();
    assert_eq!(
        (state, action),
        (ClaimState::Marking { id: 4 }, Action::MarkCompleted { id: 4 })
    );
    let (state, action) = step(state, Event::Marked).unwrap();
    assert_eq!((state, action), (ClaimState::Committing { id: 4 }, Action::Commit));
    let (state, action) = step(state, Event::Committed).unwrap();
    assert_eq!((state, action), (ClaimState::Done, Action::Finish));
    for event in all_events() {
        assert_eq!(step(state, event), None);
    }
}

#[test]
fn claim_on_an_empty_queue_is_abandoned_as_empty() {
    assert_eq!(
        step(ClaimState::Selecting, Event::NoneAvailable),
        Some((ClaimState::Done, Action::Abandon(QueueError::Empty)))
    );
}

#[test]
fn claim_withholds_the_commit_when_the_handler_fails() {
    assert_eq!(
        step(ClaimState::Handling { id: 4 }, Event::HandlerFailed(7)),
        Some((
            ClaimState::Done,
            Action::Abandon(QueueError::HandlerFailure(7))
        ))
    );
}

#[test]
fn claim_hands_on_the_stores_error() {
    for state in [
        ClaimState::Opening,
        ClaimState::Selecting,
        ClaimState::Marking { id: 4 },
        ClaimState::Committing { id: 4 },
    ] {
        assert_eq!(
            step(state, Event::StoreFailed("down".to_owned())),
            Some((
                ClaimState::Done,
                Action::Abandon(QueueError::Store("down".to_owned()))
            ))
        );
    }
    assert_eq!(
        step(ClaimState::Idle, Event::StoreFailed("down".to_owned())),
        None
    );
    assert_eq!(
        step(
            ClaimState::Handling { id: 4 },
            Event::StoreFailed("down".to_owned())
        ),
        None
    );
}

#[test]
fn claim_rejects_events_out_of_turn() {
    let awaited = |state: ClaimState, event: &Event| -> bool {
        matches!(
            (state, event),
            (ClaimState::Idle, Event::Start)
                | (ClaimState::Opening, Event::Opened)
                | (ClaimState::Opening, Event::StoreFailed(_))
                | (ClaimState::Selecting, Event::Selected(_))
                | (ClaimState::Selecting, Event::NoneAvailable)
                | (ClaimState::Selecting, Event::StoreFailed(_))
                | (ClaimState::Handling { .. }, Event::HandlerSucceeded)
                | (ClaimState::Handling { .. }, Event::HandlerFailed(_))
                | (ClaimState::Marking { .. }, Event::Marked)
                | (ClaimState::Marking { .. }, Event::StoreFailed(_))
                | (ClaimState::Committing { .. }, Event::Committed)
                | (ClaimState::Committing { .. }, Event::StoreFailed(_))
        )
    };
    for state in [
        ClaimState::Idle,
        ClaimState::Opening,
        ClaimState::Selecting,
        ClaimState::Handling { id: 4 },
        ClaimState::Marking { id: 4 },
        ClaimState::Committing { id: 4 },
        ClaimState::Done,
    ] {
        for event in all_events() {
            let expected = awaited(state, &event);
            assert_eq!(step(state, event).is_some(), expected);
        }
    }
}

#[test]
fn listener_claims_once_per_notification() {
    let (state, action) = listen_step(ListenState::Idle, Heard::Start).unwrap();
    assert_eq!((state, action), (ListenState::Subscribing, Told::Subscribe));
    let (state, action) = listen_step(state, Heard::Subscribed).unwrap();
    assert_eq!((state, action), (ListenState::Waiting, Told::AwaitNotification));
    let (state, action) = listen_step(state, Heard::Notified).unwrap();
    assert_eq!((state, action), (ListenState::Claiming, Told::Claim));
    assert_eq!(listen_step(state, Heard::Notified), None);
    let (state, action) = listen_step(state, Heard::ClaimSucceeded).unwrap();
    assert_eq!((state, action), (ListenState::Waiting, Told::AwaitNotification));
    let (state, action) = listen_step(state, Heard::Notified).unwrap();
    assert_eq!((state, action), (ListenState::Claiming, Told::Claim));
    let (state, action) = listen_step(state, Heard::ClaimFailed(QueueError::Empty)).unwrap();
    assert_eq!((state, action), (ListenState::Waiting, Told::AwaitNotification));
    let (state, action) = listen_step(state, Heard::Closed).unwrap();
    assert_eq!((state, action), (ListenState::Stopped, Told::End));
    assert_eq!(listen_step(state, Heard::Start), None);
    assert_eq!(listen_step(state, Heard::Notified), None);
}

#[test]
fn listener_stops_on_any_error_but_empty() {
    assert_eq!(
        listen_step(
            ListenState::Claiming,
            Heard::ClaimFailed(QueueError::Store("down".to_owned()))
        ),
        Some((
            ListenState::Stopped,
            Told::Stop(QueueError::Store("down".to_owned()))
        ))
    );
    assert_eq!(
        listen_step(
            ListenState::Claiming,
            Heard::ClaimFailed(QueueError::HandlerFailure(3))
        ),
        Some((
            ListenState::Stopped,
            Told::Stop(QueueError::HandlerFailure(3))
        ))
    );
    assert_eq!(
        listen_step(ListenState::Subscribing, Heard::StoreFailed("down".to_owned())),
        Some((
            ListenState::Stopped,
            Told::Stop(QueueError::Store("down".to_owned()))
        ))
    );
    assert_eq!(
        listen_step(ListenState::Waiting, Heard::StoreFailed("down".to_owned())),
        Some((
            ListenState::Stopped,
            Told::Stop(QueueError::Store("down".to_owned()))
        ))
    );
}

#[test]
fn listener_rejects_events_out_of_turn() {
    assert_eq!(listen_step(ListenState::Idle, Heard::Notified), None);
    assert_eq!(listen_step(ListenState::Idle, Heard::Closed), None);
    assert_eq!(listen_step(ListenState::Subscribing, Heard::Notified), None);
    assert_eq!(listen_step(ListenState::Subscribing, Heard::Closed), None);
    assert_eq!(listen_step(ListenState::Waiting, Heard::Subscribed), None);
    assert_eq!(listen_step(ListenState::Waiting, Heard::ClaimSucceeded), None);
    assert_eq!(listen_step(ListenState::Claiming, Heard::Closed), None);
    assert_eq!(
        listen_step(ListenState::Claiming, Heard::StoreFailed("down".to_owned())),
        None
    );
}
