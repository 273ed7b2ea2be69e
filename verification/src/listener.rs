//! The notification listener: subscribe once, then make one claim attempt
//! for every notification, for as long as the subscription lasts.
//!
//! Like the claim protocol it is a machine that decides and never acts. A
//! notification carries nothing: it only says that a claim attempt may now
//! find work. An empty queue is routine; any other error of a claim attempt
//! stops the listener.

use vstd::prelude::*;
use crate::claim::QueueError;

verus! {

/// Where the listener stands.
#[derive(Clone, Copy, Debug, PartialEq, Eq, Structural)]
pub enum ListenState {
    /// Not subscribed yet.
    Idle,
    /// The store was asked for a subscription to the queue's channel.
    Subscribing,
    /// Subscribed, and waiting for the next notification.
    Waiting,
    /// A claim attempt is under way.
    Claiming,
    /// The listener has ended.
    Stopped,
}

/// What the driver reports back.
#[derive(Debug, PartialEq)]
pub enum ListenEvent<S, H> {
    /// The host starts the listener.
    Start,
    /// The subscription stands.
    Subscribed,
    /// A notification arrived.
    Notified,
    /// The host closed the subscription.
    Closed,
    /// The claim attempt completed a message.
    ClaimSucceeded,
    /// The claim attempt ended with this error.
    ClaimFailed(QueueError<S, H>),
    /// The store failed while subscribing or waiting.
    StoreFailed(S),
}

/// What the driver is to do next.
#[derive(Debug, PartialEq)]
pub enum ListenAction<S, H> {
    /// Subscribe to the queue's notification channel.
    Subscribe,
    /// Wait, without polling, until a notification arrives.
    AwaitNotification,
    /// Make one claim attempt.
    Claim,
    /// Stop for good and hand this error to the supervisor.
    Stop(QueueError<S, H>),
    /// End quietly: the host has closed the subscription.
    End,
}

/// The listener. `None` where the event is not one that the state waits for.
pub open spec fn spec_listen_step<S, H>(state: ListenState, event: ListenEvent<S, H>) -> Option<
    (ListenState, ListenAction<S, H>),
> {
    match (state, event) {
        (ListenState::Idle, ListenEvent::Start) => Some(
            (ListenState::Subscribing, ListenAction::Subscribe),
        ),
        (ListenState::Subscribing, ListenEvent::Subscribed) => Some(
            (ListenState::Waiting, ListenAction::AwaitNotification),
        ),
        (ListenState::Subscribing, ListenEvent::StoreFailed(error)) => Some(
            (ListenState::Stopped, ListenAction::Stop(QueueError::Store(error))),
        ),
        (ListenState::Waiting, ListenEvent::Notified) => Some(
            (ListenState::Claiming, ListenAction::Claim),
        ),
        (ListenState::Waiting, ListenEvent::Closed) => Some(
            (ListenState::Stopped, ListenAction::End),
        ),
        (ListenState::Waiting, ListenEvent::StoreFailed(error)) => Some(
            (ListenState::Stopped, ListenAction::Stop(QueueError::Store(error))),
        ),
        (ListenState::Claiming, ListenEvent::ClaimSucceeded) => Some(
            (ListenState::Waiting, ListenAction::AwaitNotification),
        ),
        (ListenState::Claiming, ListenEvent::ClaimFailed(error)) => if error is Empty {
            Some((ListenState::Waiting, ListenAction::AwaitNotification))
        } else {
            Some((ListenState::Stopped, ListenAction::Stop(error)))
        },
        _ => None,
    }
}

/// One step of the listener: the next state and the action to perform, or
/// `None` where the state does not wait for this event.
pub fn listen_step<S, H>(state: ListenState, event: ListenEvent<S, H>) -> (next: Option<
    (ListenState, ListenAction<S, H>),
>)
    ensures
        next == spec_listen_step(state, event),
{
    match state {
        ListenState::Idle => match event {
            ListenEvent::Start => Some((ListenState::Subscribing, ListenAction::Subscribe)),
            _ => None,
        },
        ListenState::Subscribing => match event {
            ListenEvent::Subscribed => Some(
                (ListenState::Waiting, ListenAction::AwaitNotification),
            ),
            ListenEvent::StoreFailed(error) => Some(
                (ListenState::Stopped, ListenAction::Stop(QueueError::Store(error))),
            ),
            _ => None,
        },
        ListenState::Waiting => match event {
            ListenEvent::Notified => Some((ListenState::Claiming, ListenAction::Claim)),
            ListenEvent::Closed => Some((ListenState::Stopped, ListenAction::End)),
            ListenEvent::StoreFailed(error) => Some(
                (ListenState::Stopped, ListenAction::Stop(QueueError::Store(error))),
            ),
            _ => None,
        },
        ListenState::Claiming => match event {
            ListenEvent::ClaimSucceeded => Some(
                (ListenState::Waiting, ListenAction::AwaitNotification),
            ),
            ListenEvent::ClaimFailed(error) => match error {
                QueueError::Empty => Some((ListenState::Waiting, ListenAction::AwaitNotification)),
                _ => Some((ListenState::Stopped, ListenAction::Stop(error))),
            },
            _ => None,
        },
        ListenState::Stopped => None,
    }
}

/// A claim attempt is made in answer to a notification and to nothing else:
/// one attempt for each.
pub proof fn lemma_one_claim_per_notification<S, H>(state: ListenState, event: ListenEvent<S, H>)
    requires
        spec_listen_step(state, event) is Some,
    ensures
        spec_listen_step(state, event).unwrap().1 is Claim <==> state is Waiting && event
            is Notified,
{
}

/// An empty queue never stops the listener: it goes back to waiting.
pub proof fn lemma_empty_is_routine<S, H>()
    ensures
        spec_listen_step::<S, H>(
            ListenState::Claiming,
            ListenEvent::ClaimFailed(QueueError::Empty),
        ) == Some((ListenState::Waiting, ListenAction::<S, H>::AwaitNotification)),
{
}

/// Every error of a claim attempt but `Empty` stops the listener, and the
/// error is handed on as it came.
pub proof fn lemma_other_errors_stop<S, H>(error: QueueError<S, H>)
    requires
        !(error is Empty),
    ensures
        spec_listen_step::<S, H>(ListenState::Claiming, ListenEvent::ClaimFailed(error)) == Some(
            (ListenState::Stopped, ListenAction::Stop(error)),
        ),
{
}

/// The listener never ends of its own accord while things go well: it stops
/// only on an error or when the host closes the subscription.
pub proof fn lemma_stops_only_on_error_or_close<S, H>(state: ListenState, event: ListenEvent<S, H>)
    requires
        spec_listen_step(state, event) is Some,
    ensures
        spec_listen_step(state, event).unwrap().0 is Stopped <==> {
            ||| event is Closed
            ||| event is StoreFailed
            ||| (event matches ListenEvent::ClaimFailed(error) && !(error is Empty))
        },
        spec_listen_step(state, event).unwrap().0 is Stopped <==> {
            ||| spec_listen_step(state, event).unwrap().1 is Stop
            ||| spec_listen_step(state, event).unwrap().1 is End
        },
{
}

} // verus!
