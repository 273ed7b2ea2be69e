//! The claim protocol: take the oldest pending message, run the handler on
//! it, and acknowledge it or give it back, all inside one transaction.
//!
//! The protocol is a machine that decides and never acts. Whoever drives it
//! performs each action against the store and reports what happened as the
//! next event. `S` is the store's error, `H` the handler's; both are passed
//! through untouched.

use vstd::prelude::*;
use crate::entity::MessageEntity;

verus! {

/// Why a claim attempt did not complete a message.
#[derive(Debug, PartialEq)]
pub enum QueueError<S, H> {
    /// No pending row was free to claim. Routine: the caller carries on.
    Empty,
    /// The handler reported an error. The message stays pending.
    HandlerFailure(H),
    /// The store failed. The transaction was rolled back.
    Store(S),
}

/// Where a claim attempt stands.
#[derive(Clone, Copy, Debug, PartialEq, Eq, Structural)]
pub enum ClaimState {
    /// Nothing has been asked of the store yet.
    Idle,
    /// The store was asked to open a transaction.
    Opening,
    /// The store was asked for the oldest pending row that is not locked.
    Selecting,
    /// The row with this id is locked and the handler is running on it.
    Handling { id: i32 },
    /// The store was asked to mark the row with this id completed.
    Marking { id: i32 },
    /// The store was asked to commit.
    Committing { id: i32 },
    /// The attempt is over.
    Done,
}

/// What the driver reports back.
#[derive(Debug, PartialEq)]
pub enum ClaimEvent<S, H> {
    /// The caller asks for a claim attempt.
    Start,
    /// The transaction is open.
    Opened,
    /// The store locked this message's row and returned it.
    Selected(MessageEntity),
    /// The store found no pending row that is free.
    NoneAvailable,
    /// The handler returned success.
    HandlerSucceeded,
    /// The handler returned this error.
    HandlerFailed(H),
    /// The row is marked completed inside the transaction.
    Marked,
    /// The transaction is committed.
    Committed,
    /// The store failed at the step that was asked of it.
    StoreFailed(S),
}

/// What the driver is to do next.
#[derive(Debug, PartialEq)]
pub enum ClaimAction<S, H> {
    /// Open a transaction.
    OpenTransaction,
    /// Select the oldest pending row, by ascending id, for update, skipping
    /// locked rows.
    SelectOldestPending,
    /// Run the handler on this message, holding the transaction and the lock.
    RunHandler(MessageEntity),
    /// Set the status of the row with this id to completed.
    MarkCompleted { id: i32 },
    /// Commit the transaction.
    Commit,
    /// Drop the transaction, if one is open, without committing, and report
    /// this error to the caller.
    Abandon(QueueError<S, H>),
    /// Report success to the caller.
    Finish,
}

impl ClaimState {
    /// How many store round trips and handler runs are still ahead at most.
    pub open spec fn remaining(self) -> nat {
        match self {
            ClaimState::Idle => 6,
            ClaimState::Opening => 5,
            ClaimState::Selecting => 4,
            ClaimState::Handling { .. } => 3,
            ClaimState::Marking { .. } => 2,
            ClaimState::Committing { .. } => 1,
            ClaimState::Done => 0,
        }
    }
}

impl<S, H> ClaimAction<S, H> {
    /// The action ends the attempt.
    pub open spec fn is_final(self) -> bool {
        self is Abandon || self is Finish
    }
}

/// The protocol. `None` where the event is not one that the state waits for.
pub open spec fn spec_step<S, H>(state: ClaimState, event: ClaimEvent<S, H>) -> Option<
    (ClaimState, ClaimAction<S, H>),
> {
    match (state, event) {
        (ClaimState::Idle, ClaimEvent::Start) => Some(
            (ClaimState::Opening, ClaimAction::OpenTransaction),
        ),
        (ClaimState::Opening, ClaimEvent::Opened) => Some(
            (ClaimState::Selecting, ClaimAction::SelectOldestPending),
        ),
        (ClaimState::Selecting, ClaimEvent::Selected(entity)) => Some(
            (ClaimState::Handling { id: entity.id }, ClaimAction::RunHandler(entity)),
        ),
        (ClaimState::Selecting, ClaimEvent::NoneAvailable) => Some(
            (ClaimState::Done, ClaimAction::Abandon(QueueError::Empty)),
        ),
        (ClaimState::Handling { id }, ClaimEvent::HandlerSucceeded) => Some(
            (ClaimState::Marking { id }, ClaimAction::MarkCompleted { id }),
        ),
        (ClaimState::Handling { id }, ClaimEvent::HandlerFailed(error)) => Some(
            (ClaimState::Done, ClaimAction::Abandon(QueueError::HandlerFailure(error))),
        ),
        (ClaimState::Marking { id }, ClaimEvent::Marked) => Some(
            (ClaimState::Committing { id }, ClaimAction::Commit),
        ),
        (ClaimState::Committing { id }, ClaimEvent::Committed) => Some(
            (ClaimState::Done, ClaimAction::Finish),
        ),
        (ClaimState::Opening, ClaimEvent::StoreFailed(error)) => Some(
            (ClaimState::Done, ClaimAction::Abandon(QueueError::Store(error))),
        ),
        (ClaimState::Selecting, ClaimEvent::StoreFailed(error)) => Some(
            (ClaimState::Done, ClaimAction::Abandon(QueueError::Store(error))),
        ),
        (ClaimState::Marking { id }, ClaimEvent::StoreFailed(error)) => Some(
            (ClaimState::Done, ClaimAction::Abandon(QueueError::Store(error))),
        ),
        (ClaimState::Committing { id }, ClaimEvent::StoreFailed(error)) => Some(
            (ClaimState::Done, ClaimAction::Abandon(QueueError::Store(error))),
        ),
        _ => None,
    }
}

/// One step of the protocol: the next state and the action to perform, or
/// `None` where the state does not wait for this event.
pub fn step<S, H>(state: ClaimState, event: ClaimEvent<S, H>) -> (next: Option<
    (ClaimState, ClaimAction<S, H>),
>)
    ensures
        next == spec_step(state, event),
{
    match state {
        ClaimState::Idle => match event {
            ClaimEvent::Start => Some((ClaimState::Opening, ClaimAction::OpenTransaction)),
            _ => None,
        },
        ClaimState::Opening => match event {
            ClaimEvent::Opened => Some((ClaimState::Selecting, ClaimAction::SelectOldestPending)),
            ClaimEvent::StoreFailed(error) => Some(
                (ClaimState::Done, ClaimAction::Abandon(QueueError::Store(error))),
            ),
            _ => None,
        },
        ClaimState::Selecting => match event {
            ClaimEvent::Selected(entity) => Some(
                (ClaimState::Handling { id: entity.id }, ClaimAction::RunHandler(entity)),
            ),
            ClaimEvent::NoneAvailable => Some(
                (ClaimState::Done, ClaimAction::Abandon(QueueError::Empty)),
            ),
            ClaimEvent::StoreFailed(error) => Some(
                (ClaimState::Done, ClaimAction::Abandon(QueueError::Store(error))),
            ),
            _ => None,
        },
        ClaimState::Handling { id } => match event {
            ClaimEvent::HandlerSucceeded => Some(
                (ClaimState::Marking { id }, ClaimAction::MarkCompleted { id }),
            ),
            ClaimEvent::HandlerFailed(error) => Some(
                (ClaimState::Done, ClaimAction::Abandon(QueueError::HandlerFailure(error))),
            ),
            _ => None,
        },
        ClaimState::Marking { id } => match event {
            ClaimEvent::Marked => Some((ClaimState::Committing { id }, ClaimAction::Commit)),
            ClaimEvent::StoreFailed(error) => Some(
                (ClaimState::Done, ClaimAction::Abandon(QueueError::Store(error))),
            ),
            _ => None,
        },
        ClaimState::Committing { id } => match event {
            ClaimEvent::Committed => Some((ClaimState::Done, ClaimAction::Finish)),
            ClaimEvent::StoreFailed(error) => Some(
                (ClaimState::Done, ClaimAction::Abandon(QueueError::Store(error))),
            ),
            _ => None,
        },
        ClaimState::Done => None,
    }
}

/// Every step brings the attempt nearer to its end, and the attempt is over
/// exactly when the action is a final one.
pub proof fn lemma_step_progress<S, H>(state: ClaimState, event: ClaimEvent<S, H>)
    requires
        spec_step(state, event) is Some,
    ensures
        spec_step(state, event).unwrap().0.remaining() < state.remaining(),
        spec_step(state, event).unwrap().1.is_final() == (spec_step(state, event).unwrap().0
            is Done),
{
}

/// A row is marked completed only in answer to the handler's success on that
/// row, and the commit is asked for only once the row is marked.
pub proof fn lemma_completion_needs_success<S, H>(state: ClaimState, event: ClaimEvent<S, H>)
    requires
        spec_step(state, event) is Some,
    ensures
        spec_step(state, event).unwrap().1 matches ClaimAction::MarkCompleted { id } ==> state
            == (ClaimState::Handling { id }) && event is HandlerSucceeded,
        spec_step(state, event).unwrap().1 is Commit ==> state is Marking && event is Marked,
        spec_step(state, event).unwrap().1 is Finish ==> state is Committing && event
            is Committed,
{
}

/// The handler's error ends the attempt at once: the transaction is dropped
/// and the error itself is reported.
pub proof fn lemma_handler_failure_abandons<S, H>(id: i32, error: H)
    ensures
        spec_step::<S, H>(ClaimState::Handling { id }, ClaimEvent::HandlerFailed(error)) == Some(
            (ClaimState::Done, ClaimAction::<S, H>::Abandon(QueueError::HandlerFailure(error))),
        ),
{
}

/// A failure of the store ends the attempt wherever the store was asked for
/// something: the transaction is dropped and the store's error is reported
/// as it came.
pub proof fn lemma_store_failure_abandons<S, H>(state: ClaimState, error: S)
    requires
        state is Opening || state is Selecting || state is Marking || state is Committing,
    ensures
        spec_step::<S, H>(state, ClaimEvent::StoreFailed(error)) == Some(
            (ClaimState::Done, ClaimAction::<S, H>::Abandon(QueueError::Store(error))),
        ),
{
}

/// The handler is run on the very message that the store selected, and on
/// nothing else.
pub proof fn lemma_handler_gets_selected<S, H>(state: ClaimState, event: ClaimEvent<S, H>)
    requires
        spec_step(state, event) is Some,
    ensures
        spec_step(state, event).unwrap().1 matches ClaimAction::RunHandler(entity) ==> state
            is Selecting && event == ClaimEvent::<S, H>::Selected(entity),
{
}

} // verus!
