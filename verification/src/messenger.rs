//! The queue itself: a producer's `add` and a consumer's `process_next`, on a
//! table of messages.

use vstd::prelude::*;
use vstd::pervasive::unreached;
use crate::claim::{step, spec_step, ClaimAction, ClaimEvent, ClaimState, QueueError};
use crate::entity::{Message, MessageEntity};
use crate::listener::{listen_step, spec_listen_step, ListenAction, ListenEvent, ListenState};
use crate::table::{MessageTable, StoreError, TableState};

verus! {

/// The handler may return success on this message.
pub open spec fn may_succeed<F, H>(handler: F, entity: MessageEntity) -> bool where
    F: Fn(&MessageEntity) -> Result<(), H>,
 {
    exists|out: Result<(), H>| out is Ok && call_ensures(handler, (&entity,), out)
}

/// The handler may return this error on this message.
pub open spec fn may_fail_with<F, H>(handler: F, entity: MessageEntity, error: H) -> bool where
    F: Fn(&MessageEntity) -> Result<(), H>,
 {
    call_ensures(handler, (&entity,), Err::<(), H>(error))
}

/// What the driver of a claim attempt knows between two steps: how the table
/// differs from the table at the start, given the state and the event that
/// is about to be reported.
spec fn in_flight<F, H>(
    start: TableState,
    now: TableState,
    state: ClaimState,
    event: ClaimEvent<StoreError, H>,
    held: Option<i32>,
    handler: F,
) -> bool where F: Fn(&MessageEntity) -> Result<(), H> {
    let k = start.oldest_claimable();
    match state {
        ClaimState::Idle => event is Start && now == start && held is None,
        ClaimState::Opening => event is Opened && now == start && held is None,
        ClaimState::Selecting => match event {
            ClaimEvent::Selected(entity) => {
                &&& start.has_claimable()
                &&& entity == start.rows[k].entity
                &&& now == start.lock(k)
                &&& held == Some(entity.id)
            },
            ClaimEvent::NoneAvailable => !start.has_claimable() && now == start && held is None,
            _ => false,
        },
        ClaimState::Handling { id } => {
            &&& start.has_claimable()
            &&& id == start.rows[k].entity.id
            &&& now == start.lock(k)
            &&& held == Some(id)
            &&& match event {
                ClaimEvent::HandlerSucceeded => may_succeed(handler, start.rows[k].entity),
                ClaimEvent::HandlerFailed(error) => may_fail_with(
                    handler,
                    start.rows[k].entity,
                    error,
                ),
                _ => false,
            }
        },
        ClaimState::Marking { id } => {
            &&& start.has_claimable()
            &&& id == start.rows[k].entity.id
            &&& now == start.lock(k)
            &&& held == Some(id)
            &&& event is Marked
            &&& may_succeed(handler, start.rows[k].entity)
        },
        ClaimState::Committing { id } => {
            &&& start.has_claimable()
            &&& now == start.complete(k)
            &&& held is None
            &&& event is Committed
            &&& may_succeed(handler, start.rows[k].entity)
        },
        ClaimState::Done => false,
    }
}

/// Locking a free row and releasing it again gives the table back.
proof fn lemma_lock_release(table: TableState, k: int)
    requires
        table.claimable(k),
    ensures
        table.lock(k).release(k) == table,
{
    assert(table.lock(k).release(k).rows =~= table.rows);
}

/// Committing a claim on a locked row gives the same table as completing the
/// row as it was before the lock.
proof fn lemma_lock_complete(table: TableState, k: int)
    requires
        table.claimable(k),
    ensures
        table.lock(k).complete(k) == table.complete(k),
{
    assert(table.lock(k).complete(k).rows =~= table.complete(k).rows);
}

/// After the lock on row `k`, the row with that id is still row `k`, and a
/// claim holds it.
proof fn lemma_locked_position(table: TableState, k: int)
    requires
        table.wf(),
        table.claimable(k),
    ensures
        table.lock(k).wf(),
        table.lock(k).claimed_ids().contains(table.rows[k].entity.id as int),
        table.lock(k).position_of(table.rows[k].entity.id as int) == k,
{
    let locked = table.lock(k);
    let id = table.rows[k].entity.id as int;
    assert(locked.is_position_of(id, k) && locked.rows[k].locked);
    locked.lemma_position_is(id, k);
}

/// How a run of the listener ended.
#[derive(Debug, PartialEq)]
pub struct ListenReport<H> {
    /// The number of messages that were completed.
    pub delivered: usize,
    /// The error that stopped the listener; `None` when it ran until the
    /// notifications were used up.
    pub stopped_by: Option<QueueError<StoreError, H>>,
}

/// What the driver of the listener knows between two steps.
spec fn listening<F, H>(
    now: TableState,
    state: ListenState,
    event: ListenEvent<StoreError, H>,
    left: int,
    attempted: int,
    delivered: int,
    handler: F,
) -> bool where F: Fn(&MessageEntity) -> Result<(), H> {
    &&& 0 <= delivered <= attempted
    &&& 0 <= left
    &&& match state {
        ListenState::Idle => event is Start,
        ListenState::Subscribing => event is Subscribed,
        ListenState::Waiting => event is Notified || (event is Closed && left == 0),
        ListenState::Claiming => event is ClaimSucceeded || event is ClaimFailed,
        ListenState::Stopped => false,
    }
    &&& match event {
        ListenEvent::ClaimFailed(QueueError::HandlerFailure(error)) => {
            &&& delivered < attempted
            &&& now.has_claimable()
            &&& may_fail_with(handler, now.oldest_entity(), error)
        },
        ListenEvent::ClaimFailed(QueueError::Store(_)) => false,
        _ => delivered == attempted || !now.has_claimable(),
    }
}

/// The order in which the listener's driver comes to an end: every step
/// lowers this number.
spec fn listen_measure<S, H>(state: ListenState, event: ListenEvent<S, H>, left: int) -> int {
    match state {
        ListenState::Idle => 2 * left + 4,
        ListenState::Subscribing => 2 * left + 3,
        ListenState::Waiting => if event is Closed {
            0
        } else {
            2 * left + 2
        },
        ListenState::Claiming => 2 * left + 1,
        ListenState::Stopped => 0,
    }
}

/// Completing a claimable row keeps the table well formed, takes that row out
/// of the claimable ones and leaves every other row as it was.
proof fn lemma_complete_keeps_rest(table: TableState, k: int)
    requires
        table.wf(),
        table.claimable(k),
    ensures
        table.complete(k).wf(),
        !table.complete(k).claimable(k),
        table.complete(k).rows.len() == table.rows.len(),
        forall|i: int|
            0 <= i < table.rows.len() && i != k ==> #[trigger] table.complete(k).rows[i]
                == table.rows[i],
{
}

/// A queue of messages on a table.
pub struct Messenger {
    table: MessageTable,
}

impl View for Messenger {
    type V = TableState;

    closed spec fn view(&self) -> TableState {
        self.table@
    }
}

impl Messenger {
    /// The queue's invariant: that of its table.
    pub open spec fn wf(&self) -> bool {
        self@.wf()
    }

    /// A queue on the given table.
    pub fn new(table: MessageTable) -> (messenger: Messenger)
        requires
            table.wf(),
        ensures
            messenger@ == table@,
            messenger.wf(),
    {
        Messenger { table }
    }

    /// The table under the queue.
    pub fn table(&self) -> (table: &MessageTable)
        ensures
            table@ == self@,
    {
        &self.table
    }

    /// Gives the table back.
    pub fn into_table(self) -> (table: MessageTable)
        ensures
            table@ == self@,
    {
        self.table
    }

    /// Shows the store's clock the time `now`; see
    /// [`MessageTable::advance_clock`].
    pub fn advance_clock(&mut self, now: i64)
        requires
            old(self).wf(),
        ensures
            final(self).wf(),
            final(self)@ == old(self)@.advance(now as int),
    {
        self.table.advance_clock(now);
    }

    /// Appends a message to the queue and returns it as stored: pending,
    /// under an id above every id issued before, created and updated at the
    /// store's time, with the payload as given. The store's refusal is
    /// returned as it is, and then nothing has changed.
    pub fn add(&mut self, message: Message) -> (stored: Result<MessageEntity, StoreError>)
        requires
            old(self).wf(),
        ensures
            final(self).wf(),
            old(self)@.last_id < i32::MAX ==> stored == Ok::<MessageEntity, StoreError>(
                old(self)@.inserted(message.payload),
            ) && final(self)@ == old(self)@.insert(message.payload),
            old(self)@.last_id >= i32::MAX ==> stored == Err::<MessageEntity, StoreError>(
                StoreError::IdsExhausted,
            ) && final(self)@ == old(self)@,
            stored matches Ok(entity) ==> {
                &&& entity.status is Pending
                &&& entity.id > old(self)@.last_id
                &&& forall|i: int|
                    0 <= i < old(self)@.rows.len() ==> (#[trigger] old(self)@.rows[i]).entity.id
                        < entity.id
                &&& entity.created_at <= entity.updated_at
                &&& entity.payload == message.payload
                &&& final(self)@.last_id == entity.id
            },
    {
        self.table.insert(message.payload)
    }

    /// The stored message with this id; `None` exactly when there is none.
    pub fn find_by_id(&self, id: i32) -> (found: Option<MessageEntity>)
        requires
            self.wf(),
        ensures
            found is Some == self@.contains_id(id as int),
            found matches Some(e) ==> e == self@.rows[self@.position_of(id as int)].entity,
    {
        self.table.find_by_id(id)
    }

    /// One claim attempt. Takes the oldest pending message that no other
    /// claim holds and runs `process_fn` on it.
    ///
    /// - With no such message: `Empty`, and the table is unchanged.
    /// - When the handler returns success: the message is completed and its
    ///   update time is the store's time; nothing else changes.
    /// - When the handler returns an error: that error comes back as
    ///   `HandlerFailure`, and the table is unchanged, so the message is
    ///   still pending and free for the next attempt.
    pub fn process_next<F, H>(&mut self, process_fn: &F) -> (outcome: Result<
        (),
        QueueError<StoreError, H>,
    >) where F: Fn(&MessageEntity) -> Result<(), H>
        requires
            old(self).wf(),
            old(self)@.has_claimable() ==> call_requires(
                *process_fn,
                (&old(self)@.oldest_entity(),),
            ),
        ensures
            final(self).wf(),
            !old(self)@.has_claimable() ==> {
                &&& outcome is Err
                &&& outcome->Err_0 is Empty
                &&& final(self)@ == old(self)@
            },
            old(self)@.has_claimable() ==> match outcome {
                Ok(_) => {
                    &&& may_succeed(*process_fn, old(self)@.oldest_entity())
                    &&& final(self)@ == old(self)@.complete_oldest()
                },
                Err(QueueError::HandlerFailure(error)) => {
                    &&& may_fail_with(*process_fn, old(self)@.oldest_entity(), error)
                    &&& final(self)@ == old(self)@
                },
                Err(_) => false,
            },
    {
        let ghost start = self@;
        let ghost k = start.oldest_claimable();
        let mut state = ClaimState::Idle;
        let mut event: ClaimEvent<StoreError, H> = ClaimEvent::Start;
        let mut held: Option<i32> = None;
        loop
            invariant
                start == old(self)@,
                k == start.oldest_claimable(),
                start.wf(),
                self.wf(),
                start.has_claimable() ==> call_requires(*process_fn, (&start.rows[k].entity,)),
                in_flight(start, self@, state, event, held, *process_fn),
            decreases state.remaining(),
        {
            proof {
                if start.has_claimable() {
                    start.lemma_oldest_claimable_exists();
                    lemma_locked_position(start, k);
                    lemma_lock_release(start, k);
                    lemma_lock_complete(start, k);
                }
            }
            let ghost reported = event;
            match step(state, event) {
                None => {
                    assert(spec_step(state, reported) is Some);
                    return unreached();
                },
                Some((next, action)) => {
                    state = next;
                    match action {
                        ClaimAction::OpenTransaction => {
                            event = ClaimEvent::Opened;
                        },
                        ClaimAction::SelectOldestPending => {
                            match self.table.claim_oldest() {
                                Some(entity) => {
                                    held = Some(entity.id);
                                    event = ClaimEvent::Selected(entity);
                                },
                                None => {
                                    event = ClaimEvent::NoneAvailable;
                                },
                            }
                        },
                        ClaimAction::RunHandler(entity) => {
                            let returned = process_fn(&entity);
                            match returned {
                                Ok(_) => {
                                    event = ClaimEvent::HandlerSucceeded;
                                },
                                Err(error) => {
                                    event = ClaimEvent::HandlerFailed(error);
                                },
                            }
                        },
                        ClaimAction::MarkCompleted { id } => {
                            event = ClaimEvent::Marked;
                        },
                        ClaimAction::Commit => {
                            let committed = match held {
                                Some(id) => self.table.complete(id),
                                None => Err(StoreError::NotClaimed),
                            };
                            match committed {
                                Ok(_) => {
                                    held = None;
                                    event = ClaimEvent::Committed;
                                },
                                Err(error) => {
                                    event = ClaimEvent::StoreFailed(error);
                                },
                            }
                        },
                        ClaimAction::Abandon(error) => {
                            if let Some(id) = held {
                                let _ = self.table.release(id);
                            }
                            return Err(error);
                        },
                        ClaimAction::Finish => {
                            return Ok(());
                        },
                    }
                },
            }
        }
    }

    /// Runs the listener over `notifications` notifications: one claim
    /// attempt for each, in turn, until they are used up or an attempt ends
    /// with an error other than `Empty`.
    ///
    /// The messages completed are the oldest claimable ones, one after the
    /// other, and the handler returned success on each. An attempt that
    /// finds the queue empty changes nothing and the listener carries on. A
    /// handler's error stops the listener with that error; the message it
    /// failed on is still the oldest claimable one.
    pub fn listen<F, H>(&mut self, notifications: usize, process_fn: &F) -> (report: ListenReport<
        H,
    >) where F: Fn(&MessageEntity) -> Result<(), H>
        requires
            old(self).wf(),
            forall|i: int| #[trigger]
                old(self)@.claimable(i) ==> call_requires(
                    *process_fn,
                    (&old(self)@.rows[i].entity,),
                ),
        ensures
            final(self).wf(),
            report.delivered <= notifications,
            final(self)@ == old(self)@.drain(report.delivered as nat),
            forall|j: nat|
                j < report.delivered ==> {
                    &&& (#[trigger] old(self)@.drain(j)).has_claimable()
                    &&& may_succeed(*process_fn, old(self)@.drain(j).oldest_entity())
                },
            match report.stopped_by {
                None => report.delivered == notifications || !final(self)@.has_claimable(),
                Some(QueueError::HandlerFailure(error)) => {
                    &&& report.delivered < notifications
                    &&& final(self)@.has_claimable()
                    &&& may_fail_with(*process_fn, final(self)@.oldest_entity(), error)
                },
                Some(_) => false,
            },
    {
        let ghost start = self@;
        let ghost mut attempted: int = 0;
        let mut state = ListenState::Idle;
        let mut event: ListenEvent<StoreError, H> = ListenEvent::Start;
        let mut left: usize = notifications;
        let mut delivered: usize = 0;
        loop
            invariant
                start == old(self)@,
                self.wf(),
                self@ == start.drain(delivered as nat),
                attempted + left + (if event is Notified {
                    1int
                } else {
                    0int
                }) == notifications,
                listening(self@, state, event, left as int, attempted, delivered as int, *process_fn),
                forall|i: int| #[trigger]
                    self@.claimable(i) ==> start.claimable(i) && self@.rows[i].entity
                        == start.rows[i].entity,
                forall|i: int| #[trigger]
                    start.claimable(i) ==> call_requires(*process_fn, (&start.rows[i].entity,)),
                forall|j: nat|
                    j < delivered ==> {
                        &&& (#[trigger] start.drain(j)).has_claimable()
                        &&& may_succeed(*process_fn, start.drain(j).oldest_entity())
                    },
            decreases listen_measure(state, event, left as int),
        {
            let ghost reported = event;
            match listen_step(state, event) {
                None => {
                    assert(spec_listen_step(state, reported) is Some);
                    return unreached();
                },
                Some((next, action)) => {
                    state = next;
                    match action {
                        ListenAction::Subscribe => {
                            event = ListenEvent::Subscribed;
                        },
                        ListenAction::AwaitNotification => {
                            if left > 0 {
                                left = left - 1;
                                event = ListenEvent::Notified;
                            } else {
                                event = ListenEvent::Closed;
                            }
                        },
                        ListenAction::Claim => {
                            let ghost before = self@;
                            proof {
                                if before.has_claimable() {
                                    before.lemma_oldest_claimable_exists();
                                    lemma_complete_keeps_rest(before, before.oldest_claimable());
                                }
                            }
                            match self.process_next(process_fn) {
                                Ok(_) => {
                                    proof {
                                        attempted = attempted + 1;
                                        assert(start.drain((delivered + 1) as nat)
                                            == start.drain(delivered as nat).complete_oldest());
                                        assert forall|i: int| #[trigger]
                                            self@.claimable(i) implies start.claimable(i)
                                            && self@.rows[i].entity == start.rows[i].entity by {
                                            if i != before.oldest_claimable() {
                                                assert(self@.rows[i] == before.rows[i]);
                                                assert(before.claimable(i));
                                            }
                                        }
                                    }
                                    delivered = delivered + 1;
                                    event = ListenEvent::ClaimSucceeded;
                                },
                                Err(error) => {
                                    proof {
                                        attempted = attempted + 1;
                                    }
                                    event = ListenEvent::ClaimFailed(error);
                                },
                            }
                        },
                        ListenAction::Stop(error) => {
                            return ListenReport { delivered, stopped_by: Some(error) };
                        },
                        ListenAction::End => {
                            return ListenReport { delivered, stopped_by: None };
                        },
                    }
                },
            }
        }
    }
}

} // verus!
