//! The table of messages: one row per message, in insertion order, with the
//! row locks that claims hold.
//!
//! `TableState` is the mathematical table and says what every operation does.
//! `MessageTable` is the table held in memory; each of its operations is
//! proved to do what `TableState` says.

use vstd::prelude::*;
use crate::entity::{MessageEntity, MessageStatus};

verus! {

/// One row: the stored message, and whether a claim holds its lock.
#[derive(Debug, PartialEq)]
pub struct Row {
    pub entity: MessageEntity,
    pub locked: bool,
}

/// Why the table refused an operation.
#[derive(Clone, Copy, Debug, PartialEq, Eq, Structural)]
pub enum StoreError {
    /// Every id has been issued; the table takes no further message.
    IdsExhausted,
    /// No claim holds a row with the given id.
    NotClaimed,
}

/// The table as a mathematical value.
pub struct TableState {
    /// The rows, oldest first.
    pub rows: Seq<Row>,
    /// The last id issued; 0 before the first insert.
    pub last_id: int,
    /// The store's clock. It never runs backwards.
    pub clock: int,
}

impl TableState {
    pub open spec fn empty() -> TableState {
        TableState { rows: Seq::empty(), last_id: 0, clock: 0 }
    }

    /// What holds of every table: ids grow along the rows and none exceeds
    /// the last one issued; every message is well formed and was last
    /// updated no later than now; only pending rows are locked.
    pub open spec fn wf(self) -> bool {
        &&& 0 <= self.last_id <= i32::MAX
        &&& i64::MIN <= self.clock <= i64::MAX
        &&& forall|i: int|
            0 <= i < self.rows.len() ==> {
                &&& (#[trigger] self.rows[i]).entity.wf()
                &&& self.rows[i].entity.id <= self.last_id
                &&& self.rows[i].entity.updated_at <= self.clock
                &&& self.rows[i].locked ==> self.rows[i].entity.status is Pending
            }
        &&& forall|i: int, j: int|
            0 <= i < j < self.rows.len() ==> (#[trigger] self.rows[i]).entity.id < (
            #[trigger] self.rows[j]).entity.id
    }

    /// Row `i` can be claimed: it is pending, and no claim holds it.
    pub open spec fn claimable(self, i: int) -> bool {
        &&& 0 <= i < self.rows.len()
        &&& self.rows[i].entity.status is Pending
        &&& !self.rows[i].locked
    }

    pub open spec fn has_claimable(self) -> bool {
        exists|i: int| self.claimable(i)
    }

    /// Row `i` can be claimed and no row before it can.
    pub open spec fn is_oldest_claimable(self, i: int) -> bool {
        &&& self.claimable(i)
        &&& forall|j: int| 0 <= j < i ==> !self.claimable(j)
    }

    /// The position of the oldest row that can be claimed, where there is
    /// one.
    pub open spec fn oldest_claimable(self) -> int {
        choose|i: int| self.is_oldest_claimable(i)
    }

    /// The message in the oldest row that can be claimed, where there is
    /// one.
    pub open spec fn oldest_entity(self) -> MessageEntity {
        self.rows[self.oldest_claimable()].entity
    }

    /// Row `i` holds the message with this id.
    pub open spec fn is_position_of(self, id: int, i: int) -> bool {
        0 <= i < self.rows.len() && self.rows[i].entity.id == id
    }

    pub open spec fn contains_id(self, id: int) -> bool {
        exists|i: int| self.is_position_of(id, i)
    }

    /// The position of the row with this id, where there is one.
    pub open spec fn position_of(self, id: int) -> int {
        choose|i: int| self.is_position_of(id, i)
    }

    /// The ids of the rows that a claim holds.
    pub open spec fn claimed_ids(self) -> Set<int> {
        Set::new(
            |id: int|
                exists|i: int| self.is_position_of(id, i) && self.rows[i].locked,
        )
    }

    /// The message that an insert of `payload` stores.
    pub open spec fn inserted(self, payload: serde_json::Value) -> MessageEntity {
        MessageEntity {
            id: (self.last_id + 1) as i32,
            status: MessageStatus::Pending,
            payload,
            created_at: self.clock as i64,
            updated_at: self.clock as i64,
        }
    }

    /// The table after an insert of `payload`.
    pub open spec fn insert(self, payload: serde_json::Value) -> TableState {
        TableState {
            rows: self.rows.push(Row { entity: self.inserted(payload), locked: false }),
            last_id: self.last_id + 1,
            clock: self.clock,
        }
    }

    /// The table after a claim took the lock of row `i`.
    pub open spec fn lock(self, i: int) -> TableState {
        TableState { rows: self.rows.update(i, Row { locked: true, ..self.rows[i] }), ..self }
    }

    /// The table after the claim on row `i` was abandoned: the lock is gone
    /// and nothing else has changed.
    pub open spec fn release(self, i: int) -> TableState {
        TableState { rows: self.rows.update(i, Row { locked: false, ..self.rows[i] }), ..self }
    }

    /// The table after the claim on row `i` was committed: the message is
    /// completed, it was updated now, and the lock is gone.
    pub open spec fn complete(self, i: int) -> TableState {
        TableState {
            rows: self.rows.update(
                i,
                Row {
                    entity: MessageEntity {
                        status: MessageStatus::Completed,
                        updated_at: self.clock as i64,
                        ..self.rows[i].entity
                    },
                    locked: false,
                },
            ),
            ..self
        }
    }

    /// The table after the oldest claimable row was claimed and the claim
    /// committed.
    pub open spec fn complete_oldest(self) -> TableState {
        self.complete(self.oldest_claimable())
    }

    /// The table after `n` claims in a row, each on the oldest claimable row
    /// of its time, were committed.
    pub open spec fn drain(self, n: nat) -> TableState
        decreases n,
    {
        if n == 0 {
            self
        } else {
            self.drain((n - 1) as nat).complete_oldest()
        }
    }

    /// The table after a claim took the oldest claimable row.
    pub open spec fn claim_oldest(self) -> TableState {
        self.lock(self.oldest_claimable())
    }

    /// The table while `n` claims are open at once, each taken on the oldest
    /// row that the claims before it had left free.
    pub open spec fn claims(self, n: nat) -> TableState
        decreases n,
    {
        if n == 0 {
            self
        } else {
            self.claims((n - 1) as nat).claim_oldest()
        }
    }

    /// The id of the message that the claim after `n` open ones takes.
    pub open spec fn claimed_id(self, n: nat) -> int {
        self.claims(n).oldest_entity().id as int
    }

    /// The table after the payloads were inserted one after the other.
    pub open spec fn insert_all(self, payloads: Seq<serde_json::Value>) -> TableState
        decreases payloads.len(),
    {
        if payloads.len() == 0 {
            self
        } else {
            self.insert_all(payloads.drop_last()).insert(payloads.last())
        }
    }

    /// The table after its clock was shown the time `now`.
    pub open spec fn advance(self, now: int) -> TableState {
        TableState { clock: if now > self.clock { now } else { self.clock }, ..self }
    }

    /// Two rows that are both the oldest claimable one are the same row.
    pub proof fn lemma_oldest_claimable_unique(self, i: int, j: int)
        requires
            self.is_oldest_claimable(i),
            self.is_oldest_claimable(j),
        ensures
            i == j,
    {
        if i < j {
            assert(!self.claimable(i));
        } else if j < i {
            assert(!self.claimable(j));
        }
    }

    /// A row that is the oldest claimable one is the one `oldest_claimable`
    /// names.
    pub proof fn lemma_oldest_claimable_is(self, i: int)
        requires
            self.is_oldest_claimable(i),
        ensures
            self.has_claimable(),
            self.oldest_claimable() == i,
    {
        self.lemma_oldest_claimable_unique(i, self.oldest_claimable());
    }

    /// Where a row can be claimed, there is an oldest one.
    pub proof fn lemma_oldest_claimable_exists(self)
        requires
            self.has_claimable(),
        ensures
            self.is_oldest_claimable(self.oldest_claimable()),
    {
        let k = choose|i: int| self.claimable(i);
        self.lemma_oldest_before(k);
    }

    proof fn lemma_oldest_before(self, k: int)
        requires
            self.claimable(k),
        ensures
            exists|i: int| self.is_oldest_claimable(i),
        decreases k,
    {
        if exists|j: int| 0 <= j < k && self.claimable(j) {
            let j = choose|j: int| 0 <= j < k && self.claimable(j);
            self.lemma_oldest_before(j);
        } else {
            assert(self.is_oldest_claimable(k));
        }
    }

    /// In a well-formed table no two rows share an id.
    pub proof fn lemma_position_unique(self, id: int, i: int, j: int)
        requires
            self.wf(),
            self.is_position_of(id, i),
            self.is_position_of(id, j),
        ensures
            i == j,
    {
        if i < j {
            assert(self.rows[i].entity.id < self.rows[j].entity.id);
        } else if j < i {
            assert(self.rows[j].entity.id < self.rows[i].entity.id);
        }
    }

    /// A row that holds the id is the one `position_of` names.
    pub proof fn lemma_position_is(self, id: int, i: int)
        requires
            self.wf(),
            self.is_position_of(id, i),
        ensures
            self.contains_id(id),
            self.position_of(id) == i,
    {
        self.lemma_position_unique(id, i, self.position_of(id));
    }

    /// The oldest claimable row has the smallest id of all claimable rows.
    pub proof fn lemma_oldest_has_least_id(self, j: int)
        requires
            self.wf(),
            self.has_claimable(),
            self.claimable(j),
        ensures
            self.rows[self.oldest_claimable()].entity.id <= self.rows[j].entity.id,
    {
        self.lemma_oldest_claimable_exists();
        let k = self.oldest_claimable();
        if j < k {
            assert(!self.claimable(j));
        } else if k < j {
            assert(self.rows[k].entity.id < self.rows[j].entity.id);
        }
    }
}

/// The table of messages, held in memory.
pub struct MessageTable {
    rows: Vec<Row>,
    last_id: i32,
    clock: i64,
}

impl View for MessageTable {
    type V = TableState;

    closed spec fn view(&self) -> TableState {
        TableState { rows: self.rows@, last_id: self.last_id as int, clock: self.clock as int }
    }
}

impl MessageTable {
    /// The table's invariant: that of its mathematical value.
    pub open spec fn wf(&self) -> bool {
        self@.wf()
    }

    /// An empty table whose clock stands at 0.
    pub fn new() -> (table: MessageTable)
        ensures
            table@ == TableState::empty(),
            table.wf(),
    {
        MessageTable { rows: Vec::new(), last_id: 0, clock: 0 }
    }

    /// An empty table whose id sequence has already issued the ids up to
    /// `last_id`, with its clock at `clock`. `None` for a negative `last_id`.
    pub fn continuing(last_id: i32, clock: i64) -> (table: Option<MessageTable>)
        ensures
            table is Some == (last_id >= 0),
            table matches Some(t) ==> t.wf() && t@ == (TableState {
                rows: Seq::empty(),
                last_id: last_id as int,
                clock: clock as int,
            }),
    {
        if last_id >= 0 {
            Some(MessageTable { rows: Vec::new(), last_id, clock })
        } else {
            None
        }
    }

    /// The number of rows.
    pub fn len(&self) -> (n: usize)
        ensures
            n == self@.rows.len(),
    {
        self.rows.len()
    }

    /// The last id issued; 0 before the first insert.
    pub fn last_id(&self) -> (id: i32)
        ensures
            id == self@.last_id,
    {
        self.last_id
    }

    /// The time on the store's clock.
    pub fn clock(&self) -> (now: i64)
        ensures
            now == self@.clock,
    {
        self.clock
    }

    /// Shows the clock the time `now`. The clock moves forward to it, and
    /// stays where it is when `now` lies in its past.
    pub fn advance_clock(&mut self, now: i64)
        requires
            old(self).wf(),
        ensures
            final(self).wf(),
            final(self)@ == old(self)@.advance(now as int),
    {
        if now > self.clock {
            self.clock = now;
        }
    }

    /// Stores a new message with the given payload: pending, unlocked, under
    /// the next id, created and updated now. Returns the stored message.
    /// Fails, and changes nothing, exactly when every id has been issued.
    pub fn insert(&mut self, payload: serde_json::Value) -> (stored: Result<
        MessageEntity,
        StoreError,
    >)
        requires
            old(self).wf(),
        ensures
            final(self).wf(),
            old(self)@.last_id < i32::MAX ==> stored == Ok::<MessageEntity, StoreError>(
                old(self)@.inserted(payload),
            ) && final(self)@ == old(self)@.insert(payload),
            old(self)@.last_id >= i32::MAX ==> stored == Err::<MessageEntity, StoreError>(
                StoreError::IdsExhausted,
            ) && final(self)@ == old(self)@,
    {
        if self.last_id == i32::MAX {
            return Err(StoreError::IdsExhausted);
        }
        let entity = MessageEntity {
            id: self.last_id + 1,
            status: MessageStatus::Pending,
            payload,
            created_at: self.clock,
            updated_at: self.clock,
        };
        let stored = entity.clone();
        self.rows.push(Row { entity, locked: false });
        self.last_id = self.last_id + 1;
        assert(self@.rows == old(self)@.insert(payload).rows);
        Ok(stored)
    }

    /// The position of the row with this id, by a search along the rows.
    fn locate(&self, id: i32) -> (found: Option<usize>)
        requires
            self.wf(),
        ensures
            found matches Some(i) ==> self@.is_position_of(id as int, i as int),
            found is None ==> !self@.contains_id(id as int),
    {
        let mut i: usize = 0;
        while i < self.rows.len()
            invariant
                i <= self.rows.len(),
                forall|j: int| 0 <= j < i ==> !self@.is_position_of(id as int, j),
            decreases self.rows.len() - i,
        {
            if self.rows[i].entity.id == id {
                return Some(i);
            }
            i = i + 1;
        }
        None
    }

    /// The stored message with this id; `None` exactly when no row has it.
    pub fn find_by_id(&self, id: i32) -> (found: Option<MessageEntity>)
        requires
            self.wf(),
        ensures
            found is Some == self@.contains_id(id as int),
            found matches Some(e) ==> e == self@.rows[self@.position_of(id as int)].entity,
    {
        match self.locate(id) {
            Some(i) => {
                proof {
                    self@.lemma_position_is(id as int, i as int);
                }
                Some(self.rows[i].entity.clone())
            },
            None => None,
        }
    }

    /// Whether a claim holds the row with this id.
    pub fn is_claimed(&self, id: i32) -> (held: bool)
        requires
            self.wf(),
        ensures
            held == self@.claimed_ids().contains(id as int),
    {
        match self.locate(id) {
            Some(i) => {
                proof {
                    self@.lemma_position_is(id as int, i as int);
                    if self@.claimed_ids().contains(id as int) {
                        let k = choose|k: int|
                            self@.is_position_of(id as int, k) && self@.rows[k].locked;
                        self@.lemma_position_unique(id as int, i as int, k);
                    }
                }
                self.rows[i].locked
            },
            None => false,
        }
    }

    /// Takes the oldest pending row that no claim holds, skipping the rows
    /// that are locked, and locks it. Returns the message in that row, or
    /// `None`, with the table unchanged, when no row can be claimed.
    pub fn claim_oldest(&mut self) -> (claimed: Option<MessageEntity>)
        requires
            old(self).wf(),
        ensures
            final(self).wf(),
            claimed is Some == old(self)@.has_claimable(),
            claimed matches Some(entity) ==> {
                &&& entity == old(self)@.oldest_entity()
                &&& final(self)@ == old(self)@.claim_oldest()
            },
            claimed is None ==> final(self)@ == old(self)@,
    {
        let mut i: usize = 0;
        while i < self.rows.len()
            invariant
                i <= self.rows.len(),
                self@ == old(self)@,
                self.wf(),
                forall|j: int| 0 <= j < i ==> !self@.claimable(j),
            decreases self.rows.len() - i,
        {
            if self.rows[i].entity.status.is_claimable() && !self.rows[i].locked {
                proof {
                    assert(self@.is_oldest_claimable(i as int));
                    self@.lemma_oldest_claimable_is(i as int);
                }
                let entity = self.rows[i].entity.clone();
                self.rows[i].locked = true;
                assert(self@.rows == old(self)@.lock(i as int).rows);
                return Some(entity);
            }
            i = i + 1;
        }
        None
    }

    /// Ends the claim on the row with this id by committing it: the message
    /// becomes completed, its update time becomes now, and the lock is
    /// released. Fails, and changes nothing, exactly when no claim holds
    /// that row.
    pub fn complete(&mut self, id: i32) -> (done: Result<(), StoreError>)
        requires
            old(self).wf(),
        ensures
            final(self).wf(),
            done is Ok == old(self)@.claimed_ids().contains(id as int),
            done is Ok ==> final(self)@ == old(self)@.complete(
                old(self)@.position_of(id as int),
            ),
            done is Err ==> done == Err::<(), StoreError>(StoreError::NotClaimed) && final(self)@
                == old(self)@,
    {
        let held = self.is_claimed(id);
        match self.locate(id) {
            Some(i) => {
                proof {
                    self@.lemma_position_is(id as int, i as int);
                }
                if self.rows[i].locked {
                    assert(held);
                    let now = self.clock;
                    let row = &mut self.rows[i];
                    row.entity.status = MessageStatus::Completed;
                    row.entity.updated_at = now;
                    row.locked = false;
                    assert(self@.rows == old(self)@.complete(i as int).rows);
                    Ok(())
                } else {
                    Err(StoreError::NotClaimed)
                }
            },
            None => Err(StoreError::NotClaimed),
        }
    }

    /// Ends the claim on the row with this id by abandoning it: the lock is
    /// released and the row is as it was before the claim. Fails, and changes
    /// nothing, exactly when no claim holds that row.
    pub fn release(&mut self, id: i32) -> (done: Result<(), StoreError>)
        requires
            old(self).wf(),
        ensures
            final(self).wf(),
            done is Ok == old(self)@.claimed_ids().contains(id as int),
            done is Ok ==> final(self)@ == old(self)@.release(old(self)@.position_of(id as int)),
            done is Err ==> done == Err::<(), StoreError>(StoreError::NotClaimed) && final(self)@
                == old(self)@,
    {
        let held = self.is_claimed(id);
        match self.locate(id) {
            Some(i) => {
                proof {
                    self@.lemma_position_is(id as int, i as int);
                }
                if self.rows[i].locked {
                    self.rows[i].locked = false;
                    assert(self@.rows == old(self)@.release(i as int).rows);
                    Ok(())
                } else {
                    Err(StoreError::NotClaimed)
                }
            },
            None => Err(StoreError::NotClaimed),
        }
    }
}

} // verus!
