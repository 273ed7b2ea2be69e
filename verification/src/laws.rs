//! What holds of the queue as a whole, proved over the mathematical table.

use vstd::prelude::*;
use crate::entity::{MessageEntity, MessageStatus};
use crate::table::{Row, TableState};

verus! {

/// Every operation keeps the table well formed: ids stay unique and growing,
/// no message is updated before it was created, only pending rows are
/// locked.
pub proof fn lemma_operations_keep_wf(table: TableState, payload: serde_json::Value, k: int, now: int)
    requires
        table.wf(),
    ensures
        TableState::empty().wf(),
        table.last_id < i32::MAX ==> table.insert(payload).wf(),
        table.claimable(k) ==> table.lock(k).wf(),
        0 <= k < table.rows.len() ==> table.release(k).wf(),
        0 <= k < table.rows.len() ==> table.complete(k).wf(),
        i64::MIN <= now <= i64::MAX ==> table.advance(now).wf(),
{
}

/// A message comes out of an insert pending, under an id above every id
/// issued before and so above that of every row, created and updated at the
/// same moment, and with the payload that went in.
pub proof fn lemma_insert_is_fresh(table: TableState, payload: serde_json::Value)
    requires
        table.wf(),
        table.last_id < i32::MAX,
    ensures
        table.inserted(payload).status is Pending,
        table.inserted(payload).id > table.last_id,
        forall|i: int|
            0 <= i < table.rows.len() ==> (#[trigger] table.rows[i]).entity.id < table.inserted(
                payload,
            ).id,
        table.inserted(payload).created_at <= table.inserted(payload).updated_at,
        table.inserted(payload).payload == payload,
        table.inserted(payload).wf(),
        table.insert(payload).last_id == table.inserted(payload).id,
{
}

/// Ids are issued in strictly growing order: of two inserts, the later
/// message has the larger id.
pub proof fn lemma_ids_grow(table: TableState, first: serde_json::Value, second: serde_json::Value)
    requires
        table.wf(),
        table.last_id + 1 < i32::MAX,
    ensures
        table.inserted(first).id < table.insert(first).inserted(second).id,
{
}

/// A message that was inserted is found again under the id it was given, as
/// it was stored: with the payload that went in.
pub proof fn lemma_insert_then_find(table: TableState, payload: serde_json::Value)
    requires
        table.wf(),
        table.last_id < i32::MAX,
    ensures
        table.insert(payload).contains_id(table.inserted(payload).id as int),
        table.insert(payload).rows[table.insert(payload).position_of(
            table.inserted(payload).id as int,
        )].entity == table.inserted(payload),
        table.insert(payload).rows[table.insert(payload).position_of(
            table.inserted(payload).id as int,
        )].entity.payload == payload,
{
    let after = table.insert(payload);
    let id = table.inserted(payload).id as int;
    let at = table.rows.len() as int;
    assert(after.wf());
    assert(after.is_position_of(id, at));
    after.lemma_position_is(id, at);
}

/// An insert leaves every message that was there before as it was.
pub proof fn lemma_insert_keeps_rows(table: TableState, payload: serde_json::Value, i: int)
    requires
        0 <= i < table.rows.len(),
    ensures
        table.insert(payload).rows[i] == table.rows[i],
{
}

/// With no pending row there is nothing to claim.
pub proof fn lemma_no_pending_no_claim(table: TableState)
    requires
        forall|i: int| 0 <= i < table.rows.len() ==> !((#[trigger] table.rows[i]).entity.status is Pending),
    ensures
        !table.has_claimable(),
{
    assert forall|i: int| !table.claimable(i) by {
        if 0 <= i < table.rows.len() {
            assert(!(table.rows[i].entity.status is Pending));
        }
    }
}

/// A claim takes a row that no other claim holds, and holds it from then
/// on: the row is no longer free for the next claim.
pub proof fn lemma_claim_is_exclusive(table: TableState)
    requires
        table.wf(),
        table.has_claimable(),
    ensures
        !table.rows[table.oldest_claimable()].locked,
        table.rows[table.oldest_claimable()].entity.status is Pending,
        table.claim_oldest().rows[table.oldest_claimable()].locked,
        !table.claim_oldest().claimable(table.oldest_claimable()),
        table.claim_oldest().wf(),
{
    table.lemma_oldest_claimable_exists();
}

/// A claim that is abandoned leaves no trace: the message is pending as
/// before, its update time is what it was, and the row is free again.
pub proof fn lemma_abandon_restores(table: TableState)
    requires
        table.wf(),
        table.has_claimable(),
    ensures
        table.claim_oldest().release(table.oldest_claimable()) == table,
{
    table.lemma_oldest_claimable_exists();
    let k = table.oldest_claimable();
    assert(table.lock(k).release(k).rows =~= table.rows);
}

/// A claim that is committed completes its message and nothing else: the
/// status is `Completed`, the update time is the store's time, which is not
/// before the old update time, and id, payload and creation time are what
/// they were. Every other row is untouched.
pub proof fn lemma_commit_completes(table: TableState)
    requires
        table.wf(),
        table.has_claimable(),
    ensures
        table.claim_oldest().complete(table.oldest_claimable()) == table.complete_oldest(),
        table.complete_oldest().wf(),
        table.complete_oldest().rows.len() == table.rows.len(),
        ({
            let k = table.oldest_claimable();
            let before = table.rows[k].entity;
            let after = table.complete_oldest().rows[k].entity;
            &&& after.status is Completed
            &&& after.updated_at == table.clock
            &&& after.updated_at >= before.updated_at
            &&& after.created_at == before.created_at
            &&& after.id == before.id
            &&& after.payload == before.payload
            &&& !table.complete_oldest().rows[k].locked
        }),
        forall|i: int|
            0 <= i < table.rows.len() && i != table.oldest_claimable()
                ==> #[trigger] table.complete_oldest().rows[i] == table.rows[i],
{
    table.lemma_oldest_claimable_exists();
    let k = table.oldest_claimable();
    assert(table.lock(k).complete(k).rows =~= table.complete(k).rows);
}

/// The shape of a table after a run of inserts: the old rows are as they
/// were, and behind them stand the new messages in the order of the
/// payloads, pending and free, under the next ids in turn.
pub proof fn lemma_insert_all_shape(table: TableState, payloads: Seq<serde_json::Value>)
    requires
        table.wf(),
        table.last_id + payloads.len() <= i32::MAX,
    ensures
        table.insert_all(payloads).wf(),
        table.insert_all(payloads).rows.len() == table.rows.len() + payloads.len(),
        table.insert_all(payloads).last_id == table.last_id + payloads.len(),
        table.insert_all(payloads).clock == table.clock,
        forall|i: int|
            0 <= i < table.rows.len() ==> #[trigger] table.insert_all(payloads).rows[i]
                == table.rows[i],
        forall|j: int|
            0 <= j < payloads.len() ==> #[trigger] table.insert_all(payloads).rows[table.rows.len()
                + j] == (Row {
                entity: MessageEntity {
                    id: (table.last_id + 1 + j) as i32,
                    status: MessageStatus::Pending,
                    payload: payloads[j],
                    created_at: table.clock as i64,
                    updated_at: table.clock as i64,
                },
                locked: false,
            }),
    decreases payloads.len(),
{
    if payloads.len() > 0 {
        let front = payloads.drop_last();
        lemma_insert_all_shape(table, front);
        let before = table.insert_all(front);
        let after = table.insert_all(payloads);
        assert(after == before.insert(payloads.last()));
        assert forall|j: int| 0 <= j < payloads.len() implies #[trigger] after.rows[table.rows.len()
            + j] == (Row {
            entity: MessageEntity {
                id: (table.last_id + 1 + j) as i32,
                status: MessageStatus::Pending,
                payload: payloads[j],
                created_at: table.clock as i64,
                updated_at: table.clock as i64,
            },
            locked: false,
        }) by {
            if j < front.len() {
                assert(after.rows[table.rows.len() + j] == before.rows[table.rows.len() + j]);
                assert(front[j] == payloads[j]);
            }
        }
    }
}

/// The shape of a freshly filled table while `open` claims are held at once:
/// the first `open` of the new rows are locked, in order, and nothing else
/// has changed.
proof fn lemma_claims_shape(table: TableState, payloads: Seq<serde_json::Value>, open: nat)
    requires
        table.wf(),
        !table.has_claimable(),
        table.last_id + payloads.len() <= i32::MAX,
        open <= payloads.len(),
    ensures
        table.insert_all(payloads).claims(open).wf(),
        table.insert_all(payloads).claims(open).rows.len() == table.rows.len() + payloads.len(),
        forall|i: int|
            0 <= i < table.rows.len() ==> #[trigger] table.insert_all(payloads).claims(
                open,
            ).rows[i] == table.rows[i],
        forall|j: int|
            0 <= j < payloads.len() ==> #[trigger] table.insert_all(payloads).claims(
                open,
            ).rows[table.rows.len() + j] == (Row {
                locked: j < open,
                ..table.insert_all(payloads).rows[table.rows.len() + j]
            }),
        open < payloads.len() ==> table.insert_all(payloads).claims(open).is_oldest_claimable(
            (table.rows.len() + open) as int,
        ),
        open == payloads.len() ==> !table.insert_all(payloads).claims(open).has_claimable(),
    decreases open,
{
    let filled = table.insert_all(payloads);
    let base = table.rows.len() as int;
    lemma_insert_all_shape(table, payloads);
    if open > 0 {
        let fewer = (open - 1) as nat;
        lemma_claims_shape(table, payloads, fewer);
        let before = filled.claims(fewer);
        before.lemma_oldest_claimable_is(base + fewer);
        assert(filled.claims(open) == before.lock(base + fewer));
        assert(before.rows[base + fewer] == filled.rows[base + fewer]);
    }
    let held = filled.claims(open);
    assert forall|i: int| 0 <= i < base + open implies !held.claimable(i) by {
        if i < base {
            assert(held.rows[i] == table.rows[i]);
            assert(!table.claimable(i));
        } else {
            assert(held.rows[base + (i - base)].locked);
        }
    }
    if open < payloads.len() {
        assert(held.rows[base + open] == filled.rows[base + open]);
        assert(held.claimable(base + open));
    } else {
        assert forall|i: int| !held.claimable(i) by {
            if 0 <= i < held.rows.len() {
                assert(i < base + open);
            }
        }
    }
}

/// Competing consumers never share a message and never lose one.
///
/// Let `payloads` be inserted, one after the other, into a table in which
/// nothing was free to claim, and let as many claims be open at once as
/// there are payloads. Then every claim gets a message; the claim after `j`
/// open ones gets the message of the payload at `j`; no two claims get the
/// same message; the ids claimed are exactly the ids inserted; and a claim
/// beyond these finds nothing.
pub proof fn lemma_concurrent_claims_partition(table: TableState, payloads: Seq<serde_json::Value>)
    requires
        table.wf(),
        !table.has_claimable(),
        table.last_id + payloads.len() <= i32::MAX,
    ensures
        forall|j: nat|
            j < payloads.len() ==> {
                &&& (#[trigger] table.insert_all(payloads).claims(j)).has_claimable()
                &&& table.insert_all(payloads).claimed_id(j) == table.last_id + 1 + j
                &&& table.insert_all(payloads).claims(j).oldest_entity().payload
                    == payloads[j as int]
            },
        forall|i: nat, j: nat|
            i < payloads.len() && j < payloads.len() && i != j ==> #[trigger] table.insert_all(
                payloads,
            ).claimed_id(i) != #[trigger] table.insert_all(payloads).claimed_id(j),
        forall|id: int|
            (exists|j: nat|
                j < payloads.len() && #[trigger] table.insert_all(payloads).claimed_id(j) == id)
                <==> (table.insert_all(payloads).contains_id(id) && !table.contains_id(id)),
        !table.insert_all(payloads).claims(payloads.len()).has_claimable(),
{
    let filled = table.insert_all(payloads);
    let base = table.rows.len() as int;
    let count = payloads.len();
    lemma_insert_all_shape(table, payloads);
    lemma_claims_shape(table, payloads, count);
    assert forall|j: nat| j < count implies {
        &&& (#[trigger] filled.claims(j)).has_claimable()
        &&& filled.claimed_id(j) == table.last_id + 1 + j
        &&& filled.claims(j).oldest_entity().payload == payloads[j as int]
    } by {
        lemma_claims_shape(table, payloads, j);
        filled.claims(j).lemma_oldest_claimable_is(base + j);
        assert(filled.claims(j).rows[base + j] == (Row {
            locked: false,
            ..filled.rows[base + j]
        }));
    }
    assert forall|id: int|
        (exists|j: nat| j < count && #[trigger] filled.claimed_id(j) == id) <==> (
        filled.contains_id(id) && !table.contains_id(id)) by {
        if exists|j: nat| j < count && #[trigger] filled.claimed_id(j) == id {
            let j = choose|j: nat| j < count && #[trigger] filled.claimed_id(j) == id;
            assert(filled.rows[base + j].entity.id == id);
            assert(filled.is_position_of(id, base + j));
            if table.contains_id(id) {
                let i = table.position_of(id);
                assert(table.rows[i].entity.id <= table.last_id);
            }
        }
        if filled.contains_id(id) && !table.contains_id(id) {
            let p = filled.position_of(id);
            assert(filled.is_position_of(id, p));
            if p < base {
                assert(filled.rows[p] == table.rows[p]);
                assert(table.is_position_of(id, p));
            }
            let j = (p - base) as nat;
            assert(filled.rows[base + j].entity.id == id);
            assert(j < count && filled.claimed_id(j) == id);
        }
    }
}

/// Whatever the table, two claims that are open at once hold different
/// rows.
pub proof fn lemma_open_claims_differ(table: TableState, earlier: nat, later: nat)
    requires
        table.wf(),
        earlier < later,
        forall|j: nat| j <= later ==> (#[trigger] table.claims(j)).has_claimable(),
    ensures
        table.claimed_id(earlier) != table.claimed_id(later),
{
    lemma_claims_keep_locks(table, earlier, later);
    let first = table.claims(earlier);
    let k = first.oldest_claimable();
    first.lemma_oldest_claimable_exists();
    let second = table.claims(later);
    second.lemma_oldest_claimable_exists();
    let q = second.oldest_claimable();
    if table.claimed_id(earlier) == table.claimed_id(later) {
        assert(second.is_position_of(table.claimed_id(later), q));
        assert(second.is_position_of(table.claimed_id(earlier), k));
        second.lemma_position_unique(table.claimed_id(earlier), k, q);
    }
}

/// A row that a claim took stays locked, and every row stays who it is,
/// while further claims are opened.
proof fn lemma_claims_keep_locks(table: TableState, earlier: nat, later: nat)
    requires
        table.wf(),
        earlier < later,
        forall|j: nat| j <= later ==> (#[trigger] table.claims(j)).has_claimable(),
    ensures
        table.claims(later).wf(),
        table.claims(earlier).wf(),
        table.claims(later).rows.len() == table.claims(earlier).rows.len(),
        table.claims(later).rows[table.claims(earlier).oldest_claimable()].locked,
        forall|i: int|
            0 <= i < table.claims(earlier).rows.len() ==> (#[trigger] table.claims(
                later,
            ).rows[i]).entity == table.claims(earlier).rows[i].entity,
    decreases later,
{
    let before = table.claims((later - 1) as nat);
    assert(before.has_claimable());
    before.lemma_oldest_claimable_exists();
    lemma_claims_wf(table, (later - 1) as nat);
    lemma_claims_wf(table, earlier);
    assert(table.claims(later) == before.lock(before.oldest_claimable()));
    assert(table.claims(earlier).has_claimable());
    table.claims(earlier).lemma_oldest_claimable_exists();
    if earlier + 1 < later {
        lemma_claims_keep_locks(table, earlier, (later - 1) as nat);
    } else {
        assert(before == table.claims(earlier));
    }
}

/// Opening claims keeps the table well formed.
proof fn lemma_claims_wf(table: TableState, open: nat)
    requires
        table.wf(),
        forall|j: nat| j < open ==> (#[trigger] table.claims(j)).has_claimable(),
    ensures
        table.claims(open).wf(),
    decreases open,
{
    if open > 0 {
        let before = table.claims((open - 1) as nat);
        lemma_claims_wf(table, (open - 1) as nat);
        assert(before.has_claimable());
        before.lemma_oldest_claimable_exists();
    }
}

} // verus!
