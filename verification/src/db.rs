//! The store: every position, the append-only event log and the sync cursor,
//! with the one atomic write that the indexer uses.

use vstd::prelude::*;
use crate::book::{PositionBook, lemma_upserted_all, upserted, upserted_all};
use crate::numeric::Amount;
use crate::position::{Address, EventType, Position, PositionStatus, TxHash};

verus! {

/// One record of the event log.
#[derive(Clone, Copy, Debug, PartialEq, Eq)]
pub struct EventData {
    pub event_type: EventType,
    pub user: Address,
    pub nonce: Option<u64>,
    pub amount: Option<Amount>,
    pub block_number: u64,
    pub tx_hash: TxHash,
    pub timestamp: u64,
}

/// Why the store refused a write.
#[derive(Clone, Copy, Debug, PartialEq, Eq, Structural)]
pub enum StoreError {
    /// The cursor would move back.
    CursorMovesBack,
    /// The batch ends at or before the cursor: it has been applied already.
    BatchAlreadyApplied,
}

/// What the store holds.
pub ghost struct DatabaseState {
    pub positions: Seq<Position>,
    pub events: Seq<EventData>,
    pub cursor: Option<u64>,
}

/// `a` is not after `b`, no cursor being before every cursor.
pub open spec fn cursor_le(a: Option<u64>, b: Option<u64>) -> bool {
    match a {
        None => true,
        Some(x) => b matches Some(y) && x <= y,
    }
}

/// Whether the cursor may be set to `block`: it never moves back.
pub open spec fn cursor_accepts(cursor: Option<u64>, block: u64) -> bool {
    cursor matches Some(c) ==> c <= block
}

/// Whether a batch that ends at `new_cursor` is new: it ends after the
/// cursor.
pub open spec fn batch_accepted(cursor: Option<u64>, new_cursor: u64) -> bool {
    cursor matches Some(c) ==> c < new_cursor
}

/// The store after a batch: the positions stored, the events appended, the
/// cursor moved.
pub open spec fn applied_batch(
    st: DatabaseState,
    positions: Seq<Position>,
    events: Seq<EventData>,
    new_cursor: u64,
) -> DatabaseState {
    DatabaseState {
        positions: upserted_all(st.positions, positions),
        events: st.events + events,
        cursor: Some(new_cursor),
    }
}

/// The store after a batch was handed to it: applied where it is new, and
/// nothing changed where it is not.
pub open spec fn committed(
    st: DatabaseState,
    positions: Seq<Position>,
    events: Seq<EventData>,
    new_cursor: u64,
) -> DatabaseState {
    if batch_accepted(st.cursor, new_cursor) {
        applied_batch(st, positions, events, new_cursor)
    } else {
        st
    }
}

/// The positions of one user, in the order of the sequence.
pub open spec fn positions_of(s: Seq<Position>, user: Address) -> Seq<Position>
    decreases s.len(),
{
    if s.len() == 0 {
        Seq::empty()
    } else if s.last().user == user {
        positions_of(s.drop_last(), user).push(s.last())
    } else {
        positions_of(s.drop_last(), user)
    }
}

/// The positions of the sequence that have the status, each with its key, in
/// the order of the sequence.
pub open spec fn with_status(s: Seq<Position>, status: PositionStatus) -> Seq<
    ((Address, u64), Position),
>
    decreases s.len(),
{
    if s.len() == 0 {
        Seq::empty()
    } else if s.last().status == status {
        with_status(s.drop_last(), status).push((s.last().key(), s.last()))
    } else {
        with_status(s.drop_last(), status)
    }
}

/// The logical store.
pub struct Database {
    positions: PositionBook,
    events: Vec<EventData>,
    cursor: Option<u64>,
}

impl View for Database {
    type V = DatabaseState;

    closed spec fn view(&self) -> DatabaseState {
        DatabaseState { positions: self.positions@, events: self.events@, cursor: self.cursor }
    }
}

impl Database {
    /// The invariant of the type: no two positions share a key.
    pub open spec fn wf(&self) -> bool {
        crate::book::distinct_keys(self@.positions)
    }

    /// The empty store, with no cursor.
    pub fn new() -> (r: Database)
        ensures
            r@.positions == Seq::<Position>::empty(),
            r@.events == Seq::<EventData>::empty(),
            r@.cursor == None::<u64>,
            r.wf(),
    {
        Database { positions: PositionBook::new(), events: Vec::new(), cursor: None }
    }

    /// The positions of the store as a set of their own.
    pub fn position_book(&self) -> (r: &PositionBook)
        ensures
            r@ == self@.positions,
    {
        &self.positions
    }

    /// The event log, oldest first.
    pub fn events(&self) -> (r: &Vec<EventData>)
        ensures
            r@ == self@.events,
    {
        &self.events
    }

    /// The positions that have the given status, each with its key.
    pub fn positions_with_status(&self, status: PositionStatus) -> (r: Vec<
        ((Address, u64), Position),
    >)
        ensures
            r@ == with_status(self@.positions, status),
    {
        let rows = self.positions.rows();
        let n: usize = rows.len();
        let mut out: Vec<((Address, u64), Position)> = Vec::new();
        let mut i: usize = 0;
        while i < n
            invariant
                i <= n,
                n == rows@.len(),
                out@ == with_status(rows@.take(i as int), status),
            decreases n - i,
        {
            let p = rows[i];
            proof {
                assert(rows@.take(i + 1).drop_last() == rows@.take(i as int));
            }
            if p.status == status {
                out.push(((p.user, p.nonce), p));
            }
            i = i + 1;
        }
        proof {
            assert(rows@.take(n as int) == rows@);
        }
        out
    }

    /// The positions of one user.
    pub fn user_positions(&self, user: &Address) -> (r: Vec<Position>)
        ensures
            r@ == positions_of(self@.positions, *user),
    {
        let rows = self.positions.rows();
        let n: usize = rows.len();
        let mut out: Vec<Position> = Vec::new();
        let mut i: usize = 0;
        while i < n
            invariant
                i <= n,
                n == rows@.len(),
                out@ == positions_of(rows@.take(i as int), *user),
            decreases n - i,
        {
            let p = rows[i];
            proof {
                assert(rows@.take(i + 1).drop_last() == rows@.take(i as int));
            }
            if p.user == *user {
                out.push(p);
            }
            i = i + 1;
        }
        proof {
            assert(rows@.take(n as int) == rows@);
        }
        out
    }

    /// All positions, as the active, the unstaking and the withdrawn ones.
    pub fn load_positions(&self) -> (r: (
        Vec<((Address, u64), Position)>,
        Vec<((Address, u64), Position)>,
        Vec<((Address, u64), Position)>,
    ))
        ensures
            r.0@ == with_status(self@.positions, PositionStatus::Active),
            r.1@ == with_status(self@.positions, PositionStatus::Unstaking),
            r.2@ == with_status(self@.positions, PositionStatus::Withdrawn),
    {
        (
            self.positions_with_status(PositionStatus::Active),
            self.positions_with_status(PositionStatus::Unstaking),
            self.positions_with_status(PositionStatus::Withdrawn),
        )
    }

    /// Stores the position under its key, in place of the one that had it.
    /// Storing the same position again changes nothing.
    pub fn save_position(&mut self, position: &Position)
        requires
            old(self).wf(),
        ensures
            final(self)@ == (DatabaseState {
                positions: upserted(old(self)@.positions, *position),
                ..old(self)@
            }),
            final(self).wf(),
    {
        self.positions.upsert(*position);
    }

    /// Appends the event to the log.
    pub fn save_event(&mut self, event: EventData)
        ensures
            final(self)@ == (DatabaseState {
                events: old(self)@.events.push(event),
                ..old(self)@
            }),
    {
        self.events.push(event);
    }

    /// The cursor: the last block whose events have all been applied.
    pub fn get_last_processed_block(&self) -> (r: Option<u64>)
        ensures
            r == self@.cursor,
    {
        self.cursor
    }

    /// Moves the cursor to `block`, unless that would move it back; then
    /// nothing changes.
    pub fn update_last_processed_block(&mut self, block: u64) -> (r: Result<(), StoreError>)
        ensures
            cursor_accepts(old(self)@.cursor, block) ==> r is Ok && final(self)@ == (DatabaseState {
                cursor: Some(block),
                ..old(self)@
            }),
            !cursor_accepts(old(self)@.cursor, block) ==> r == Err::<(), StoreError>(
                StoreError::CursorMovesBack,
            ) && final(self)@ == old(self)@,
            cursor_le(old(self)@.cursor, final(self)@.cursor),
    {
        match self.cursor {
            Some(c) => {
                if block < c {
                    return Err(StoreError::CursorMovesBack);
                }
            },
            None => {},
        }
        self.cursor = Some(block);
        Ok(())
    }

    /// Applies a batch in one step: stores the positions, appends the events
    /// and moves the cursor to `new_cursor`; or, where the batch does not end
    /// after the cursor, refuses it and changes nothing.
    pub fn apply_batch(
        &mut self,
        positions: &Vec<Position>,
        events: &Vec<EventData>,
        new_cursor: u64,
    ) -> (r: Result<(), StoreError>)
        requires
            old(self).wf(),
        ensures
            final(self)@ == committed(old(self)@, positions@, events@, new_cursor),
            batch_accepted(old(self)@.cursor, new_cursor) ==> r is Ok && final(self)@
                == applied_batch(old(self)@, positions@, events@, new_cursor),
            !batch_accepted(old(self)@.cursor, new_cursor) ==> r == Err::<(), StoreError>(
                StoreError::BatchAlreadyApplied,
            ) && final(self)@ == old(self)@,
            cursor_le(old(self)@.cursor, final(self)@.cursor),
            final(self).wf(),
    {
        match self.cursor {
            Some(c) => {
                if new_cursor <= c {
                    return Err(StoreError::BatchAlreadyApplied);
                }
            },
            None => {},
        }
        self.positions.upsert_all(positions);
        let n: usize = events.len();
        let mut i: usize = 0;
        while i < n
            invariant
                i <= n,
                n == events@.len(),
                self.events@ == old(self).events@ + events@.take(i as int),
                self.positions@ == upserted_all(old(self).positions@, positions@),
                self.positions.wf(),
                self.cursor == old(self).cursor,
            decreases n - i,
        {
            self.events.push(events[i]);
            proof {
                assert(events@.take(i + 1) == events@.take(i as int).push(events@[i as int]));
            }
            i = i + 1;
        }
        proof {
            assert(events@.take(n as int) == events@);
        }
        self.cursor = Some(new_cursor);
        Ok(())
    }
}

/// The cursor never moves back: not by setting it, and not by a batch.
pub proof fn lemma_cursor_monotone(st: DatabaseState, positions: Seq<Position>, events: Seq<
    EventData,
>, block: u64)
    ensures
        cursor_accepts(st.cursor, block) ==> cursor_le(st.cursor, Some(block)),
        batch_accepted(st.cursor, block) ==> cursor_le(
            st.cursor,
            applied_batch(st, positions, events, block).cursor,
        ),
{
}

/// A batch that has been applied is refused when it comes again, so that a
/// retry leaves the positions as they are and each event recorded once.
pub proof fn lemma_batch_retry_is_refused(
    st: DatabaseState,
    positions: Seq<Position>,
    events: Seq<EventData>,
    new_cursor: u64,
)
    ensures
        !batch_accepted(applied_batch(st, positions, events, new_cursor).cursor, new_cursor),
{
}

/// Handing the same batch to the store twice is as good as once: the
/// second time it is refused, the positions are what they were and every
/// event is recorded once.
pub proof fn lemma_commit_is_idempotent(
    st: DatabaseState,
    positions: Seq<Position>,
    events: Seq<EventData>,
    new_cursor: u64,
)
    ensures
        committed(committed(st, positions, events, new_cursor), positions, events, new_cursor)
            == committed(st, positions, events, new_cursor),
{
}

/// A batch keeps the keys of the store distinct and loses no position.
pub proof fn lemma_batch_keeps_positions(
    st: DatabaseState,
    positions: Seq<Position>,
    events: Seq<EventData>,
    new_cursor: u64,
)
    requires
        crate::book::distinct_keys(st.positions),
    ensures
        crate::book::distinct_keys(applied_batch(st, positions, events, new_cursor).positions),
        forall|k: (Address, u64)|
            crate::book::has_key(st.positions, k) ==> crate::book::has_key(
                applied_batch(st, positions, events, new_cursor).positions,
                k,
            ),
{
    lemma_upserted_all(st.positions, positions);
}

} // verus!
