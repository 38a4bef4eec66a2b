//! The indexer's view of the positions: it takes decoded logs in chain order,
//! runs each through the state machine and collects what the store is to
//! persist.

use vstd::prelude::*;
use crate::book::{PositionBook, distinct_keys, has_key, lemma_upserted, lookup, upserted, upserted_all};
use crate::db::{Database, EventData};
use crate::leaderboard::{LeaderboardEntry, has_user, is_leaderboard, is_ranking, leaderboard, ranked_users, ranking_has};
use crate::points::{PointsBreakdown, count_positions, count_with_status, position_points, stake_seconds, total_points_of, total_stake_seconds, user_amount, user_deposits_summary, user_points, user_stake_seconds};
use crate::numeric::Wide;
use crate::position::{Address, LogEntry, Position, PositionStatus, Rejection, transition, transition_spec};

verus! {

/// An event that the state machine refused, and why. It is recorded all the
/// same: the reason is the warning that goes with it.
#[derive(Clone, Copy, Debug, PartialEq, Eq)]
pub struct RejectedEvent {
    pub event: EventData,
    pub reason: Rejection,
}

/// What one log came to.
#[derive(Clone, Copy, Debug, PartialEq, Eq)]
pub struct LogOutcome {
    /// The record for the event log.
    pub record: EventData,
    /// The position's new state, where the event was accepted.
    pub position: Option<Position>,
    /// The reason, where the event was refused.
    pub rejection: Option<Rejection>,
}

/// What a range of logs came to: the positions to store, in the order in
/// which they changed, the records to append, and the refusals.
pub struct Batch {
    pub positions: Vec<Position>,
    pub events: Vec<EventData>,
    pub rejections: Vec<RejectedEvent>,
}

/// What a range of logs comes to, as sequences.
pub ghost struct BatchState {
    /// The positions after the range.
    pub after: Seq<Position>,
    pub positions: Seq<Position>,
    pub events: Seq<EventData>,
    pub rejections: Seq<RejectedEvent>,
}

/// How many lines the summary shows.
pub const SUMMARY_ROWS: usize = 10;

/// A user's active, unstaking and withdrawn amounts, in wei.
#[derive(Clone, Copy, Debug, PartialEq, Eq)]
pub struct Deposits {
    pub active: Wide,
    pub unstaking: Wide,
    pub withdrawn: Wide,
}

/// The summary of the points at one time: the first users with their
/// deposits, and the totals over all positions.
#[derive(Debug)]
pub struct PointsSummary {
    pub current_block: u64,
    /// The first ten users of the leaderboard.
    pub entries: Vec<LeaderboardEntry>,
    /// The deposits of each of these users, in the same order.
    pub deposits: Vec<Deposits>,
    /// The points of all positions together, in units.
    pub total_points: PointsBreakdown,
    pub active_positions: usize,
    pub unstaking_positions: usize,
    pub withdrawn_positions: usize,
    pub total_events_processed: u64,
}

/// What the tracker holds.
pub ghost struct TrackerState {
    pub positions: Seq<Position>,
    pub total_events_processed: u64,
    pub current_block: u64,
}

/// The record that the event log keeps of a log.
pub open spec fn event_record(log: LogEntry) -> EventData {
    EventData {
        event_type: log.event.spec_event_type(),
        user: log.event.spec_user(),
        nonce: Some(log.event.spec_nonce()),
        amount: log.event.spec_amount(),
        block_number: log.block_number,
        tx_hash: log.tx_hash,
        timestamp: log.event.spec_timestamp(),
    }
}

/// What the state machine says to a log, given the positions so far.
pub open spec fn log_verdict(s: Seq<Position>, log: LogEntry) -> Result<Position, Rejection> {
    transition_spec(lookup(s, log.event.key()), log)
}

/// The positions after a log: the new state stored where the event was
/// accepted, nothing changed where it was refused.
pub open spec fn positions_after_log(s: Seq<Position>, log: LogEntry) -> Seq<Position> {
    match log_verdict(s, log) {
        Ok(next) => upserted(s, next),
        Err(_) => s,
    }
}

/// Whether a log is still to be applied: it lies after the cursor.
pub open spec fn log_is_new(cursor: Option<u64>, log: LogEntry) -> bool {
    cursor matches Some(c) ==> c < log.block_number
}

/// What a range of logs comes to, taken in order from the positions `s`. A
/// log at or before the cursor has been applied already and is passed over.
pub open spec fn run_batch(s: Seq<Position>, logs: Seq<LogEntry>, cursor: Option<u64>) -> BatchState
    decreases logs.len(),
{
    if logs.len() == 0 {
        BatchState {
            after: s,
            positions: Seq::empty(),
            events: Seq::empty(),
            rejections: Seq::empty(),
        }
    } else {
        let before = run_batch(s, logs.drop_last(), cursor);
        let log = logs.last();
        if !log_is_new(cursor, log) {
            before
        } else {
            match log_verdict(before.after, log) {
                Ok(next) => BatchState {
                    after: upserted(before.after, next),
                    positions: before.positions.push(next),
                    events: before.events.push(event_record(log)),
                    rejections: before.rejections,
                },
                Err(reason) => BatchState {
                    after: before.after,
                    positions: before.positions,
                    events: before.events.push(event_record(log)),
                    rejections: before.rejections.push(
                        RejectedEvent { event: event_record(log), reason },
                    ),
                },
            }
        }
    }
}

/// Whether the record's key has a position, or the record is among the
/// refusals.
pub open spec fn event_accounted_for(
    e: EventData,
    positions: Seq<Position>,
    rejections: Seq<RejectedEvent>,
) -> bool {
    ||| (e.nonce matches Some(n) && has_key(positions, (e.user, n)))
    ||| exists|k: int| 0 <= k < rejections.len() && (#[trigger] rejections[k]).event == e
}

/// The next count of events, which stops at the largest `u64`.
pub open spec fn next_count(n: u64) -> u64 {
    if n < u64::MAX {
        (n + 1) as u64
    } else {
        n
    }
}

/// The positions, the number of events seen and the block of the last one.
pub struct PointsTracker {
    positions: PositionBook,
    total_events_processed: u64,
    current_block: u64,
}

impl View for PointsTracker {
    type V = TrackerState;

    closed spec fn view(&self) -> TrackerState {
        TrackerState {
            positions: self.positions@,
            total_events_processed: self.total_events_processed,
            current_block: self.current_block,
        }
    }
}

impl PointsTracker {
    /// The invariant of the type: no two positions share a key.
    pub open spec fn wf(&self) -> bool {
        distinct_keys(self@.positions)
    }

    /// A tracker with the positions of the store, as after a restart.
    pub fn with_database_instance(db: &Database) -> (r: PointsTracker)
        ensures
            r@.positions == db@.positions,
            r@.total_events_processed == 0,
            r@.current_block == 0,
            r.wf() == db.wf(),
    {
        PointsTracker {
            positions: db.position_book().duplicate(),
            total_events_processed: 0,
            current_block: 0,
        }
    }

    /// The positions.
    pub fn positions(&self) -> (r: &Vec<Position>)
        ensures
            r@ == self@.positions,
    {
        self.positions.rows()
    }

    /// The number of events seen.
    pub fn total_events_processed(&self) -> (r: u64)
        ensures
            r == self@.total_events_processed,
    {
        self.total_events_processed
    }

    /// The block of the last event seen, or the head last heard of.
    pub fn current_block(&self) -> (r: u64)
        ensures
            r == self@.current_block,
    {
        self.current_block
    }

    /// Notes the block that the chain has reached.
    pub fn set_current_block(&mut self, block: u64)
        ensures
            final(self)@ == (TrackerState { current_block: block, ..old(self)@ }),
    {
        self.current_block = block;
    }

    /// The position stored under the key, if there is one.
    pub fn get_position(&self, key: &(Address, u64)) -> (r: Option<Position>)
        requires
            self.wf(),
        ensures
            r == lookup(self@.positions, *key),
    {
        self.positions.get(&key.0, key.1)
    }

    /// Stores a new active position under the key, with the amount, the
    /// deposit timestamp and the block of `position`, unless the key has a
    /// position already; then nothing changes.
    pub fn add_active_position(&mut self, key: (Address, u64), position: Position) -> (r: Option<
        Position,
    >)
        requires
            old(self).wf(),
        ensures
            final(self).wf(),
            r == (if has_key(old(self)@.positions, key) {
                None
            } else {
                Some(
                    Position {
                        user: key.0,
                        nonce: key.1,
                        status: PositionStatus::Active,
                        withdrawal_initiated_timestamp: None,
                        ..position
                    },
                )
            }),
            final(self)@ == (TrackerState {
                positions: match r {
                    Some(p) => upserted(old(self)@.positions, p),
                    None => old(self)@.positions,
                },
                ..old(self)@
            }),
    {
        match self.positions.get(&key.0, key.1) {
            Some(_) => None,
            None => {
                let p = Position {
                    user: key.0,
                    nonce: key.1,
                    amount: position.amount,
                    deposit_timestamp: position.deposit_timestamp,
                    status: PositionStatus::Active,
                    withdrawal_initiated_timestamp: None,
                    block_number: position.block_number,
                };
                self.positions.upsert(p);
                Some(p)
            },
        }
    }

    /// Moves the active position under the key to unstaking, from
    /// `timestamp` on. Any other position, or none, is left as it is.
    pub fn move_to_unstaking(&mut self, key: (Address, u64), timestamp: u64) -> (r: Option<
        Position,
    >)
        requires
            old(self).wf(),
        ensures
            final(self).wf(),
            r == (match lookup(old(self)@.positions, key) {
                Some(p) => if p.status == PositionStatus::Active {
                    Some(
                        Position {
                            status: PositionStatus::Unstaking,
                            withdrawal_initiated_timestamp: Some(timestamp),
                            ..p
                        },
                    )
                } else {
                    None
                },
                None => None,
            }),
            final(self)@ == (TrackerState {
                positions: match r {
                    Some(p) => upserted(old(self)@.positions, p),
                    None => old(self)@.positions,
                },
                ..old(self)@
            }),
    {
        match self.positions.get(&key.0, key.1) {
            Some(p) => match p.status {
                PositionStatus::Active => {
                    let next = Position {
                        user: p.user,
                        nonce: p.nonce,
                        amount: p.amount,
                        deposit_timestamp: p.deposit_timestamp,
                        status: PositionStatus::Unstaking,
                        withdrawal_initiated_timestamp: Some(timestamp),
                        block_number: p.block_number,
                    };
                    self.positions.upsert(next);
                    Some(next)
                },
                _ => None,
            },
            None => None,
        }
    }

    /// Moves the unstaking position under the key to withdrawn. Any other
    /// position, or none, is left as it is.
    pub fn move_to_withdrawn(&mut self, key: (Address, u64)) -> (r: Option<Position>)
        requires
            old(self).wf(),
        ensures
            final(self).wf(),
            r == (match lookup(old(self)@.positions, key) {
                Some(p) => if p.status == PositionStatus::Unstaking {
                    Some(Position { status: PositionStatus::Withdrawn, ..p })
                } else {
                    None
                },
                None => None,
            }),
            final(self)@ == (TrackerState {
                positions: match r {
                    Some(p) => upserted(old(self)@.positions, p),
                    None => old(self)@.positions,
                },
                ..old(self)@
            }),
    {
        match self.positions.get(&key.0, key.1) {
            Some(p) => match p.status {
                PositionStatus::Unstaking => {
                    let next = Position {
                        user: p.user,
                        nonce: p.nonce,
                        amount: p.amount,
                        deposit_timestamp: p.deposit_timestamp,
                        status: PositionStatus::Withdrawn,
                        withdrawal_initiated_timestamp: p.withdrawal_initiated_timestamp,
                        block_number: p.block_number,
                    };
                    self.positions.upsert(next);
                    Some(next)
                },
                _ => None,
            },
            None => None,
        }
    }

    /// Moves the unstaking position under the key back to active, earning
    /// anew from `new_deposit_timestamp`. Any other position, or none, is
    /// left as it is.
    pub fn move_to_active(&mut self, key: (Address, u64), new_deposit_timestamp: u64) -> (r: Option<
        Position,
    >)
        requires
            old(self).wf(),
        ensures
            final(self).wf(),
            r == (match lookup(old(self)@.positions, key) {
                Some(p) => if p.status == PositionStatus::Unstaking {
                    Some(
                        Position {
                            status: PositionStatus::Active,
                            withdrawal_initiated_timestamp: None,
                            deposit_timestamp: new_deposit_timestamp,
                            ..p
                        },
                    )
                } else {
                    None
                },
                None => None,
            }),
            final(self)@ == (TrackerState {
                positions: match r {
                    Some(p) => upserted(old(self)@.positions, p),
                    None => old(self)@.positions,
                },
                ..old(self)@
            }),
    {
        match self.positions.get(&key.0, key.1) {
            Some(p) => match p.status {
                PositionStatus::Unstaking => {
                    let next = Position {
                        user: p.user,
                        nonce: p.nonce,
                        amount: p.amount,
                        deposit_timestamp: new_deposit_timestamp,
                        status: PositionStatus::Active,
                        withdrawal_initiated_timestamp: None,
                        block_number: p.block_number,
                    };
                    self.positions.upsert(next);
                    Some(next)
                },
                _ => None,
            },
            None => None,
        }
    }

    /// The points of one position at the reference time `now`.
    pub fn calculate_position_points(&self, position: &Position, now: u64) -> (r: PointsBreakdown)
        ensures
            r.formation_points@ == stake_seconds(*position, now),
            r.sage_points@ == 2 * stake_seconds(*position, now),
            r.well_formed(),
    {
        position_points(position, now)
    }

    /// The points of one user at the reference time `now`.
    pub fn calculate_user_points(&self, user: &Address, now: u64) -> (r: PointsBreakdown)
        ensures
            r.formation_points@ == user_stake_seconds(self@.positions, *user, now),
            r.sage_points@ == 2 * user_stake_seconds(self@.positions, *user, now),
            r.well_formed(),
    {
        user_points(self.positions.rows(), user, now)
    }

    /// The user's active, unstaking and withdrawn amounts, in wei.
    pub fn get_user_deposits_summary(&self, user: &Address) -> (r: (Wide, Wide, Wide))
        ensures
            r.0@ == user_amount(self@.positions, *user, PositionStatus::Active),
            r.1@ == user_amount(self@.positions, *user, PositionStatus::Unstaking),
            r.2@ == user_amount(self@.positions, *user, PositionStatus::Withdrawn),
    {
        user_deposits_summary(self.positions.rows(), user)
    }

    /// Every user that has a position, with the user's points at `now`,
    /// by total points, highest first, and between equal totals by
    /// address ascending.
    pub fn get_leaderboard(&self, now: u64) -> (r: Vec<(Address, PointsBreakdown)>)
        ensures
            is_ranking(self@.positions, now, r@),
            forall|user: Address| has_user(self@.positions, user) ==> ranking_has(r@, user),
    {
        ranked_users(self.positions.rows(), now)
    }

    /// The summary of the points at the reference time `now`: the first
    /// ten users of the leaderboard with their deposits, the points of all
    /// positions together, and how many positions have which status.
    pub fn points_summary(&self, now: u64) -> (r: PointsSummary)
        ensures
            r.current_block == self@.current_block,
            r.total_events_processed == self@.total_events_processed,
            is_leaderboard(self@.positions, now, 10, r.entries@),
            r.deposits@.len() == r.entries@.len(),
            forall|k: int|
                0 <= k < r.entries@.len() ==> {
                    &&& (#[trigger] r.deposits@[k]).active@ == user_amount(
                        self@.positions,
                        r.entries@[k].address,
                        PositionStatus::Active,
                    )
                    &&& r.deposits@[k].unstaking@ == user_amount(
                        self@.positions,
                        r.entries@[k].address,
                        PositionStatus::Unstaking,
                    )
                    &&& r.deposits@[k].withdrawn@ == user_amount(
                        self@.positions,
                        r.entries@[k].address,
                        PositionStatus::Withdrawn,
                    )
                },
            r.total_points.formation_points@ == total_stake_seconds(self@.positions, now),
            r.total_points.sage_points@ == 2 * total_stake_seconds(self@.positions, now),
            r.active_positions == count_with_status(self@.positions, PositionStatus::Active),
            r.unstaking_positions == count_with_status(self@.positions, PositionStatus::Unstaking),
            r.withdrawn_positions == count_with_status(self@.positions, PositionStatus::Withdrawn),
    {
        let rows = self.positions.rows();
        let entries = leaderboard(rows, SUMMARY_ROWS, now);
        let n: usize = entries.len();
        let mut deposits: Vec<Deposits> = Vec::new();
        let mut k: usize = 0;
        while k < n
            invariant
                k <= n,
                n == entries@.len(),
                rows@ == self@.positions,
                deposits@.len() == k,
                forall|j: int|
                    0 <= j < k ==> {
                        &&& (#[trigger] deposits@[j]).active@ == user_amount(
                            rows@,
                            entries@[j].address,
                            PositionStatus::Active,
                        )
                        &&& deposits@[j].unstaking@ == user_amount(
                            rows@,
                            entries@[j].address,
                            PositionStatus::Unstaking,
                        )
                        &&& deposits@[j].withdrawn@ == user_amount(
                            rows@,
                            entries@[j].address,
                            PositionStatus::Withdrawn,
                        )
                    },
            decreases n - k,
        {
            let (active, unstaking, withdrawn) = user_deposits_summary(rows, &entries[k].address);
            deposits.push(Deposits { active, unstaking, withdrawn });
            k = k + 1;
        }
        PointsSummary {
            current_block: self.current_block,
            entries,
            deposits,
            total_points: total_points_of(rows, now),
            active_positions: count_positions(rows, PositionStatus::Active),
            unstaking_positions: count_positions(rows, PositionStatus::Unstaking),
            withdrawn_positions: count_positions(rows, PositionStatus::Withdrawn),
            total_events_processed: self.total_events_processed,
        }
    }

    /// Takes one log: counts it, notes its block, runs it through the state
    /// machine and stores the position's new state where the event is
    /// accepted. The record for the event log is made either way.
    pub fn handle_log(&mut self, log: &LogEntry) -> (r: LogOutcome)
        requires
            old(self).wf(),
        ensures
            final(self).wf(),
            r.record == event_record(*log),
            match log_verdict(old(self)@.positions, *log) {
                Ok(next) => r.position == Some(next) && r.rejection is None,
                Err(reason) => r.position is None && r.rejection == Some(reason),
            },
            final(self)@ == (TrackerState {
                positions: positions_after_log(old(self)@.positions, *log),
                total_events_processed: next_count(old(self)@.total_events_processed),
                current_block: log.block_number,
            }),
            r.rejection is None ==> has_key(final(self)@.positions, log.event.key()),
            forall|k: (Address, u64)|
                has_key(old(self)@.positions, k) ==> has_key(final(self)@.positions, k),
    {
        if self.total_events_processed < u64::MAX {
            self.total_events_processed = self.total_events_processed + 1;
        }
        self.current_block = log.block_number;
        let user = log.event.user();
        let nonce = log.event.nonce();
        let record = EventData {
            event_type: log.event.event_type(),
            user,
            nonce: Some(nonce),
            amount: log.event.amount(),
            block_number: log.block_number,
            tx_hash: log.tx_hash,
            timestamp: log.event.timestamp(),
        };
        let current = self.positions.get(&user, nonce);
        match transition(current, log) {
            Ok(next) => {
                proof {
                    lemma_upserted(self.positions@, next);
                    crate::position::lemma_transition_well_formed(None, *log);
                    if current is Some {
                        crate::position::lemma_transition_keeps_identity(current.unwrap(), *log);
                        let i = crate::book::index_of(self.positions@, log.event.key());
                        assert(self.positions@[i].key() == log.event.key());
                    }
                    assert(next.key() == log.event.key());
                    assert(has_key(upserted(self.positions@, next), next.key()));
                }
                self.positions.upsert(next);
                LogOutcome { record, position: Some(next), rejection: None }
            },
            Err(reason) => LogOutcome { record, position: None, rejection: Some(reason) },
        }
    }

    /// Takes a range of logs in chain order and collects what the store is
    /// to persist for it. A log at or before `cursor` has been applied
    /// before and is passed over. Every record collected either has a
    /// position under its key or stands among the refusals.
    pub fn process_logs(&mut self, logs: &Vec<LogEntry>, cursor: Option<u64>) -> (r: Batch)
        requires
            old(self).wf(),
        ensures
            final(self).wf(),
            final(self)@.positions == run_batch(old(self)@.positions, logs@, cursor).after,
            r.positions@ == run_batch(old(self)@.positions, logs@, cursor).positions,
            r.events@ == run_batch(old(self)@.positions, logs@, cursor).events,
            r.rejections@ == run_batch(old(self)@.positions, logs@, cursor).rejections,
            final(self)@.positions == upserted_all(old(self)@.positions, r.positions@),
            forall|j: int|
                0 <= j < r.events@.len() ==> event_accounted_for(
                    #[trigger] r.events@[j],
                    final(self)@.positions,
                    r.rejections@,
                ),
            forall|k: (Address, u64)|
                has_key(old(self)@.positions, k) ==> has_key(final(self)@.positions, k),
    {
        let mut batch = Batch { positions: Vec::new(), events: Vec::new(), rejections: Vec::new() };
        let n: usize = logs.len();
        let mut i: usize = 0;
        while i < n
            invariant
                i <= n,
                n == logs@.len(),
                self.wf(),
                self@.positions == run_batch(old(self)@.positions, logs@.take(i as int), cursor).after,
                batch.positions@ == run_batch(
                    old(self)@.positions,
                    logs@.take(i as int),
                    cursor,
                ).positions,
                batch.events@ == run_batch(old(self)@.positions, logs@.take(i as int), cursor).events,
                batch.rejections@ == run_batch(
                    old(self)@.positions,
                    logs@.take(i as int),
                    cursor,
                ).rejections,
            decreases n - i,
        {
            let log = &logs[i];
            proof {
                assert(logs@.take(i + 1).drop_last() == logs@.take(i as int));
            }
            let is_new: bool = match cursor {
                Some(c) => c < log.block_number,
                None => true,
            };
            if is_new {
                let outcome = self.handle_log(log);
                batch.events.push(outcome.record);
                match outcome.position {
                    Some(next) => {
                        batch.positions.push(next);
                    },
                    None => {},
                }
                match outcome.rejection {
                    Some(reason) => {
                        batch.rejections.push(RejectedEvent { event: outcome.record, reason });
                    },
                    None => {},
                }
            }
            i = i + 1;
        }
        proof {
            assert(logs@.take(n as int) == logs@);
            lemma_batch_rebuilds_positions(old(self)@.positions, logs@, cursor);
            lemma_batch_events_accounted_for(old(self)@.positions, logs@, cursor);
            crate::book::lemma_upserted_all(old(self)@.positions, batch.positions@);
        }
        batch
    }
}

/// The positions collected for a range of logs, stored one by one, give the
/// positions after the range: a store that applies the batch holds what the
/// tracker holds, and a tracker made from that store after a restart starts
/// from the same positions.
pub proof fn lemma_batch_rebuilds_positions(s: Seq<Position>, logs: Seq<LogEntry>, cursor: Option<
    u64,
>)
    ensures
        upserted_all(s, run_batch(s, logs, cursor).positions) == run_batch(s, logs, cursor).after,
    decreases logs.len(),
{
    if logs.len() > 0 {
        lemma_batch_rebuilds_positions(s, logs.drop_last(), cursor);
        let before = run_batch(s, logs.drop_last(), cursor);
        let log = logs.last();
        if log_is_new(cursor, log) {
            match log_verdict(before.after, log) {
                Ok(next) => {
                    assert(before.positions.push(next).drop_last() == before.positions);
                },
                Err(_) => {},
            }
        }
    }
}

/// No log at or before the cursor is applied again: a range that lies
/// wholly at or before the cursor changes no position and yields no record.
pub proof fn lemma_old_logs_are_passed_over(s: Seq<Position>, logs: Seq<LogEntry>, cursor: u64)
    requires
        forall|i: int| 0 <= i < logs.len() ==> (#[trigger] logs[i]).block_number <= cursor,
    ensures
        run_batch(s, logs, Some(cursor)).after == s,
        run_batch(s, logs, Some(cursor)).positions.len() == 0,
        run_batch(s, logs, Some(cursor)).events.len() == 0,
        run_batch(s, logs, Some(cursor)).rejections.len() == 0,
    decreases logs.len(),
{
    if logs.len() > 0 {
        assert(logs.last() == logs[logs.len() - 1]);
        assert forall|i: int| 0 <= i < logs.drop_last().len() implies (
        #[trigger] logs.drop_last()[i]).block_number <= cursor by {
            assert(logs.drop_last()[i] == logs[i]);
        }
        lemma_old_logs_are_passed_over(s, logs.drop_last(), cursor);
    }
}

/// Whether every position of the sequence is well formed.
pub open spec fn all_well_formed(s: Seq<Position>) -> bool {
    forall|i: int| 0 <= i < s.len() ==> (#[trigger] s[i]).well_formed()
}

/// Logs keep the positions well formed and their keys distinct.
pub proof fn lemma_batch_keeps_invariants(s: Seq<Position>, logs: Seq<LogEntry>, cursor: Option<u64>)
    requires
        distinct_keys(s),
        all_well_formed(s),
    ensures
        distinct_keys(run_batch(s, logs, cursor).after),
        all_well_formed(run_batch(s, logs, cursor).after),
    decreases logs.len(),
{
    if logs.len() > 0 {
        lemma_batch_keeps_invariants(s, logs.drop_last(), cursor);
        let before = run_batch(s, logs.drop_last(), cursor).after;
        let log = logs.last();
        if log_is_new(cursor, log) {
            match log_verdict(before, log) {
                Ok(next) => {
                    lemma_upserted(before, next);
                    let current = lookup(before, log.event.key());
                    if current is Some {
                        let i = crate::book::index_of(before, log.event.key());
                        assert(before[i].well_formed());
                    }
                    crate::position::lemma_transition_well_formed(current, log);
                    let after = upserted(before, next);
                    assert forall|i: int| 0 <= i < after.len() implies (
                    #[trigger] after[i]).well_formed() by {
                        if i < before.len() && after[i] != next {
                            assert(after[i] == before[i]);
                        }
                    }
                },
                Err(_) => {},
            }
        }
    }
}

/// Whatever logs come, a position that is there stays there, under its key,
/// with the amount it was created with and the block that created it.
pub proof fn lemma_amount_never_changes(
    s: Seq<Position>,
    logs: Seq<LogEntry>,
    cursor: Option<u64>,
    key: (Address, u64),
)
    requires
        distinct_keys(s),
        has_key(s, key),
    ensures
        distinct_keys(run_batch(s, logs, cursor).after),
        lookup(run_batch(s, logs, cursor).after, key) matches Some(p) && p.amount == lookup(
            s,
            key,
        ).unwrap().amount && p.block_number == lookup(s, key).unwrap().block_number,
    decreases logs.len(),
{
    if logs.len() > 0 {
        lemma_amount_never_changes(s, logs.drop_last(), cursor, key);
        let before = run_batch(s, logs.drop_last(), cursor).after;
        let log = logs.last();
        if log_is_new(cursor, log) {
            match log_verdict(before, log) {
                Ok(next) => {
                    lemma_upserted(before, next);
                    let current = lookup(before, log.event.key());
                    if current is Some {
                        let i = crate::book::index_of(before, log.event.key());
                        assert(before[i].key() == log.event.key());
                        crate::position::lemma_transition_keeps_identity(current.unwrap(), log);
                    } else {
                        crate::position::lemma_transition_well_formed(None, log);
                    }
                    if next.key() == key {
                        assert(current is Some);
                    }
                },
                Err(_) => {},
            }
        }
    }
}

/// A store that holds the tracker's positions and commits the batch that
/// the tracker collected holds the tracker's positions again: whoever
/// starts anew from that store starts from the same snapshot.
pub proof fn lemma_store_follows_tracker(
    store: crate::db::DatabaseState,
    logs: Seq<LogEntry>,
    new_cursor: u64,
)
    ensures
        crate::db::applied_batch(
            store,
            run_batch(store.positions, logs, store.cursor).positions,
            run_batch(store.positions, logs, store.cursor).events,
            new_cursor,
        ).positions == run_batch(store.positions, logs, store.cursor).after,
{
    lemma_batch_rebuilds_positions(store.positions, logs, store.cursor);
}

/// Every record that a range of logs yields has a position under its key
/// after the range, or stands among the refusals of the range.
pub proof fn lemma_batch_events_accounted_for(
    s: Seq<Position>,
    logs: Seq<LogEntry>,
    cursor: Option<u64>,
)
    requires
        distinct_keys(s),
    ensures
        distinct_keys(run_batch(s, logs, cursor).after),
        forall|j: int|
            0 <= j < run_batch(s, logs, cursor).events.len() ==> event_accounted_for(
                #[trigger] run_batch(s, logs, cursor).events[j],
                run_batch(s, logs, cursor).after,
                run_batch(s, logs, cursor).rejections,
            ),
    decreases logs.len(),
{
    if logs.len() > 0 {
        lemma_batch_events_accounted_for(s, logs.drop_last(), cursor);
        let before = run_batch(s, logs.drop_last(), cursor);
        let now = run_batch(s, logs, cursor);
        let log = logs.last();
        if log_is_new(cursor, log) {
            let verdict = log_verdict(before.after, log);
            if verdict is Ok {
                let next = verdict.unwrap();
                lemma_upserted(before.after, next);
                let current = lookup(before.after, log.event.key());
                if current is Some {
                    let i = crate::book::index_of(before.after, log.event.key());
                    assert(before.after[i].key() == log.event.key());
                    crate::position::lemma_transition_keeps_identity(current.unwrap(), log);
                } else {
                    crate::position::lemma_transition_well_formed(None, log);
                }
                assert(next.key() == log.event.key());
                assert(has_key(now.after, log.event.key()));
            }
            assert forall|j: int| 0 <= j < now.events.len() implies event_accounted_for(
                #[trigger] now.events[j],
                now.after,
                now.rejections,
            ) by {
                let e = now.events[j];
                if j < before.events.len() {
                    assert(e == before.events[j]);
                    assert(event_accounted_for(e, before.after, before.rejections));
                    if e.nonce matches Some(n) && has_key(before.after, (e.user, n)) {
                        assert(has_key(now.after, (e.user, e.nonce.unwrap())));
                    } else {
                        let k = choose|k: int|
                            0 <= k < before.rejections.len() && (
                            #[trigger] before.rejections[k]).event == e;
                        assert(now.rejections[k].event == e);
                    }
                } else {
                    assert(e == event_record(log));
                    if verdict is Err {
                        let k = before.rejections.len() as int;
                        assert(now.rejections[k].event == e);
                    }
                }
            }
        }
    }
}

/// Whether every record of the store has a position under its key or
/// stands among the warnings given so far.
pub open spec fn store_accounted_for(
    store: crate::db::DatabaseState,
    warnings: Seq<RejectedEvent>,
) -> bool {
    forall|j: int|
        0 <= j < store.events.len() ==> event_accounted_for(
            #[trigger] store.events[j],
            store.positions,
            warnings,
        )
}

/// Over the life of the store, every record has a position under its key or
/// a warning: where that holds of a store, it holds again once the store
/// has committed what the tracker collected for a range of logs, the
/// refusals of the range being added to the warnings.
pub proof fn lemma_store_stays_accounted_for(
    store: crate::db::DatabaseState,
    warnings: Seq<RejectedEvent>,
    logs: Seq<LogEntry>,
    new_cursor: u64,
)
    requires
        distinct_keys(store.positions),
        store_accounted_for(store, warnings),
    ensures
        store_accounted_for(
            crate::db::applied_batch(
                store,
                run_batch(store.positions, logs, store.cursor).positions,
                run_batch(store.positions, logs, store.cursor).events,
                new_cursor,
            ),
            warnings + run_batch(store.positions, logs, store.cursor).rejections,
        ),
{
    let batch = run_batch(store.positions, logs, store.cursor);
    let after = crate::db::applied_batch(store, batch.positions, batch.events, new_cursor);
    let all = warnings + batch.rejections;
    lemma_store_follows_tracker(store, logs, new_cursor);
    lemma_batch_events_accounted_for(store.positions, logs, store.cursor);
    crate::book::lemma_upserted_all(store.positions, batch.positions);
    assert(after.positions == batch.after);
    assert forall|j: int| 0 <= j < after.events.len() implies event_accounted_for(
        #[trigger] after.events[j],
        after.positions,
        all,
    ) by {
        let e = after.events[j];
        if j < store.events.len() {
            assert(e == store.events[j]);
            assert(event_accounted_for(e, store.positions, warnings));
            if e.nonce matches Some(n) && has_key(store.positions, (e.user, n)) {
                assert(has_key(after.positions, (e.user, e.nonce.unwrap())));
            } else {
                let k = choose|k: int|
                    0 <= k < warnings.len() && (#[trigger] warnings[k]).event == e;
                assert(all[k].event == e);
            }
        } else {
            let i = j - store.events.len();
            assert(e == batch.events[i]);
            assert(event_accounted_for(e, batch.after, batch.rejections));
            if e.nonce matches Some(n) && has_key(batch.after, (e.user, n)) {
            } else {
                let k = choose|k: int|
                    0 <= k < batch.rejections.len() && (#[trigger] batch.rejections[k]).event == e;
                assert(all[warnings.len() + k].event == e);
            }
        }
    }
}

} // verus!
