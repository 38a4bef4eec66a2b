//! The resumable sync: which range of blocks to ask for next, when to try
//! again, when to give a range up, and where the cursor stands. The plan
//! decides; whoever runs it fetches, commits and reports back.

use vstd::prelude::*;
use vstd::string::*;
use crate::db::cursor_le;

verus! {

/// The smallest span of blocks that may be configured for one query.
pub const MIN_BLOCK_RANGE: u64 = 100;

/// The largest span of blocks that may be configured for one query.
pub const MAX_BLOCK_RANGE: u64 = 10_000;

/// The span of blocks to use where nothing else is configured.
pub const DEFAULT_BLOCK_RANGE: u64 = 500;

/// How often a rate-limited query is tried again before its range is given
/// up.
pub const RATE_LIMIT_RETRIES: u8 = 3;

/// Milliseconds to wait before a query is tried again.
pub const RETRY_DELAY_MS: u64 = 2_000;

/// Milliseconds to wait between two ranges of the backfill.
pub const RANGE_DELAY_MS: u64 = 100;

/// Milliseconds between two looks at the head of the chain.
pub const POLL_INTERVAL_MS: u64 = 2_000;

/// Seconds between two summaries of the points.
pub const SUMMARY_INTERVAL_SECS: u64 = 60;

/// Whether the sync is still catching up with history, follows the head, or
/// has been told to stop.
#[derive(Clone, Copy, Debug, PartialEq, Eq, Structural)]
pub enum SyncMode {
    Backfill,
    Tail,
    Stopped,
}

/// Why a query for logs failed.
#[derive(Clone, Copy, Debug, PartialEq, Eq, Structural)]
pub enum FetchError {
    /// The provider limits the rate of requests.
    RateLimited,
    /// The deadline of the request passed.
    TimedOut,
    /// Anything else.
    Other,
}

/// What happened to the action that the plan asked for last.
#[derive(Clone, Copy, Debug, PartialEq, Eq, Structural)]
pub enum SyncEvent {
    /// The head of the chain is at this block.
    HeadFetched(u64),
    /// The head could not be had.
    HeadFailed,
    /// The logs of the range asked for were fetched, applied and committed
    /// together with the cursor.
    BatchCommitted,
    /// The logs of the range asked for could not be had.
    FetchFailed(FetchError),
    /// The logs were fetched, but the commit failed; nothing was persisted.
    CommitFailed,
    /// The service is to stop. It is reported between two actions, when
    /// what the last action came to has been reported.
    ShutdownRequested,
}

/// What to do next, after waiting `after_ms` milliseconds.
#[derive(Clone, Copy, Debug, PartialEq, Eq, Structural)]
pub enum SyncAction {
    /// Ask for the head of the chain.
    FetchHead { after_ms: u64 },
    /// Ask for the logs of the blocks `from_block..=to_block`, apply them
    /// and commit them with the cursor at `to_block`.
    FetchLogs { from_block: u64, to_block: u64, after_ms: u64 },
    /// Leave the loop.
    Stop,
}

/// A range of blocks, both ends included.
#[derive(Clone, Copy, Debug, PartialEq, Eq, Structural)]
pub struct BlockRange {
    pub from_block: u64,
    pub to_block: u64,
}

/// The state of the sync.
#[derive(Clone, Copy, Debug, PartialEq, Eq)]
pub struct SyncPlan {
    /// The last block whose events are all committed, if any is.
    pub cursor: Option<u64>,
    /// The first block of the next range.
    pub start_block: u64,
    /// The head of the chain as last heard of.
    pub head: u64,
    /// The most blocks that one query goes beyond its first.
    pub max_range: u64,
    pub mode: SyncMode,
    /// The range asked for and not yet answered.
    pub pending: Option<BlockRange>,
    /// How often the pending range has been tried again after the provider
    /// limited the rate.
    pub retries: u8,
}

/// The block to start from: the cursor, unless there is none or it lies
/// before the deployment of the contract; then the deployment block.
pub open spec fn bootstrap_block(cursor: Option<u64>, deployment_block: u64) -> u64 {
    match cursor {
        Some(c) => if c >= deployment_block {
            c
        } else {
            deployment_block
        },
        None => deployment_block,
    }
}

/// The last block of the range that starts at `start`: `max_range` blocks
/// on, but not beyond the head.
pub open spec fn range_end(start: u64, max_range: u64, head: u64) -> u64 {
    if head - start <= max_range {
        head
    } else {
        (start + max_range) as u64
    }
}

/// Whether there is something to ask for: while catching up, as long as the
/// start lies before the head; later, once the head has reached the start
/// and passed the cursor.
pub open spec fn has_work(p: SyncPlan) -> bool {
    match p.mode {
        SyncMode::Backfill => p.start_block < p.head,
        SyncMode::Tail => p.start_block <= p.head && (p.cursor matches Some(c) ==> c < p.head),
        SyncMode::Stopped => false,
    }
}

impl SyncPlan {
    /// What holds of every plan: the span is one that may be configured; the
    /// start is not before the cursor; and a pending range starts at the
    /// start, ends after the cursor and not beyond the head, and spans no
    /// more than allowed.
    pub open spec fn wf(&self) -> bool {
        &&& MIN_BLOCK_RANGE <= self.max_range <= MAX_BLOCK_RANGE
        &&& self.retries <= RATE_LIMIT_RETRIES
        &&& (self.cursor matches Some(c) ==> c <= self.start_block)
        &&& (self.pending matches Some(r) ==> {
            &&& r.from_block == self.start_block
            &&& r.from_block <= r.to_block <= self.head
            &&& r.to_block - r.from_block <= self.max_range
            &&& (self.cursor matches Some(c) ==> c < r.to_block)
        })
    }

    /// What the plan asks for where it has work: the next range, after
    /// `after_ms`.
    pub open spec fn with_next_range(self, after_ms: u64) -> (SyncPlan, SyncAction) {
        let to = range_end(self.start_block, self.max_range, self.head);
        (
            SyncPlan {
                pending: Some(BlockRange { from_block: self.start_block, to_block: to }),
                retries: 0,
                ..self
            },
            SyncAction::FetchLogs { from_block: self.start_block, to_block: to, after_ms },
        )
    }

    /// What the plan does where it has nothing to ask for or gives a range
    /// up: it follows the head, and looks at it after the poll interval.
    pub open spec fn with_poll(self) -> (SyncPlan, SyncAction) {
        (
            SyncPlan { mode: SyncMode::Tail, pending: None, retries: 0, ..self },
            SyncAction::FetchHead { after_ms: POLL_INTERVAL_MS },
        )
    }

    /// What the plan does once it is told to stop: nothing more.
    pub open spec fn with_stop(self) -> (SyncPlan, SyncAction) {
        (
            SyncPlan { mode: SyncMode::Stopped, pending: None, retries: 0, ..self },
            SyncAction::Stop,
        )
    }

    /// The plan and the action after an event.
    pub open spec fn spec_step(self, event: SyncEvent) -> (SyncPlan, SyncAction) {
        if self.mode == SyncMode::Stopped {
            self.with_stop()
        } else {
            self.running_step(event)
        }
    }

    /// The plan and the action after an event, while the plan has not been
    /// told to stop.
    pub open spec fn running_step(self, event: SyncEvent) -> (SyncPlan, SyncAction) {
        match event {
            SyncEvent::ShutdownRequested => self.with_stop(),
            SyncEvent::HeadFetched(h) => {
                let p = SyncPlan { head: h, pending: None, retries: 0, ..self };
                if has_work(p) {
                    p.with_next_range(0)
                } else {
                    p.with_poll()
                }
            },
            SyncEvent::HeadFailed => (
                SyncPlan { pending: None, retries: 0, ..self },
                SyncAction::FetchHead { after_ms: POLL_INTERVAL_MS },
            ),
            SyncEvent::BatchCommitted => match self.pending {
                Some(r) => {
                    let p = SyncPlan {
                        cursor: Some(r.to_block),
                        start_block: if r.to_block < u64::MAX {
                            (r.to_block + 1) as u64
                        } else {
                            r.to_block
                        },
                        pending: None,
                        retries: 0,
                        ..self
                    };
                    if p.mode == SyncMode::Backfill && has_work(p) {
                        p.with_next_range(RANGE_DELAY_MS)
                    } else {
                        p.with_poll()
                    }
                },
                None => self.with_poll(),
            },
            SyncEvent::FetchFailed(error) => match self.pending {
                Some(r) => if self.mode == SyncMode::Backfill && (error == FetchError::TimedOut || (
                error == FetchError::RateLimited && self.retries < RATE_LIMIT_RETRIES)) {
                    (
                        SyncPlan {
                            retries: if error == FetchError::RateLimited {
                                (self.retries + 1) as u8
                            } else {
                                self.retries
                            },
                            ..self
                        },
                        SyncAction::FetchLogs {
                            from_block: r.from_block,
                            to_block: r.to_block,
                            after_ms: RETRY_DELAY_MS,
                        },
                    )
                } else {
                    self.with_poll()
                },
                None => self.with_poll(),
            },
            SyncEvent::CommitFailed => self.with_poll(),
        }
    }

    /// The plan at the start of a run: catching up from the cursor or the
    /// deployment block, the head not yet known. `None` where the span is
    /// not one that may be configured.
    pub fn new(cursor: Option<u64>, deployment_block: u64, max_range: u64) -> (r: Option<SyncPlan>)
        ensures
            r == (if MIN_BLOCK_RANGE <= max_range <= MAX_BLOCK_RANGE {
                Some(
                    SyncPlan {
                        cursor: match cursor {
                            Some(c) => if c >= deployment_block {
                                Some(c)
                            } else {
                                None
                            },
                            None => None,
                        },
                        start_block: bootstrap_block(cursor, deployment_block),
                        head: 0,
                        max_range,
                        mode: SyncMode::Backfill,
                        pending: None,
                        retries: 0,
                    },
                )
            } else {
                None
            }),
            r matches Some(p) ==> p.wf(),
    {
        if max_range < MIN_BLOCK_RANGE || max_range > MAX_BLOCK_RANGE {
            return None;
        }
        let kept: Option<u64> = match cursor {
            Some(c) => if c >= deployment_block {
                Some(c)
            } else {
                None
            },
            None => None,
        };
        let start_block: u64 = match kept {
            Some(c) => c,
            None => deployment_block,
        };
        Some(
            SyncPlan {
                cursor: kept,
                start_block,
                head: 0,
                max_range,
                mode: SyncMode::Backfill,
                pending: None,
                retries: 0,
            },
        )
    }

    /// Whether the plan is one that [`SyncPlan::new`] and [`SyncPlan::step`]
    /// can have made.
    pub fn is_well_formed(&self) -> (r: bool)
        ensures
            r == self.wf(),
    {
        let span_ok: bool = MIN_BLOCK_RANGE <= self.max_range && self.max_range <= MAX_BLOCK_RANGE;
        let start_ok: bool = match self.cursor {
            Some(c) => c <= self.start_block,
            None => true,
        };
        let pending_ok: bool = match self.pending {
            Some(r) => r.from_block == self.start_block && r.from_block <= r.to_block && r.to_block
                <= self.head && r.to_block - r.from_block <= self.max_range && match self.cursor {
                Some(c) => c < r.to_block,
                None => true,
            },
            None => true,
        };
        span_ok && self.retries <= RATE_LIMIT_RETRIES && start_ok && pending_ok
    }

    /// The first action of a run: to ask for the head at once.
    pub fn first_action(&self) -> (r: SyncAction)
        ensures
            r == (SyncAction::FetchHead { after_ms: 0 }),
    {
        SyncAction::FetchHead { after_ms: 0 }
    }

    /// Whether there is something to ask for.
    fn work_left(&self) -> (r: bool)
        ensures
            r == has_work(*self),
    {
        match self.mode {
            SyncMode::Backfill => self.start_block < self.head,
            SyncMode::Tail => self.start_block <= self.head && match self.cursor {
                Some(c) => c < self.head,
                None => true,
            },
            SyncMode::Stopped => false,
        }
    }

    /// The next range, to be asked for after `after_ms`.
    fn next_range(self, after_ms: u64) -> (r: (SyncPlan, SyncAction))
        requires
            self.start_block <= self.head,
        ensures
            r == self.with_next_range(after_ms),
    {
        let to: u64 = if self.head - self.start_block <= self.max_range {
            self.head
        } else {
            self.start_block + self.max_range
        };
        (
            SyncPlan {
                cursor: self.cursor,
                start_block: self.start_block,
                head: self.head,
                max_range: self.max_range,
                mode: self.mode,
                pending: Some(BlockRange { from_block: self.start_block, to_block: to }),
                retries: 0,
            },
            SyncAction::FetchLogs { from_block: self.start_block, to_block: to, after_ms },
        )
    }

    /// To follow the head from now on, looking at it after the poll
    /// interval.
    fn poll(self) -> (r: (SyncPlan, SyncAction))
        ensures
            r == self.with_poll(),
    {
        (
            SyncPlan {
                cursor: self.cursor,
                start_block: self.start_block,
                head: self.head,
                max_range: self.max_range,
                mode: SyncMode::Tail,
                pending: None,
                retries: 0,
            },
            SyncAction::FetchHead { after_ms: POLL_INTERVAL_MS },
        )
    }

    /// To do nothing more.
    fn stop(self) -> (r: (SyncPlan, SyncAction))
        ensures
            r == self.with_stop(),
    {
        (
            SyncPlan {
                cursor: self.cursor,
                start_block: self.start_block,
                head: self.head,
                max_range: self.max_range,
                mode: SyncMode::Stopped,
                pending: None,
                retries: 0,
            },
            SyncAction::Stop,
        )
    }

    /// Takes what happened to the last action and says what to do next.
    ///
    /// A new head starts the next range where there is one. A committed
    /// range moves the cursor to its end and, while catching up, leads to
    /// the next range after a short wait. A query that was rate-limited is
    /// tried again after a wait, three times at most; one that timed out,
    /// as often as it takes; any other failure, and a failed commit, give
    /// the range up until the next look at the head, and the cursor stays
    /// where it was. Once told to stop, the plan asks for nothing more.
    pub fn step(self, event: SyncEvent) -> (r: (SyncPlan, SyncAction))
        requires
            self.wf(),
        ensures
            r == self.spec_step(event),
            r.0.wf(),
            cursor_le(self.cursor, r.0.cursor),
    {
        match self.mode {
            SyncMode::Stopped => {
                return self.stop();
            },
            _ => {},
        }
        match event {
            SyncEvent::ShutdownRequested => self.stop(),
            SyncEvent::HeadFetched(h) => {
                let p = SyncPlan {
                    cursor: self.cursor,
                    start_block: self.start_block,
                    head: h,
                    max_range: self.max_range,
                    mode: self.mode,
                    pending: None,
                    retries: 0,
                };
                if p.work_left() {
                    p.next_range(0)
                } else {
                    p.poll()
                }
            },
            SyncEvent::HeadFailed => (
                SyncPlan {
                    cursor: self.cursor,
                    start_block: self.start_block,
                    head: self.head,
                    max_range: self.max_range,
                    mode: self.mode,
                    pending: None,
                    retries: 0,
                },
                SyncAction::FetchHead { after_ms: POLL_INTERVAL_MS },
            ),
            SyncEvent::BatchCommitted => match self.pending {
                Some(r) => {
                    let next_start: u64 = if r.to_block < u64::MAX {
                        r.to_block + 1
                    } else {
                        r.to_block
                    };
                    let p = SyncPlan {
                        cursor: Some(r.to_block),
                        start_block: next_start,
                        head: self.head,
                        max_range: self.max_range,
                        mode: self.mode,
                        pending: None,
                        retries: 0,
                    };
                    let backfill: bool = match p.mode {
                        SyncMode::Backfill => true,
                        _ => false,
                    };
                    if backfill && p.work_left() {
                        p.next_range(RANGE_DELAY_MS)
                    } else {
                        p.poll()
                    }
                },
                None => self.poll(),
            },
            SyncEvent::FetchFailed(error) => match self.pending {
                Some(r) => {
                    let backfill: bool = match self.mode {
                        SyncMode::Backfill => true,
                        _ => false,
                    };
                    let again: bool = match error {
                        FetchError::TimedOut => true,
                        FetchError::RateLimited => self.retries < RATE_LIMIT_RETRIES,
                        FetchError::Other => false,
                    };
                    if backfill && again {
                        let retries: u8 = match error {
                            FetchError::RateLimited => self.retries + 1,
                            _ => self.retries,
                        };
                        (
                            SyncPlan {
                                cursor: self.cursor,
                                start_block: self.start_block,
                                head: self.head,
                                max_range: self.max_range,
                                mode: self.mode,
                                pending: self.pending,
                                retries,
                            },
                            SyncAction::FetchLogs {
                                from_block: r.from_block,
                                to_block: r.to_block,
                                after_ms: RETRY_DELAY_MS,
                            },
                        )
                    } else {
                        self.poll()
                    }
                },
                None => self.poll(),
            },
            SyncEvent::CommitFailed => self.poll(),
        }
    }
}

/// The plan after a run of events, one step for each.
pub open spec fn plan_after(p: SyncPlan, events: Seq<SyncEvent>) -> SyncPlan
    decreases events.len(),
{
    if events.len() == 0 {
        p
    } else {
        plan_after(p, events.drop_last()).spec_step(events.last()).0
    }
}

/// Over a whole run, whatever happens in it, the cursor never moves back.
pub proof fn lemma_cursor_monotone_over_run(p: SyncPlan, events: Seq<SyncEvent>)
    requires
        p.wf(),
    ensures
        plan_after(p, events).wf(),
        cursor_le(p.cursor, plan_after(p, events).cursor),
    decreases events.len(),
{
    if events.len() > 0 {
        lemma_cursor_monotone_over_run(p, events.drop_last());
        lemma_plan_cursor_monotone(plan_after(p, events.drop_last()), events.last());
    }
}

/// Once the plan is told to stop it stays stopped, asks for nothing more
/// and keeps its cursor.
pub proof fn lemma_stop_is_final(p: SyncPlan, event: SyncEvent)
    requires
        p.wf(),
    ensures
        p.spec_step(SyncEvent::ShutdownRequested).1 == SyncAction::Stop,
        p.spec_step(SyncEvent::ShutdownRequested).0.cursor == p.cursor,
        p.spec_step(SyncEvent::ShutdownRequested).0.spec_step(event).1 == SyncAction::Stop,
        p.spec_step(SyncEvent::ShutdownRequested).0.spec_step(event).0.cursor == p.cursor,
{
}

/// Whether a summary of the points is due: a minute or more has passed since
/// the last one.
pub fn summary_due(last_summary: u64, now: u64) -> (r: bool)
    ensures
        r == (now - last_summary >= SUMMARY_INTERVAL_SECS),
{
    now >= last_summary && now - last_summary >= SUMMARY_INTERVAL_SECS
}

/// Whether `needle` stands somewhere in `text`.
pub open spec fn contains_text(text: Seq<char>, needle: Seq<char>) -> bool {
    exists|at: int|
        0 <= at && at + needle.len() <= text.len() && #[trigger] text.subrange(
            at,
            at + needle.len(),
        ) == needle
}

/// Whether `needle` stands in `text` at the place `at`.
fn matches_at(text: &str, needle: &str, at: usize, text_len: usize, needle_len: usize) -> (r: bool)
    requires
        text_len == text@.len(),
        needle_len == needle@.len(),
        at + needle_len <= text_len,
    ensures
        r == (text@.subrange(at as int, at + needle_len) == needle@),
{
    let mut k: usize = 0;
    while k < needle_len
        invariant
            k <= needle_len,
            text_len == text@.len(),
            needle_len == needle@.len(),
            at + needle_len <= text_len,
            forall|j: int| 0 <= j < k ==> text@[at + j] == needle@[j],
        decreases needle_len - k,
    {
        if text.get_char(at + k) != needle.get_char(k) {
            proof {
                assert(text@.subrange(at as int, at + needle_len)[k as int] == text@[at + k]);
            }
            return false;
        }
        k = k + 1;
    }
    proof {
        assert(text@.subrange(at as int, at + needle_len) =~= needle@);
    }
    true
}

/// Whether `needle` stands somewhere in `text`.
pub fn text_contains(text: &str, needle: &str) -> (r: bool)
    ensures
        r == contains_text(text@, needle@),
{
    let text_len: usize = text.unicode_len();
    let needle_len: usize = needle.unicode_len();
    if needle_len > text_len {
        return false;
    }
    let last: usize = text_len - needle_len;
    let mut at: usize = 0;
    loop
        invariant
            at <= last,
            last == text_len - needle_len,
            text_len == text@.len(),
            needle_len == needle@.len(),
            forall|j: int|
                0 <= j < at ==> #[trigger] text@.subrange(j, j + needle_len) != needle@,
        decreases last - at,
    {
        if matches_at(text, needle, at, text_len, needle_len) {
            return true;
        }
        if at == last {
            return false;
        }
        at = at + 1;
    }
}

/// Why a query for logs failed, from what the provider said: a deadline
/// that passed is a timeout; the provider's own signal, or a message that
/// holds `rate limit`, means that the provider limits the rate; anything
/// else is another failure.
pub fn classify_fetch_error(message: &str, rate_limit_signal: bool, timed_out: bool) -> (r:
    FetchError)
    ensures
        r == (if timed_out {
            FetchError::TimedOut
        } else if rate_limit_signal || contains_text(message@, "rate limit"@) {
            FetchError::RateLimited
        } else {
            FetchError::Other
        }),
{
    if timed_out {
        FetchError::TimedOut
    } else if rate_limit_signal || text_contains(message, "rate limit") {
        FetchError::RateLimited
    } else {
        FetchError::Other
    }
}

/// The cursor of a plan never moves back, whatever happens.
pub proof fn lemma_plan_cursor_monotone(p: SyncPlan, event: SyncEvent)
    requires
        p.wf(),
    ensures
        cursor_le(p.cursor, p.spec_step(event).0.cursor),
        p.spec_step(event).0.wf(),
{
}

/// Only a committed range moves the cursor: a failure of any kind leaves it
/// where it was, so that a range that was given up is asked for again.
pub proof fn lemma_failure_keeps_cursor(p: SyncPlan, event: SyncEvent)
    requires
        p.wf(),
        event != SyncEvent::BatchCommitted,
    ensures
        p.spec_step(event).0.cursor == p.cursor,
        p.spec_step(event).0.start_block == p.start_block,
{
}

/// Every range that the plan asks for starts where the last committed one
/// ended, ends after the cursor and not beyond the head, and spans no more
/// than the configured number of blocks.
pub proof fn lemma_ranges_are_bounded(p: SyncPlan, event: SyncEvent)
    requires
        p.wf(),
    ensures
        p.spec_step(event).1 matches SyncAction::FetchLogs { from_block, to_block, .. } ==> {
            &&& from_block == p.spec_step(event).0.start_block
            &&& from_block <= to_block <= p.spec_step(event).0.head
            &&& to_block - from_block <= p.max_range
            &&& (p.spec_step(event).0.cursor matches Some(c) ==> c <= from_block && c < to_block)
            &&& p.spec_step(event).0.pending == Some(BlockRange { from_block, to_block })
        },
{
}

} // verus!
