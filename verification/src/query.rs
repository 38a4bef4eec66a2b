//! The three reads of the API, answered from what the store holds.

use vstd::prelude::*;
use vstd::string::*;
use crate::book::lookup;
use crate::db::{Database, EventData};
use crate::leaderboard::{LeaderboardEntry, effective_limit, is_leaderboard, leaderboard, leaderboard_limit};
use crate::numeric::{Wide, wide_limit};
use crate::points::{stake_sum_limit, user_amount, user_deposits_summary, user_points, user_stake_seconds};
use crate::position::{Address, Position, PositionStatus, event_type_text, status_text};
use crate::text::{event_amount_text, format_event_amount, parse_address, parsed_address};

verus! {

/// Why a read was refused.
#[derive(Clone, Copy, Debug, PartialEq, Eq, Structural)]
pub enum QueryError {
    /// The address is not `0x` and forty hexadecimal digits.
    InvalidAddress,
}

/// The points and the deposits of one user. Points are in units, amounts in
/// wei.
#[derive(Debug)]
pub struct UserPoints {
    /// The address as it was asked for.
    pub address: String,
    pub sage_points: Wide,
    pub formation_points: Wide,
    pub total_points: Wide,
    pub active_amount: Wide,
    pub unstaking_amount: Wide,
    pub withdrawn_amount: Wide,
}

/// One event of a user's history.
#[derive(Debug)]
pub struct UserEvent {
    /// The name of the kind of event.
    pub event_type: String,
    /// The amount in tokens, with six digits after the point.
    pub amount: String,
    pub nonce: Option<u64>,
    /// Unix seconds.
    pub timestamp: u64,
    pub block_number: u64,
    /// The name of the status that the event's position has now, or the
    /// empty text where it has none.
    pub status: String,
}

/// Whether the event at index `i` comes before the one at index `j` in a
/// user's history: the later block first, and within a block the event
/// that was recorded later.
pub open spec fn shown_before(events: Seq<EventData>, i: int, j: int) -> bool {
    events[i].block_number > events[j].block_number || (events[i].block_number
        == events[j].block_number && i > j)
}

/// Whether `order` lists the indices of the user's events, each once, in
/// the order of the user's history.
pub open spec fn is_history_order(events: Seq<EventData>, user: Address, order: Seq<usize>) -> bool {
    &&& forall|k: int|
        0 <= k < order.len() ==> (#[trigger] order[k]) < events.len() && events[order[k] as int].user
            == user
    &&& forall|a: int, b: int|
        0 <= a < b < order.len() ==> shown_before(
            events,
            (#[trigger] order[a]) as int,
            (#[trigger] order[b]) as int,
        )
    &&& forall|i: int|
        0 <= i < events.len() && (#[trigger] events[i]).user == user ==> exists|k: int|
            0 <= k < order.len() && #[trigger] order[k] == i
}

/// The name of the status of the event's position as it is now, or the
/// empty text where the event has no nonce or its key no position.
pub open spec fn joined_status_text(positions: Seq<Position>, e: EventData) -> Seq<char> {
    match e.nonce {
        Some(n) => match lookup(positions, (e.user, n)) {
            Some(p) => status_text(p.status),
            None => Seq::empty(),
        },
        None => Seq::empty(),
    }
}

/// Whether `shown` is what the API says of the event `e`.
pub open spec fn shows_event(shown: UserEvent, positions: Seq<Position>, e: EventData) -> bool {
    &&& shown.event_type@ == event_type_text(e.event_type)
    &&& shown.amount@ == event_amount_text(e.amount)
    &&& shown.nonce == e.nonce
    &&& shown.timestamp == e.timestamp
    &&& shown.block_number == e.block_number
    &&& shown.status@ == joined_status_text(positions, e)
}

/// Whether `p` is what the API says of the user at `now`: the address as it
/// was asked for, the user's points, their total, and the user's amounts
/// by status.
pub open spec fn is_user_points(
    p: UserPoints,
    positions: Seq<Position>,
    asked: Seq<char>,
    user: Address,
    now: u64,
) -> bool {
    &&& p.address@ == asked
    &&& p.formation_points@ == user_stake_seconds(positions, user, now)
    &&& p.sage_points@ == 2 * user_stake_seconds(positions, user, now)
    &&& p.total_points@ == p.sage_points@ + p.formation_points@
    &&& p.active_amount@ == user_amount(positions, user, PositionStatus::Active)
    &&& p.unstaking_amount@ == user_amount(positions, user, PositionStatus::Unstaking)
    &&& p.withdrawn_amount@ == user_amount(positions, user, PositionStatus::Withdrawn)
}

/// Whether `shown` is the user's history: the user's events in the order
/// of the history, each as the API shows it.
pub open spec fn is_user_history(
    shown: Seq<UserEvent>,
    positions: Seq<Position>,
    events: Seq<EventData>,
    user: Address,
) -> bool {
    exists|order: Seq<usize>|
        {
            &&& #[trigger] is_history_order(events, user, order)
            &&& shown.len() == order.len()
            &&& forall|k: int|
                0 <= k < shown.len() ==> shows_event(
                    #[trigger] shown[k],
                    positions,
                    events[order[k] as int],
                )
        }
}

/// The indices of the user's events in the order of the user's history:
/// the later block first, and within a block the later record first.
pub fn history_order(events: &Vec<EventData>, user: &Address) -> (r: Vec<usize>)
    ensures
        is_history_order(events@, *user, r@),
{
    let ghost ev = events@;
    let n: usize = events.len();
    let mut out: Vec<usize> = Vec::new();
    let mut i: usize = 0;
    while i < n
        invariant
            i <= n,
            n == events@.len(),
            ev == events@,
            forall|k: int|
                0 <= k < out@.len() ==> (#[trigger] out@[k]) < i && ev[out@[k] as int].user == *user,
            forall|a: int, b: int|
                0 <= a < b < out@.len() ==> shown_before(
                    ev,
                    (#[trigger] out@[a]) as int,
                    (#[trigger] out@[b]) as int,
                ),
            forall|j: int|
                0 <= j < i && (#[trigger] ev[j]).user == *user ==> exists|k: int|
                    0 <= k < out@.len() && #[trigger] out@[k] == j,
        decreases n - i,
    {
        if events[i].user == *user {
            let block: u64 = events[i].block_number;
            let m: usize = out.len();
            let mut p: usize = 0;
            while p < m && events[out[p]].block_number > block
                invariant
                    p <= m,
                    m == out@.len(),
                    i < n,
                    n == events@.len(),
                    ev == events@,
                    block == ev[i as int].block_number,
                    forall|k: int| 0 <= k < out@.len() ==> (#[trigger] out@[k]) < i,
                    forall|k: int|
                        0 <= k < p ==> ev[(#[trigger] out@[k]) as int].block_number > block,
                decreases m - p,
            {
                p = p + 1;
            }
            let ghost before = out@;
            out.insert(p, i);
            proof {
                let after = out@;
                assert forall|k: int| 0 <= k < after.len() implies #[trigger] after[k] == (if k < p {
                    before[k]
                } else if k == p {
                    i
                } else {
                    before[k - 1]
                }) by {}
                assert forall|k: int| p <= k < before.len() implies ev[(
                #[trigger] before[k]) as int].block_number <= block by {
                    if k > p {
                        assert(shown_before(ev, before[p as int] as int, before[k] as int));
                    }
                }
                assert forall|a: int, b: int| 0 <= a < b < after.len() implies shown_before(
                    ev,
                    (#[trigger] after[a]) as int,
                    (#[trigger] after[b]) as int,
                ) by {
                    if b < p {
                        assert(shown_before(ev, before[a] as int, before[b] as int));
                    } else if b == p {
                        assert(ev[before[a] as int].block_number > block);
                    } else if a < p {
                        assert(shown_before(ev, before[a] as int, before[b - 1] as int));
                    } else if a == p {
                        assert(ev[before[b - 1] as int].block_number <= block);
                        assert(before[b - 1] < i);
                    } else {
                        assert(shown_before(ev, before[a - 1] as int, before[b - 1] as int));
                    }
                }
                assert forall|j: int| 0 <= j < i + 1 && (#[trigger] ev[j]).user == *user implies exists|
                    k: int,
                | 0 <= k < after.len() && #[trigger] after[k] == j by {
                    if j < i {
                        let k = choose|k: int| 0 <= k < before.len() && #[trigger] before[k] == j;
                        if k < p {
                            assert(after[k] == j);
                        } else {
                            assert(after[k + 1] == j);
                        }
                    } else {
                        assert(after[p as int] == j);
                    }
                }
                assert forall|k: int| 0 <= k < after.len() implies (#[trigger] after[k]) < i + 1
                    && ev[after[k] as int].user == *user by {
                    if k < p {
                        assert(before[k] < i);
                    } else if k > p {
                        assert(before[k - 1] < i);
                    }
                }
            }
        }
        i = i + 1;
    }
    out
}

impl Database {
    /// The points and deposits of the user with the given address at the
    /// reference time `now`; an error where the text is no address. A user
    /// without positions has nothing of anything.
    pub fn get_user_points(&self, user_address: &str, now: u64) -> (r: Result<UserPoints, QueryError>)
        ensures
            match parsed_address(user_address@) {
                None => r matches Err(QueryError::InvalidAddress),
                Some(user) => r matches Ok(p) && is_user_points(
                    p,
                    self@.positions,
                    user_address@,
                    user,
                    now,
                ),
            },
    {
        let user = match parse_address(user_address) {
            Some(user) => user,
            None => {
                return Err(QueryError::InvalidAddress);
            },
        };
        let rows = self.position_book().rows();
        let points = user_points(rows, &user, now);
        let (active, unstaking, withdrawn) = user_deposits_summary(rows, &user);
        proof {
            assert(3 * stake_sum_limit() < wide_limit());
        }
        Ok(
            UserPoints {
                address: String::from_str(user_address),
                sage_points: points.sage_points,
                formation_points: points.formation_points,
                total_points: points.total_points(),
                active_amount: active,
                unstaking_amount: unstaking,
                withdrawn_amount: withdrawn,
            },
        )
    }

    /// The history of the user with the given address: the user's events,
    /// the later block first and within a block the later record first,
    /// each with the status that its position has now; an error where the
    /// text is no address.
    pub fn get_user_events(&self, user_address: &str) -> (r: Result<Vec<UserEvent>, QueryError>)
        requires
            self.wf(),
        ensures
            match parsed_address(user_address@) {
                None => r matches Err(QueryError::InvalidAddress),
                Some(user) => r matches Ok(shown) && is_user_history(
                    shown@,
                    self@.positions,
                    self@.events,
                    user,
                ),
            },
    {
        let user = match parse_address(user_address) {
            Some(user) => user,
            None => {
                return Err(QueryError::InvalidAddress);
            },
        };
        let events = self.events();
        let book = self.position_book();
        let order = history_order(events, &user);
        let n: usize = order.len();
        let mut shown: Vec<UserEvent> = Vec::new();
        let mut k: usize = 0;
        while k < n
            invariant
                k <= n,
                n == order@.len(),
                events@ == self@.events,
                book@ == self@.positions,
                book.wf(),
                is_history_order(events@, user, order@),
                shown@.len() == k,
                forall|j: int|
                    0 <= j < k ==> shows_event(
                        #[trigger] shown@[j],
                        self@.positions,
                        self@.events[order@[j] as int],
                    ),
            decreases n - k,
        {
            let e = events[order[k]];
            let status: String = match e.nonce {
                Some(nonce) => match book.get(&e.user, nonce) {
                    Some(p) => String::from_str(p.status.as_text()),
                    None => String::new(),
                },
                None => String::new(),
            };
            shown.push(
                UserEvent {
                    event_type: String::from_str(e.event_type.name()),
                    amount: format_event_amount(e.amount),
                    nonce: e.nonce,
                    timestamp: e.timestamp,
                    block_number: e.block_number,
                    status,
                },
            );
            k = k + 1;
        }
        Ok(shown)
    }

    /// The leaderboard at the reference time `now`: the first `limit` users
    /// by total points, `limit` being taken as 1 where it is lower and as
    /// 100 where it is higher.
    pub fn get_leaderboard(&self, limit: i64, now: u64) -> (r: Vec<LeaderboardEntry>)
        ensures
            is_leaderboard(self@.positions, now, effective_limit(Some(limit)), r@),
    {
        leaderboard(self.position_book().rows(), leaderboard_limit(Some(limit)), now)
    }
}

} // verus!
