//! The shape of what the read API answers.

use vstd::prelude::*;
use vstd::string::*;
use crate::db::Database;
use crate::leaderboard::{LeaderboardEntry, effective_limit, is_leaderboard, leaderboard, leaderboard_limit};
use crate::query::{QueryError, UserEvent, UserPoints, is_user_history, is_user_points};
use crate::text::parsed_address;

verus! {

/// The status of a request that was answered.
pub const STATUS_OK: u16 = 200;

/// The status of a request that asks for what cannot be.
pub const STATUS_BAD_REQUEST: u16 = 400;

/// The status of a request that failed on the store.
pub const STATUS_INTERNAL_ERROR: u16 = 500;

/// The three reads.
#[derive(Clone, Copy, Debug, PartialEq, Eq, Structural)]
pub enum Endpoint {
    Points,
    Events,
    Leaderboard,
}

/// An answer: the status and the body.
#[derive(Debug)]
pub struct HttpReply<T> {
    pub status: u16,
    pub body: ApiResponse<T>,
}

/// What the health check answers.
#[derive(Debug)]
pub struct Health {
    pub status: &'static str,
    pub service: &'static str,
}

/// The envelope of every answer: the data where the request succeeded, the
/// reason where it did not.
#[derive(Debug)]
pub struct ApiResponse<T> {
    pub success: bool,
    pub data: Option<T>,
    pub error: Option<String>,
}

impl<T> ApiResponse<T> {
    /// The answer that carries `data`.
    pub fn success(data: T) -> (r: Self)
        ensures
            r.success,
            r.data == Some(data),
            r.error is None,
    {
        Self { success: true, data: Some(data), error: None }
    }

    /// The answer that carries the reason for a failure.
    pub fn error(error: String) -> (r: Self)
        ensures
            !r.success,
            r.data is None,
            r.error == Some(error),
    {
        Self { success: false, data: None, error: Some(error) }
    }
}

/// What the API says where the store failed, by the read that was asked
/// for.
pub open spec fn failure_text(endpoint: Endpoint) -> Seq<char> {
    match endpoint {
        Endpoint::Points => "Failed to fetch user points"@,
        Endpoint::Events => "Failed to fetch user events"@,
        Endpoint::Leaderboard => "Failed to fetch leaderboard"@,
    }
}

/// Whether the reply refuses the request with the given status and reason.
pub open spec fn is_refusal<T>(reply: HttpReply<T>, status: u16, reason: Seq<char>) -> bool {
    &&& reply.status == status
    &&& !reply.body.success
    &&& reply.body.data is None
    &&& reply.body.error matches Some(e) && e@ == reason
}

/// The answer to a request with an address that is none.
pub fn invalid_address<T>() -> (r: HttpReply<T>)
    ensures
        is_refusal(r, STATUS_BAD_REQUEST, "Invalid address format"@),
{
    HttpReply {
        status: STATUS_BAD_REQUEST,
        body: ApiResponse::error(String::from_str("Invalid address format")),
    }
}

/// The answer where the store failed: the status 500 and a reason that
/// tells nothing of the cause.
pub fn store_failure<T>(endpoint: Endpoint) -> (r: HttpReply<T>)
    ensures
        is_refusal(r, STATUS_INTERNAL_ERROR, failure_text(endpoint)),
{
    let reason: &str = match endpoint {
        Endpoint::Points => "Failed to fetch user points",
        Endpoint::Events => "Failed to fetch user events",
        Endpoint::Leaderboard => "Failed to fetch leaderboard",
    };
    HttpReply { status: STATUS_INTERNAL_ERROR, body: ApiResponse::error(String::from_str(reason)) }
}

/// The answer to `GET /api/points/{address}` at the time `now`: the user's
/// points, or the status 400 where the address is none.
pub fn get_user_points(address: &str, db: &Database, now: u64) -> (r: HttpReply<UserPoints>)
    ensures
        match parsed_address(address@) {
            None => is_refusal(r, STATUS_BAD_REQUEST, "Invalid address format"@),
            Some(user) => {
                &&& r.status == STATUS_OK
                &&& r.body.success
                &&& r.body.error is None
                &&& r.body.data matches Some(p) && is_user_points(
                    p,
                    db@.positions,
                    address@,
                    user,
                    now,
                )
            },
        },
{
    match db.get_user_points(address, now) {
        Ok(points) => HttpReply { status: STATUS_OK, body: ApiResponse::success(points) },
        Err(QueryError::InvalidAddress) => invalid_address(),
    }
}

/// The answer to `GET /api/events/{address}`: the user's history, or the
/// status 400 where the address is none.
pub fn get_user_events(address: &str, db: &Database) -> (r: HttpReply<Vec<UserEvent>>)
    requires
        db.wf(),
    ensures
        match parsed_address(address@) {
            None => is_refusal(r, STATUS_BAD_REQUEST, "Invalid address format"@),
            Some(user) => {
                &&& r.status == STATUS_OK
                &&& r.body.success
                &&& r.body.error is None
                &&& r.body.data matches Some(shown) && is_user_history(
                    shown@,
                    db@.positions,
                    db@.events,
                    user,
                )
            },
        },
{
    match db.get_user_events(address) {
        Ok(events) => HttpReply { status: STATUS_OK, body: ApiResponse::success(events) },
        Err(QueryError::InvalidAddress) => invalid_address(),
    }
}

/// The answer to `GET /api/leaderboard` at the time `now`: the first users
/// by total points, ten where no limit is given, and otherwise as many as
/// asked for, but at least one and at most a hundred.
pub fn get_leaderboard(limit: Option<i64>, db: &Database, now: u64) -> (r: HttpReply<
    Vec<LeaderboardEntry>,
>)
    ensures
        r.status == STATUS_OK,
        r.body.success,
        r.body.error is None,
        r.body.data matches Some(board) && is_leaderboard(
            db@.positions,
            now,
            effective_limit(limit),
            board@,
        ),
{
    let board = leaderboard(db.position_book().rows(), leaderboard_limit(limit), now);
    HttpReply { status: STATUS_OK, body: ApiResponse::success(board) }
}

/// The answer to `GET /health`.
pub fn health() -> (r: (u16, Health))
    ensures
        r.0 == STATUS_OK,
        r.1.status@ == "healthy"@,
        r.1.service@ == "points-calculator"@,
{
    (STATUS_OK, Health { status: "healthy", service: "points-calculator" })
}

} // verus!
