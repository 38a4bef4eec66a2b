use points_calculator::api::{
    get_leaderboard, get_user_events, get_user_points, health, invalid_address, store_failure,
    ApiResponse, Endpoint, HttpReply, STATUS_BAD_REQUEST, STATUS_INTERNAL_ERROR, STATUS_OK,
};
use points_calculator::db::{Database, EventData};
use points_calculator::numeric::{Amount, Wide};
use points_calculator::position::{Address, EventType, Position, PositionStatus, TxHash};
use points_calculator::query::{history_order, QueryError, UserPoints};

fn user(n: u128) -> Address {
    Address::new(0, n)
}

fn text_of(n: u128) -> String {
    format!("0x{:040x}", n)
}

fn one_token() -> Amount {
    Amount::from_u128(1_000_000_000_000_000_000)
}

fn position(n: u128, nonce: u64, status: PositionStatus) -> Position {
    Position {
        user: user(n),
        nonce,
        amount: one_token(),
        deposit_timestamp: 1_000,
        status,
        withdrawal_initiated_timestamp: match status {
            PositionStatus::Active => None,
            _ => Some(1_000 + 86_400),
        },
        block_number: 1,
    }
}

fn event(kind: EventType, n: u128, nonce: Option<u64>, amount: Option<Amount>, block: u64) -> EventData {
    EventData {
        event_type: kind,
        user: user(n),
        nonce,
        amount,
        block_number: block,
        tx_hash: TxHash { hi: 1, lo: 2 },
        timestamp: 1_000 + block,
    }
}

#[test]
fn success_and_error_envelopes() {
    let ok = ApiResponse::success(5u8);
    assert!(ok.success);
    assert_eq!(ok.data, Some(5));
    assert_eq!(ok.error, None);
    let bad: ApiResponse<u8> = ApiResponse::error(String::from("no"));
    assert!(!bad.success);
    assert_eq!(bad.data, None);
    assert_eq!(bad.error, Some(String::from("no")));
}

#[test]
fn what_is_no_address_is_answered_with_400() {
    let db = Database::new();
    let reply = get_user_points("not-an-address", &db, 5);
    assert_eq!(reply.status, 400);
    assert!(!reply.body.success);
    assert!(reply.body.data.is_none());
    assert_eq!(reply.body.error.as_deref(), Some("Invalid address format"));
    let reply = get_user_events("not-an-address", &db);
    assert_eq!(reply.status, STATUS_BAD_REQUEST);
    assert!(!reply.body.success);
    assert!(reply.body.data.is_none());
    assert_eq!(reply.body.error.as_deref(), Some("Invalid address format"));
    assert!(matches!(db.get_user_points("0x12", 5), Err(QueryError::InvalidAddress)));
    assert!(matches!(db.get_user_events("0x12"), Err(QueryError::InvalidAddress)));
    let plain: HttpReply<u8> = invalid_address();
    assert_eq!(plain.status, 400);
}

#[test]
fn store_failures_answer_500_with_a_plain_reason() {
    let points: HttpReply<UserPoints> = store_failure(Endpoint::Points);
    assert_eq!(points.status, STATUS_INTERNAL_ERROR);
    assert_eq!(points.status, 500);
    assert!(!points.body.success);
    assert!(points.body.data.is_none());
    assert_eq!(points.body.error.as_deref(), Some("Failed to fetch user points"));
    let events: HttpReply<u8> = store_failure(Endpoint::Events);
    assert_eq!(events.body.error.as_deref(), Some("Failed to fetch user events"));
    let board: HttpReply<u8> = store_failure(Endpoint::Leaderboard);
    assert_eq!(board.body.error.as_deref(), Some("Failed to fetch leaderboard"));
}

#[test]
fn health_is_healthy() {
    let (status, body) = health();
    assert_eq!(status, 200);
    assert_eq!(body.status, "healthy");
    assert_eq!(body.service, "points-calculator");
}

#[test]
fn points_of_a_user_by_address_in_either_case() {
    let mut db = Database::new();
    db.save_position(&position(0xabc, 1, PositionStatus::Active));
    db.save_position(&position(0xabc, 2, PositionStatus::Unstaking));
    db.save_position(&position(0xdef, 1, PositionStatus::Withdrawn));
    let now = 1_000 + 2 * 86_400;
    let lower = get_user_points(&text_of(0xabc), &db, now);
    assert_eq!(lower.status, STATUS_OK);
    assert!(lower.body.success);
    assert_eq!(lower.body.error, None);
    let p = lower.body.data.unwrap();
    assert_eq!(p.address, text_of(0xabc));
    assert_eq!(p.formation_points, one_token().mul_u64(3 * 86_400));
    assert_eq!(p.sage_points, one_token().mul_u64(6 * 86_400));
    assert_eq!(p.total_points, one_token().mul_u64(9 * 86_400));
    assert_eq!(p.active_amount, Wide::from_amount(one_token()));
    assert_eq!(p.unstaking_amount, Wide::from_amount(one_token()));
    assert_eq!(p.withdrawn_amount, Wide::zero());
    let upper = text_of(0xabc).replace("abc", "ABC");
    let q = get_user_points(&upper, &db, now).body.data.unwrap();
    assert_eq!(q.address, upper);
    assert_eq!(q.total_points, p.total_points);
    let nobody = get_user_points(&text_of(0x123), &db, now).body.data.unwrap();
    assert_eq!(nobody.total_points, Wide::zero());
    assert_eq!(nobody.active_amount, Wide::zero());
}

#[test]
fn history_is_newest_block_first_and_latest_record_first_within_a_block() {
    let mut db = Database::new();
    db.save_position(&position(1, 1, PositionStatus::Withdrawn));
    db.save_position(&position(1, 2, PositionStatus::Active));
    let records = vec![
        event(EventType::Deposit, 1, Some(1), Some(one_token()), 10),
        event(EventType::Deposit, 2, Some(1), Some(one_token()), 11),
        event(EventType::InitiateWithdraw, 1, Some(1), None, 20),
        event(EventType::Deposit, 1, Some(2), Some(Amount::from_u128(2_500_000_000_000_000_000)), 20),
        event(EventType::Withdraw, 1, Some(1), Some(one_token()), 15),
        event(EventType::Restake, 1, Some(9), Some(one_token()), 20),
        event(EventType::Withdraw, 1, None, None, 30),
    ];
    for r in &records {
        db.save_event(*r);
    }
    assert_eq!(history_order(db.events(), &user(1)), vec![6, 5, 3, 2, 4, 0]);
    assert_eq!(history_order(db.events(), &user(2)), vec![1]);
    assert_eq!(history_order(db.events(), &user(3)), Vec::<usize>::new());
    let reply = get_user_events(&text_of(1), &db);
    assert_eq!(reply.status, 200);
    assert!(reply.body.success);
    let shown = reply.body.data.unwrap();
    let lines: Vec<(String, String, Option<u64>, u64, u64, String)> = shown
        .into_iter()
        .map(|e| (e.event_type, e.amount, e.nonce, e.timestamp, e.block_number, e.status))
        .collect();
    let line = |kind: &str, amount: &str, nonce: Option<u64>, block: u64, status: &str| {
        (kind.to_string(), amount.to_string(), nonce, 1_000 + block, block, status.to_string())
    };
    assert_eq!(
        lines,
        vec![
            line("Withdraw", "0.000000", None, 30, ""),
            line("RestakeFromWithdrawalInitiated", "1.000000", Some(9), 20, ""),
            line("Deposit", "2.500000", Some(2), 20, "active"),
            line("InitiateWithdraw", "0.000000", Some(1), 20, "withdrawn"),
            line("Withdraw", "1.000000", Some(1), 15, "withdrawn"),
            line("Deposit", "1.000000", Some(1), 10, "withdrawn"),
        ]
    );
    let none = get_user_events(&text_of(77), &db).body.data.unwrap();
    assert!(none.is_empty());
}

#[test]
fn leaderboard_answer_uses_the_default_and_the_clamp() {
    let mut db = Database::new();
    for n in 1..=15u64 {
        db.save_position(&Position {
            deposit_timestamp: 1_000 - n,
            ..position(n as u128, 1, PositionStatus::Active)
        });
    }
    let now = 5_000;
    let default = get_leaderboard(None, &db, now);
    assert_eq!(default.status, 200);
    assert!(default.body.success);
    assert_eq!(default.body.error, None);
    let board = default.body.data.unwrap();
    assert_eq!(board.len(), 10);
    assert_eq!(board[0].address, user(15));
    assert_eq!(board[9].address, user(6));
    assert_eq!(board[9].rank, 10);
    assert_eq!(get_leaderboard(Some(0), &db, now).body.data.unwrap().len(), 1);
    assert_eq!(get_leaderboard(Some(-1), &db, now).body.data.unwrap().len(), 1);
    assert_eq!(get_leaderboard(Some(3), &db, now).body.data.unwrap().len(), 3);
    assert_eq!(get_leaderboard(Some(1_000), &db, now).body.data.unwrap().len(), 15);
    assert_eq!(get_leaderboard(Some(3), &db, now).body.data.unwrap()[..], board[..3]);
}
