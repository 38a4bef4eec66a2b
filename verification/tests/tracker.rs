use points_calculator::book::PositionBook;
use points_calculator::db::{Database, EventData};
use points_calculator::numeric::{Amount, Wide};
use points_calculator::points::UNITS_PER_POINT;
use points_calculator::position::{
    Address, EventType, LogEntry, Position, PositionStatus, Rejection, StakingEvent, TxHash,
};
use points_calculator::tracker::{Batch, PointsTracker, RejectedEvent};

const T0: u64 = 1_700_000_000;
const T1: u64 = 1_700_086_400;
const T2: u64 = 1_700_200_000;
const T3: u64 = 1_700_286_400;

fn user_a() -> Address {
    Address::new(0xaaaa_aaaa, 0xaaaa_aaaa_aaaa_aaaa_aaaa_aaaa_aaaa_aaaa)
}

fn address_a() -> String {
    format!("0x{}", "a".repeat(40))
}

fn one_token() -> Amount {
    Amount::from_u128(1_000_000_000_000_000_000)
}

fn entry(event: StakingEvent, block_number: u64) -> LogEntry {
    LogEntry { event, block_number, tx_hash: TxHash { hi: 7, lo: block_number as u128 } }
}

fn deposit(block: u64) -> LogEntry {
    entry(
        StakingEvent::Deposit { user: user_a(), amount: one_token(), nonce: 1, timestamp: T0 },
        block,
    )
}

fn initiate(block: u64) -> LogEntry {
    entry(
        StakingEvent::InitiateWithdraw { user: user_a(), nonce: 1, unlocks_at: T1 + 100, timestamp: T1 },
        block,
    )
}

fn withdraw(block: u64) -> LogEntry {
    entry(
        StakingEvent::Withdraw { user: user_a(), amount: one_token(), nonce: 1, timestamp: T2 },
        block,
    )
}

fn restake(block: u64) -> LogEntry {
    entry(
        StakingEvent::Restake { user: user_a(), nonce: 1, amount: one_token(), timestamp: T2 },
        block,
    )
}

fn as_f64(w: &Wide) -> f64 {
    let mut value = 0.0f64;
    for limb in w.to_limbs().iter().rev() {
        value = value * 18446744073709551616.0 + *limb as f64;
    }
    value
}

fn points(w: &Wide) -> f64 {
    as_f64(w) / UNITS_PER_POINT as f64
}

fn tokens(w: &Wide) -> f64 {
    as_f64(w) / 1e18
}

fn close(a: f64, b: f64) -> bool {
    (a - b).abs() <= 1e-12 * b.abs().max(1.0)
}

/// Runs the logs through a tracker made from the store and commits what
/// comes of them, as the indexer does for one range.
fn ingest(db: &mut Database, logs: Vec<LogEntry>, to_block: u64) -> Batch {
    let mut tracker = PointsTracker::with_database_instance(db);
    let batch = tracker.process_logs(&logs, db.get_last_processed_block());
    db.apply_batch(&batch.positions, &batch.events, to_block).unwrap();
    assert_eq!(tracker.positions(), db.position_book().rows());
    batch
}

#[test]
fn a_deposit_earns_from_its_timestamp_on() {
    let mut db = Database::new();
    ingest(&mut db, vec![deposit(100)], 100);
    let p = db.get_user_points(&address_a(), T1).unwrap();
    assert_eq!(db.position_book().get(&user_a(), 1).unwrap().status, PositionStatus::Active);
    assert!(close(points(&p.sage_points), 0.01));
    assert!(close(points(&p.formation_points), 0.005));
    assert!(close(points(&p.total_points), 0.015));
    assert!(close(tokens(&p.active_amount), 1.0));
    assert_eq!(p.unstaking_amount, Wide::zero());
    assert_eq!(p.withdrawn_amount, Wide::zero());
    assert_eq!(p.address, address_a());
}

#[test]
fn initiating_a_withdrawal_freezes_the_points() {
    let mut db = Database::new();
    ingest(&mut db, vec![deposit(100)], 100);
    ingest(&mut db, vec![initiate(200)], 200);
    for now in [T1, T1 + 1, T3, u64::MAX] {
        let p = db.get_user_points(&address_a(), now).unwrap();
        assert!(close(points(&p.sage_points), 0.01));
        assert!(close(points(&p.formation_points), 0.005));
        assert_eq!(p.sage_points, Wide::from_u128(172_800_000_000_000_000_000_000));
        assert_eq!(p.active_amount, Wide::zero());
        assert!(close(tokens(&p.unstaking_amount), 1.0));
    }
    let stored = db.position_book().get(&user_a(), 1).unwrap();
    assert_eq!(stored.status, PositionStatus::Unstaking);
    assert_eq!(stored.withdrawal_initiated_timestamp, Some(T1));
}

#[test]
fn a_withdrawal_keeps_the_points_and_ends_the_position() {
    let mut db = Database::new();
    ingest(&mut db, vec![deposit(100)], 100);
    ingest(&mut db, vec![initiate(200)], 200);
    let before = db.get_user_points(&address_a(), T3).unwrap();
    ingest(&mut db, vec![withdraw(300)], 300);
    let after = db.get_user_points(&address_a(), T3).unwrap();
    assert_eq!(after.sage_points, before.sage_points);
    assert_eq!(after.formation_points, before.formation_points);
    assert_eq!(after.unstaking_amount, Wide::zero());
    assert!(close(tokens(&after.withdrawn_amount), 1.0));
    let stored = db.position_book().get(&user_a(), 1).unwrap();
    assert_eq!(stored.status, PositionStatus::Withdrawn);
    assert_eq!(stored.withdrawal_initiated_timestamp, Some(T1));
    let batch = ingest(&mut db, vec![restake(400), deposit(401)], 401);
    assert_eq!(batch.positions.len(), 0);
    assert_eq!(batch.rejections[0].reason, Rejection::AlreadyWithdrawn);
    assert_eq!(batch.rejections[1].reason, Rejection::DuplicateKey);
    assert_eq!(db.position_book().get(&user_a(), 1).unwrap(), stored);
}

#[test]
fn a_restake_restarts_the_clock() {
    let mut db = Database::new();
    ingest(&mut db, vec![deposit(100)], 100);
    ingest(&mut db, vec![initiate(200)], 200);
    ingest(&mut db, vec![restake(250)], 250);
    let stored = db.position_book().get(&user_a(), 1).unwrap();
    assert_eq!(stored.status, PositionStatus::Active);
    assert_eq!(stored.deposit_timestamp, T2);
    assert_eq!(stored.withdrawal_initiated_timestamp, None);
    assert_eq!(stored.amount, one_token());
    assert_eq!(stored.block_number, 100);
    let p = db.get_user_points(&address_a(), T3).unwrap();
    assert!(close(points(&p.sage_points), 0.01));
    assert!(close(points(&p.formation_points), 0.005));
    assert!(close(tokens(&p.active_amount), 1.0));
}

#[test]
fn handle_log_counts_records_and_reports() {
    let mut tracker = PointsTracker::with_database_instance(&Database::new());
    assert_eq!(tracker.total_events_processed(), 0);
    assert_eq!(tracker.current_block(), 0);
    let accepted = tracker.handle_log(&deposit(100));
    assert_eq!(
        accepted.record,
        EventData {
            event_type: EventType::Deposit,
            user: user_a(),
            nonce: Some(1),
            amount: Some(one_token()),
            block_number: 100,
            tx_hash: TxHash { hi: 7, lo: 100 },
            timestamp: T0,
        }
    );
    assert_eq!(accepted.rejection, None);
    assert_eq!(accepted.position, tracker.get_position(&(user_a(), 1)));
    assert_eq!(tracker.total_events_processed(), 1);
    assert_eq!(tracker.current_block(), 100);
    let refused = tracker.handle_log(&withdraw(101));
    assert_eq!(refused.position, None);
    assert_eq!(refused.rejection, Some(Rejection::SkippedUnstaking));
    assert_eq!(refused.record.event_type, EventType::Withdraw);
    assert_eq!(tracker.total_events_processed(), 2);
    assert_eq!(tracker.current_block(), 101);
    assert_eq!(tracker.get_position(&(user_a(), 1)).unwrap().status, PositionStatus::Active);
    let silent = tracker.handle_log(&initiate(102));
    assert_eq!(silent.record.amount, None);
    assert_eq!(silent.record.event_type, EventType::InitiateWithdraw);
    tracker.set_current_block(500);
    assert_eq!(tracker.current_block(), 500);
    assert_eq!(tracker.total_events_processed(), 3);
}

#[test]
fn every_recorded_event_has_a_position_or_a_refusal() {
    let other = entry(
        StakingEvent::Withdraw { user: Address::new(0, 5), amount: one_token(), nonce: 9, timestamp: T0 },
        101,
    );
    let logs = vec![deposit(100), other, initiate(102), initiate(103), withdraw(104)];
    let mut tracker = PointsTracker::with_database_instance(&Database::new());
    let batch = tracker.process_logs(&logs, None);
    assert_eq!(batch.events.len(), 5);
    assert_eq!(batch.positions.len(), 3);
    assert_eq!(
        batch.rejections,
        vec![
            RejectedEvent { event: batch.events[1], reason: Rejection::Orphan },
            RejectedEvent { event: batch.events[3], reason: Rejection::AlreadyUnstaking },
        ]
    );
    for e in &batch.events {
        let stored = tracker.get_position(&(e.user, e.nonce.unwrap())).is_some();
        let refused = batch.rejections.iter().any(|r| r.event == *e);
        assert!(stored || refused);
    }
    assert_eq!(tracker.get_position(&(Address::new(0, 5), 9)), None);
    assert_eq!(tracker.get_position(&(user_a(), 1)).unwrap().status, PositionStatus::Withdrawn);
    assert_eq!(batch.positions[2], tracker.get_position(&(user_a(), 1)).unwrap());
}

#[test]
fn logs_at_or_before_the_cursor_are_passed_over() {
    let mut db = Database::new();
    ingest(&mut db, vec![deposit(100)], 100);
    let mut tracker = PointsTracker::with_database_instance(&db);
    let batch = tracker.process_logs(&vec![deposit(100), initiate(100), initiate(101)], Some(100));
    assert_eq!(batch.events.len(), 1);
    assert_eq!(batch.events[0].block_number, 101);
    assert_eq!(batch.positions.len(), 1);
    assert_eq!(batch.rejections.len(), 0);
    assert_eq!(tracker.total_events_processed(), 1);
    let mut again = PointsTracker::with_database_instance(&db);
    let nothing = again.process_logs(&vec![deposit(99), deposit(100)], Some(100));
    assert_eq!(nothing.events.len(), 0);
    assert_eq!(nothing.positions.len(), 0);
    assert_eq!(again.positions(), db.position_book().rows());
}

#[test]
fn restart_gives_the_same_snapshot() {
    let mut db = Database::new();
    let mut tracker = PointsTracker::with_database_instance(&db);
    let b1 = tracker.process_logs(&vec![deposit(100), initiate(150)], None);
    db.apply_batch(&b1.positions, &b1.events, 200).unwrap();
    let second = entry(
        StakingEvent::Deposit { user: Address::new(1, 2), amount: one_token(), nonce: 4, timestamp: T1 },
        210,
    );
    let b2 = tracker.process_logs(&vec![second, restake(220)], db.get_last_processed_block());
    db.apply_batch(&b2.positions, &b2.events, 300).unwrap();
    let restarted = PointsTracker::with_database_instance(&db);
    assert_eq!(restarted.positions(), tracker.positions());
    assert_eq!(restarted.positions().len(), 2);
    assert_eq!(restarted.total_events_processed(), 0);
    // the positions collected, stored one by one, are the positions of the tracker
    let mut book = PositionBook::new();
    book.upsert_all(&b1.positions);
    book.upsert_all(&b2.positions);
    assert_eq!(book.rows(), tracker.positions());
}

#[test]
fn tracker_moves_only_what_the_table_allows() {
    let mut tracker = PointsTracker::with_database_instance(&Database::new());
    let key = (user_a(), 1);
    let template = Position {
        user: Address::new(3, 3),
        nonce: 77,
        amount: one_token(),
        deposit_timestamp: T0,
        status: PositionStatus::Withdrawn,
        withdrawal_initiated_timestamp: Some(5),
        block_number: 100,
    };
    assert_eq!(tracker.move_to_unstaking(key, T1), None);
    assert_eq!(tracker.move_to_withdrawn(key), None);
    assert_eq!(tracker.move_to_active(key, T2), None);
    let added = tracker.add_active_position(key, template).unwrap();
    assert_eq!(
        added,
        Position {
            user: user_a(),
            nonce: 1,
            status: PositionStatus::Active,
            withdrawal_initiated_timestamp: None,
            ..template
        }
    );
    assert_eq!(tracker.add_active_position(key, template), None);
    assert_eq!(tracker.move_to_withdrawn(key), None);
    assert_eq!(tracker.move_to_active(key, T2), None);
    let moved = tracker.move_to_unstaking(key, T1).unwrap();
    assert_eq!(moved.status, PositionStatus::Unstaking);
    assert_eq!(moved.withdrawal_initiated_timestamp, Some(T1));
    assert_eq!(tracker.move_to_unstaking(key, T2), None);
    let back = tracker.move_to_active(key, T2).unwrap();
    assert_eq!(back.status, PositionStatus::Active);
    assert_eq!(back.deposit_timestamp, T2);
    assert_eq!(back.withdrawal_initiated_timestamp, None);
    tracker.move_to_unstaking(key, T3);
    let gone = tracker.move_to_withdrawn(key).unwrap();
    assert_eq!(gone.status, PositionStatus::Withdrawn);
    assert_eq!(gone.withdrawal_initiated_timestamp, Some(T3));
    assert_eq!(tracker.move_to_active(key, T3), None);
    assert_eq!(tracker.get_position(&key), Some(gone));
    assert_eq!(tracker.positions().len(), 1);
}

#[test]
fn tracker_points_and_summary() {
    let mut tracker = PointsTracker::with_database_instance(&Database::new());
    let b = Address::new(0, 0xb);
    let logs = vec![
        deposit(100),
        entry(StakingEvent::Deposit { user: b, amount: one_token(), nonce: 1, timestamp: T0 }, 101),
        entry(StakingEvent::Deposit { user: b, amount: one_token(), nonce: 2, timestamp: T0 }, 102),
        initiate(103),
    ];
    tracker.process_logs(&logs, None);
    let now = T0 + 2 * 86_400;
    let a_points = tracker.calculate_user_points(&user_a(), now);
    let b_points = tracker.calculate_user_points(&b, now);
    assert!(close(points(&a_points.total_points()), 0.015));
    assert!(close(points(&b_points.total_points()), 0.06));
    let stored = tracker.get_position(&(user_a(), 1)).unwrap();
    assert_eq!(tracker.calculate_position_points(&stored, now), a_points);
    let (active, unstaking, withdrawn) = tracker.get_user_deposits_summary(&b);
    assert!(close(tokens(&active), 2.0));
    assert_eq!(unstaking, Wide::zero());
    assert_eq!(withdrawn, Wide::zero());
    let ranking = tracker.get_leaderboard(now);
    assert_eq!(ranking.len(), 2);
    assert_eq!(ranking[0], (b, b_points));
    assert_eq!(ranking[1], (user_a(), a_points));
    let summary = tracker.points_summary(now);
    assert_eq!(summary.current_block, 103);
    assert_eq!(summary.total_events_processed, 4);
    assert_eq!(summary.entries.len(), 2);
    assert_eq!(summary.entries[0].rank, 1);
    assert_eq!(summary.entries[0].address, b);
    assert_eq!(summary.entries[1].rank, 2);
    assert_eq!(summary.deposits.len(), 2);
    assert!(close(tokens(&summary.deposits[0].active), 2.0));
    assert!(close(tokens(&summary.deposits[1].unstaking), 1.0));
    assert_eq!(summary.deposits[1].active, Wide::zero());
    assert!(close(points(&summary.total_points.sage_points), 0.05));
    assert!(close(points(&summary.total_points.formation_points), 0.025));
    assert_eq!(summary.active_positions, 2);
    assert_eq!(summary.unstaking_positions, 1);
    assert_eq!(summary.withdrawn_positions, 0);
}
