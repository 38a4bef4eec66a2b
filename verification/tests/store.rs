use points_calculator::book::PositionBook;
use points_calculator::db::{Database, EventData, StoreError};
use points_calculator::numeric::Amount;
use points_calculator::position::{Address, EventType, Position, PositionStatus, TxHash};

fn position(user: u128, nonce: u64, status: PositionStatus) -> Position {
    Position {
        user: Address::new(0, user),
        nonce,
        amount: Amount::from_u64(1_000),
        deposit_timestamp: 10,
        status,
        withdrawal_initiated_timestamp: match status {
            PositionStatus::Active => None,
            _ => Some(20),
        },
        block_number: 1,
    }
}

fn event(user: u128, nonce: u64, block_number: u64) -> EventData {
    EventData {
        event_type: EventType::Deposit,
        user: Address::new(0, user),
        nonce: Some(nonce),
        amount: Some(Amount::from_u64(1_000)),
        block_number,
        tx_hash: TxHash { hi: 0, lo: 1 },
        timestamp: 10,
    }
}

#[test]
fn new_store_is_empty() {
    let db = Database::new();
    assert_eq!(db.position_book().len(), 0);
    assert_eq!(db.events().len(), 0);
    assert_eq!(db.get_last_processed_block(), None);
    let (a, u, w) = db.load_positions();
    assert!(a.is_empty() && u.is_empty() && w.is_empty());
}

#[test]
fn save_position_is_an_upsert_on_the_key() {
    let mut db = Database::new();
    let p = position(1, 1, PositionStatus::Active);
    db.save_position(&p);
    db.save_position(&p);
    assert_eq!(db.position_book().rows(), &vec![p]);
    let q = position(1, 2, PositionStatus::Active);
    db.save_position(&q);
    let moved = position(1, 1, PositionStatus::Unstaking);
    db.save_position(&moved);
    assert_eq!(db.position_book().rows(), &vec![moved, q]);
    assert_eq!(db.position_book().get(&Address::new(0, 1), 1), Some(moved));
    assert_eq!(db.position_book().get(&Address::new(0, 1), 3), None);
    assert_eq!(db.position_book().get(&Address::new(0, 2), 1), None);
}

#[test]
fn load_positions_splits_by_status() {
    let mut db = Database::new();
    let a = position(1, 1, PositionStatus::Active);
    let u = position(1, 2, PositionStatus::Unstaking);
    let w = position(2, 1, PositionStatus::Withdrawn);
    let a2 = position(3, 1, PositionStatus::Active);
    for p in [a, u, w, a2] {
        db.save_position(&p);
    }
    let (active, unstaking, withdrawn) = db.load_positions();
    assert_eq!(active, vec![((a.user, 1), a), ((a2.user, 1), a2)]);
    assert_eq!(unstaking, vec![((u.user, 2), u)]);
    assert_eq!(withdrawn, vec![((w.user, 1), w)]);
    assert_eq!(db.positions_with_status(PositionStatus::Withdrawn), withdrawn);
}

#[test]
fn events_are_appended_in_order() {
    let mut db = Database::new();
    db.save_event(event(1, 1, 5));
    db.save_event(event(1, 2, 3));
    db.save_event(event(1, 1, 5));
    assert_eq!(db.events(), &vec![event(1, 1, 5), event(1, 2, 3), event(1, 1, 5)]);
}

#[test]
fn cursor_never_moves_back() {
    let mut db = Database::new();
    assert_eq!(db.update_last_processed_block(100), Ok(()));
    assert_eq!(db.get_last_processed_block(), Some(100));
    assert_eq!(db.update_last_processed_block(100), Ok(()));
    assert_eq!(db.update_last_processed_block(99), Err(StoreError::CursorMovesBack));
    assert_eq!(db.get_last_processed_block(), Some(100));
    assert_eq!(db.update_last_processed_block(0), Err(StoreError::CursorMovesBack));
    assert_eq!(db.update_last_processed_block(101), Ok(()));
    assert_eq!(db.get_last_processed_block(), Some(101));
    let mut fresh = Database::new();
    assert_eq!(fresh.update_last_processed_block(0), Ok(()));
    assert_eq!(fresh.get_last_processed_block(), Some(0));
}

#[test]
fn apply_batch_does_all_three_or_nothing() {
    let mut db = Database::new();
    let p = position(1, 1, PositionStatus::Active);
    assert_eq!(db.apply_batch(&vec![p], &vec![event(1, 1, 7)], 10), Ok(()));
    assert_eq!(db.position_book().rows(), &vec![p]);
    assert_eq!(db.events(), &vec![event(1, 1, 7)]);
    assert_eq!(db.get_last_processed_block(), Some(10));

    let q = position(2, 1, PositionStatus::Active);
    let moved = position(1, 1, PositionStatus::Unstaking);
    for stale in [0, 9, 10] {
        assert_eq!(
            db.apply_batch(&vec![q, moved], &vec![event(2, 1, 8)], stale),
            Err(StoreError::BatchAlreadyApplied)
        );
        assert_eq!(db.position_book().rows(), &vec![p]);
        assert_eq!(db.events(), &vec![event(1, 1, 7)]);
        assert_eq!(db.get_last_processed_block(), Some(10));
    }
    assert_eq!(db.apply_batch(&vec![q, moved], &vec![event(2, 1, 11)], 11), Ok(()));
    assert_eq!(db.position_book().rows(), &vec![moved, q]);
    assert_eq!(db.events(), &vec![event(1, 1, 7), event(2, 1, 11)]);
    assert_eq!(db.get_last_processed_block(), Some(11));
}

#[test]
fn a_batch_applied_twice_counts_once() {
    let mut once = Database::new();
    let mut twice = Database::new();
    let positions = vec![position(1, 1, PositionStatus::Active), position(1, 2, PositionStatus::Active)];
    let events = vec![event(1, 1, 4), event(1, 2, 5)];
    once.apply_batch(&positions, &events, 5).unwrap();
    twice.apply_batch(&positions, &events, 5).unwrap();
    assert_eq!(twice.apply_batch(&positions, &events, 5), Err(StoreError::BatchAlreadyApplied));
    assert_eq!(twice.position_book().rows(), once.position_book().rows());
    assert_eq!(twice.events(), once.events());
    assert_eq!(twice.events().len(), 2);
    assert_eq!(twice.get_last_processed_block(), once.get_last_processed_block());
}

#[test]
fn an_empty_batch_still_moves_the_cursor() {
    let mut db = Database::new();
    assert_eq!(db.apply_batch(&Vec::new(), &Vec::new(), 0), Ok(()));
    assert_eq!(db.get_last_processed_block(), Some(0));
    assert_eq!(db.apply_batch(&Vec::new(), &Vec::new(), u64::MAX), Ok(()));
    assert_eq!(db.get_last_processed_block(), Some(u64::MAX));
    assert_eq!(
        db.apply_batch(&Vec::new(), &Vec::new(), u64::MAX),
        Err(StoreError::BatchAlreadyApplied)
    );
}

#[test]
fn book_from_rows_keeps_the_last_row_of_a_key() {
    let first = position(1, 1, PositionStatus::Active);
    let other = position(2, 1, PositionStatus::Active);
    let last = position(1, 1, PositionStatus::Withdrawn);
    let book = PositionBook::from_rows(&vec![first, other, last]);
    assert_eq!(book.rows(), &vec![last, other]);
    assert_eq!(book.len(), 2);
    let copy = book.duplicate();
    assert_eq!(copy.rows(), book.rows());
    let mut grown = PositionBook::new();
    grown.upsert(first);
    grown.upsert(other);
    grown.upsert(last);
    assert_eq!(grown.rows(), book.rows());
}

#[test]
fn positions_of_one_user() {
    let mut db = Database::new();
    let a = position(1, 1, PositionStatus::Active);
    let b = position(2, 1, PositionStatus::Active);
    let c = position(1, 2, PositionStatus::Withdrawn);
    for p in [a, b, c] {
        db.save_position(&p);
    }
    assert_eq!(db.user_positions(&Address::new(0, 1)), vec![a, c]);
    assert_eq!(db.user_positions(&Address::new(0, 2)), vec![b]);
    assert_eq!(db.user_positions(&Address::new(0, 3)), Vec::new());
}
