use points_calculator::db::Database;
use points_calculator::leaderboard::{
    leaderboard, leaderboard_limit, ranked_users, LeaderboardEntry, DEFAULT_LIMIT, MAX_LIMIT,
    MIN_LIMIT,
};
use points_calculator::numeric::{Amount, Wide};
use points_calculator::points::{user_points, UNITS_PER_POINT};
use points_calculator::position::{Address, Position, PositionStatus};

const T0: u64 = 1_700_000_000;
const DAY: u64 = 86_400;

fn tokens(n: u128) -> Amount {
    Amount::from_u128(n * 1_000_000_000_000_000_000)
}

fn staked(user: Address, nonce: u64, amount: Amount, days: u64) -> Position {
    Position {
        user,
        nonce,
        amount,
        deposit_timestamp: T0,
        status: PositionStatus::Unstaking,
        withdrawal_initiated_timestamp: Some(T0 + days * DAY),
        block_number: 1,
    }
}

fn user(n: u128) -> Address {
    Address::new(0, n)
}

fn points(w: &Wide) -> f64 {
    let mut value = 0.0f64;
    for limb in w.to_limbs().iter().rev() {
        value = value * 18446744073709551616.0 + *limb as f64;
    }
    value / UNITS_PER_POINT as f64
}

fn close(a: f64, b: f64) -> bool {
    (a - b).abs() <= 1e-12
}

fn check_order(board: &[LeaderboardEntry]) {
    for (k, e) in board.iter().enumerate() {
        assert_eq!(e.rank as usize, k + 1);
        assert_eq!(e.total_points, e.sage_points.add(&e.formation_points));
    }
    for pair in board.windows(2) {
        let (a, b) = (&pair[0], &pair[1]);
        assert!(!a.total_points.lt(&b.total_points));
        if a.total_points == b.total_points {
            assert!(a.address.lt(&b.address));
        }
    }
}

#[test]
fn equal_totals_are_ordered_by_address() {
    let positions = vec![
        staked(user(2), 1, tokens(1), 1),
        staked(user(3), 1, tokens(1), 2),
        staked(user(1), 1, tokens(1), 1),
    ];
    let board = leaderboard(&positions, 10, T0 + 10 * DAY);
    assert_eq!(board.len(), 3);
    assert_eq!(board[0].address, user(3));
    assert_eq!(board[1].address, user(1));
    assert_eq!(board[2].address, user(2));
    assert_eq!(board[0].rank, 1);
    assert_eq!(board[1].rank, 2);
    assert_eq!(board[2].rank, 3);
    assert!(close(points(&board[0].total_points), 0.03));
    assert!(close(points(&board[1].total_points), 0.015));
    assert!(close(points(&board[2].total_points), 0.015));
    assert!(close(points(&board[0].sage_points), 0.02));
    assert!(close(points(&board[0].formation_points), 0.01));
    check_order(&board);
}

#[test]
fn leaderboard_sums_a_users_positions_and_lists_the_user_once() {
    let positions = vec![
        staked(user(5), 1, tokens(1), 1),
        staked(user(6), 1, tokens(3), 1),
        staked(user(5), 2, tokens(1), 1),
        staked(user(5), 3, tokens(2), 1),
        staked(user(7), 1, tokens(0), 9),
    ];
    let now = T0 + 20 * DAY;
    let ranking = ranked_users(&positions, now);
    assert_eq!(ranking.len(), 3);
    assert_eq!(ranking[0].0, user(5));
    assert_eq!(ranking[1].0, user(6));
    assert_eq!(ranking[2].0, user(7));
    for (address, breakdown) in &ranking {
        assert_eq!(*breakdown, user_points(&positions, address, now));
    }
    assert_eq!(ranking[0].1.formation_points, tokens(4).mul_u64(DAY));
    assert_eq!(ranking[2].1.formation_points, Wide::zero());
    let board = leaderboard(&positions, 100, now);
    check_order(&board);
    assert_eq!(board.len(), 3);
}

#[test]
fn leaderboard_is_cut_after_the_limit() {
    let mut positions = Vec::new();
    for n in 1..=12u64 {
        positions.push(staked(user(n as u128), 1, tokens(1), 13 - n));
    }
    let full = leaderboard(&positions, 100, T0);
    assert_eq!(full.len(), 12);
    check_order(&full);
    for limit in [0usize, 1, 5, 12, 13] {
        let board = leaderboard(&positions, limit, T0);
        assert_eq!(board.len(), limit.min(12));
        assert_eq!(board[..], full[..board.len()]);
    }
    assert_eq!(full[0].address, user(1));
    assert_eq!(full[11].address, user(12));
    assert!(leaderboard(&Vec::new(), 10, T0).is_empty());
}

#[test]
fn leaderboard_does_not_depend_on_the_order_of_the_positions() {
    let a = staked(user(9), 1, tokens(7), 3);
    let b = staked(user(4), 1, tokens(7), 3);
    let c = staked(user(8), 1, tokens(1), 30);
    let d = staked(user(8), 2, tokens(1), 1);
    let one = leaderboard(&vec![a, b, c, d], 10, T0);
    let other = leaderboard(&vec![d, c, b, a], 10, T0);
    assert_eq!(one, other);
    assert_eq!(one[0].address, user(8));
    assert_eq!(one[1].address, user(4));
    assert_eq!(one[2].address, user(9));
}

#[test]
fn limit_defaults_to_ten_and_is_clamped() {
    assert_eq!(leaderboard_limit(None), 10);
    assert_eq!(leaderboard_limit(Some(1)), 1);
    assert_eq!(leaderboard_limit(Some(37)), 37);
    assert_eq!(leaderboard_limit(Some(100)), 100);
    assert_eq!(leaderboard_limit(Some(101)), 100);
    assert_eq!(leaderboard_limit(Some(i64::MAX)), 100);
    assert_eq!(leaderboard_limit(Some(0)), 1);
    assert_eq!(leaderboard_limit(Some(-5)), 1);
    assert_eq!(leaderboard_limit(Some(i64::MIN)), 1);
    assert_eq!((MIN_LIMIT, DEFAULT_LIMIT, MAX_LIMIT), (1, 10, 100));
}

#[test]
fn store_leaderboard_clamps_the_limit() {
    let mut db = Database::new();
    for n in 1..=120u64 {
        db.save_position(&staked(user(n as u128), 1, tokens(1), n));
    }
    assert_eq!(db.get_leaderboard(500, T0).len(), 100);
    assert_eq!(db.get_leaderboard(0, T0).len(), 1);
    assert_eq!(db.get_leaderboard(-3, T0).len(), 1);
    let five = db.get_leaderboard(5, T0);
    assert_eq!(five.len(), 5);
    assert_eq!(five[0].address, user(120));
    assert_eq!(five[4].address, user(116));
    assert_eq!(five[4].rank, 5);
    check_order(&db.get_leaderboard(100, T0));
}
