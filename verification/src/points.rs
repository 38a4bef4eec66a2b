//! The points function: what a position has earned at a reference time, and
//! the sums of it over a user's positions.
//!
//! Points are exact. A position earns 0.01 SAGE point and 0.005 Formation
//! point per token and day, a token being 10^18 wei and a day 86 400
//! seconds. Both are held as whole multiples of one *unit*, the Formation
//! points that one wei earns in one second: there are [`UNITS_PER_POINT`]
//! units in a point.

use vstd::prelude::*;
use crate::numeric::{Wide, amount_limit, lemma_amount_bound, limb_weight, wide_limit};
use crate::position::{Address, Position, PositionStatus};

verus! {

/// The number of units in one point: 200 days' worth of seconds times 10^18.
pub const UNITS_PER_POINT: u128 = 17_280_000_000_000_000_000_000_000u128;

/// The number of wei in one token.
pub const WEI_PER_TOKEN: u128 = 1_000_000_000_000_000_000u128;

/// 2^320, which no product of an amount and a number of seconds reaches.
pub open spec fn stake_seconds_limit() -> int {
    limb_weight(5)
}

/// 2^384, which no sum of such products over a vector reaches.
pub open spec fn stake_sum_limit() -> int {
    limb_weight(6)
}

/// The time at which the position stopped earning, or `now` where it still
/// earns: the withdrawal timestamp where one is set; `now` for an active
/// position without one; else the deposit timestamp, so that nothing is
/// earned.
pub open spec fn end_timestamp(p: Position, now: u64) -> int {
    match p.withdrawal_initiated_timestamp {
        Some(t) => t as int,
        None => if p.status == PositionStatus::Active {
            now as int
        } else {
            p.deposit_timestamp as int
        },
    }
}

/// The seconds for which the position has earned, never negative.
pub open spec fn seconds_staked(p: Position, now: u64) -> int {
    if end_timestamp(p, now) >= p.deposit_timestamp {
        end_timestamp(p, now) - p.deposit_timestamp
    } else {
        0
    }
}

/// The amount in wei times the seconds staked: the Formation points of the
/// position in units, and half its SAGE points.
pub open spec fn stake_seconds(p: Position, now: u64) -> int {
    p.amount@ * seconds_staked(p, now)
}

/// The sum of [`stake_seconds`] over the positions of one user.
pub open spec fn user_stake_seconds(s: Seq<Position>, user: Address, now: u64) -> int
    decreases s.len(),
{
    if s.len() == 0 {
        0
    } else {
        user_stake_seconds(s.drop_last(), user, now) + if s.last().user == user {
            stake_seconds(s.last(), now)
        } else {
            0
        }
    }
}

/// The sum of the amounts, in wei, of the positions of one user that have the
/// given status.
pub open spec fn user_amount(s: Seq<Position>, user: Address, status: PositionStatus) -> int
    decreases s.len(),
{
    if s.len() == 0 {
        0
    } else {
        user_amount(s.drop_last(), user, status) + if s.last().user == user && s.last().status
            == status {
            s.last().amount@
        } else {
            0
        }
    }
}

/// SAGE and Formation points, in units.
#[derive(Clone, Copy, Debug, PartialEq, Eq)]
pub struct PointsBreakdown {
    pub sage_points: Wide,
    pub formation_points: Wide,
}

impl PointsBreakdown {
    /// The SAGE points are twice the Formation points, and both are sums of
    /// what positions earn.
    pub open spec fn well_formed(&self) -> bool {
        &&& self.sage_points@ == 2 * self.formation_points@
        &&& self.formation_points@ < stake_sum_limit()
    }

    /// The total in units, as a number.
    pub open spec fn total(&self) -> int {
        self.sage_points@ + self.formation_points@
    }

    /// No points.
    pub fn zero() -> (r: PointsBreakdown)
        ensures
            r.sage_points@ == 0,
            r.formation_points@ == 0,
            r.well_formed(),
    {
        PointsBreakdown { sage_points: Wide::zero(), formation_points: Wide::zero() }
    }

    /// The points that a number of amount-seconds is worth.
    pub fn from_stake_seconds(n: Wide) -> (r: PointsBreakdown)
        requires
            n@ < stake_sum_limit(),
        ensures
            r.formation_points == n,
            r.sage_points@ == 2 * n@,
            r.well_formed(),
    {
        PointsBreakdown { sage_points: n.add(&n), formation_points: n }
    }

    /// SAGE and Formation points together, in units.
    pub fn total_points(&self) -> (r: Wide)
        requires
            self.total() < wide_limit(),
        ensures
            r@ == self.total(),
    {
        self.sage_points.add(&self.formation_points)
    }
}

/// As many numbers below `unit` as a vector can hold add up to less than
/// 2^64 times `unit`, and with one more `unit` to no more than that.
proof fn lemma_sum_fits(count: int, unit: int, bound: int)
    by (nonlinear_arith)
    requires
        0 <= count < 0x1_0000_0000_0000_0000,
        unit > 0,
        bound == 0x1_0000_0000_0000_0000 * unit,
    ensures
        count * (unit - 1) + unit <= bound,
        count * (unit - 1) < bound,
{
}

/// An amount times a number of seconds is below 2^320.
pub proof fn lemma_stake_seconds_bound(p: Position, now: u64)
    ensures
        0 <= stake_seconds(p, now) < stake_seconds_limit(),
{
    let a = p.amount@;
    let s = seconds_staked(p, now);
    lemma_amount_bound(p.amount);
    assert(0 <= s < 0x1_0000_0000_0000_0000);
    assert(0 <= a * s && a * s <= (amount_limit() - 1) * 0xffff_ffff_ffff_ffff)
        by (nonlinear_arith)
        requires
            0 <= a <= amount_limit() - 1,
            0 <= s <= 0xffff_ffff_ffff_ffff,
    ;
}

/// The sum over a user's positions is at most 2^320 - 1 for each position.
pub proof fn lemma_user_stake_seconds_bound(s: Seq<Position>, user: Address, now: u64)
    ensures
        0 <= user_stake_seconds(s, user, now) <= s.len() * (stake_seconds_limit() - 1),
    decreases s.len(),
{
    if s.len() > 0 {
        lemma_user_stake_seconds_bound(s.drop_last(), user, now);
        lemma_stake_seconds_bound(s.last(), now);
        let m = stake_seconds_limit() - 1;
        let k = s.drop_last().len() as int;
        assert(k * m + m == (k + 1) * m) by (nonlinear_arith);
    }
}

/// The sum of a user's amounts is at most 2^256 - 1 for each position.
pub proof fn lemma_user_amount_bound(s: Seq<Position>, user: Address, status: PositionStatus)
    ensures
        0 <= user_amount(s, user, status) <= s.len() * (amount_limit() - 1),
    decreases s.len(),
{
    if s.len() > 0 {
        lemma_user_amount_bound(s.drop_last(), user, status);
        lemma_amount_bound(s.last().amount);
        let m = amount_limit() - 1;
        let k = s.drop_last().len() as int;
        assert(k * m + m == (k + 1) * m) by (nonlinear_arith);
    }
}

/// The seconds for which the position has earned at `now`.
pub fn position_seconds(p: &Position, now: u64) -> (r: u64)
    ensures
        r == seconds_staked(*p, now),
{
    let end: u64 = match p.withdrawal_initiated_timestamp {
        Some(t) => t,
        None => match p.status {
            PositionStatus::Active => now,
            _ => p.deposit_timestamp,
        },
    };
    if end >= p.deposit_timestamp {
        end - p.deposit_timestamp
    } else {
        0
    }
}

/// The amount-seconds of the position at `now`.
pub fn position_stake_seconds(p: &Position, now: u64) -> (r: Wide)
    ensures
        r@ == stake_seconds(*p, now),
{
    p.amount.mul_u64(position_seconds(p, now))
}

/// The points of one position at the reference time `now`.
pub fn position_points(p: &Position, now: u64) -> (r: PointsBreakdown)
    ensures
        r.formation_points@ == stake_seconds(*p, now),
        r.sage_points@ == 2 * stake_seconds(*p, now),
        r.well_formed(),
{
    let n = position_stake_seconds(p, now);
    proof {
        lemma_stake_seconds_bound(*p, now);
    }
    PointsBreakdown::from_stake_seconds(n)
}

/// The points of one user at the reference time `now`: the sum over all of
/// the user's positions, whatever their status.
pub fn user_points(positions: &Vec<Position>, user: &Address, now: u64) -> (r: PointsBreakdown)
    ensures
        r.formation_points@ == user_stake_seconds(positions@, *user, now),
        r.sage_points@ == 2 * user_stake_seconds(positions@, *user, now),
        r.well_formed(),
{
    let n: usize = positions.len();
    let mut acc = Wide::zero();
    let mut i: usize = 0;
    while i < n
        invariant
            i <= n,
            n == positions@.len(),
            acc@ == user_stake_seconds(positions@.take(i as int), *user, now),
        decreases n - i,
    {
        let p = &positions[i];
        proof {
            assert(positions@.take(i + 1).drop_last() == positions@.take(i as int));
            lemma_user_stake_seconds_bound(positions@.take(i as int), *user, now);
            lemma_stake_seconds_bound(*p, now);
            lemma_sum_fits(i as int, stake_seconds_limit(), stake_sum_limit());
        }
        if p.user == *user {
            let w = position_stake_seconds(p, now);
            acc = acc.add(&w);
        }
        i = i + 1;
    }
    proof {
        assert(positions@.take(n as int) == positions@);
        lemma_user_stake_seconds_bound(positions@, *user, now);
        lemma_sum_fits(n as int, stake_seconds_limit(), stake_sum_limit());
    }
    PointsBreakdown::from_stake_seconds(acc)
}

/// The sum of the amounts, in wei, of the user's positions with the status.
pub fn user_amount_with_status(positions: &Vec<Position>, user: &Address, status: PositionStatus) -> (r:
    Wide)
    ensures
        r@ == user_amount(positions@, *user, status),
{
    let n: usize = positions.len();
    let mut acc = Wide::zero();
    let mut i: usize = 0;
    while i < n
        invariant
            i <= n,
            n == positions@.len(),
            acc@ == user_amount(positions@.take(i as int), *user, status),
        decreases n - i,
    {
        let p = &positions[i];
        proof {
            assert(positions@.take(i + 1).drop_last() == positions@.take(i as int));
            lemma_user_amount_bound(positions@.take(i as int), *user, status);
            lemma_amount_bound(p.amount);
            lemma_sum_fits(i as int, amount_limit(), stake_seconds_limit());
        }
        if p.user == *user && p.status == status {
            let w = Wide::from_amount(p.amount);
            acc = acc.add(&w);
        }
        i = i + 1;
    }
    proof {
        assert(positions@.take(n as int) == positions@);
    }
    acc
}

/// The user's active, unstaking and withdrawn amounts, in wei.
pub fn user_deposits_summary(positions: &Vec<Position>, user: &Address) -> (r: (Wide, Wide, Wide))
    ensures
        r.0@ == user_amount(positions@, *user, PositionStatus::Active),
        r.1@ == user_amount(positions@, *user, PositionStatus::Unstaking),
        r.2@ == user_amount(positions@, *user, PositionStatus::Withdrawn),
{
    (
        user_amount_with_status(positions, user, PositionStatus::Active),
        user_amount_with_status(positions, user, PositionStatus::Unstaking),
        user_amount_with_status(positions, user, PositionStatus::Withdrawn),
    )
}

/// What a position that is not active has earned does not depend on the
/// reference time.
pub proof fn lemma_points_frozen(p: Position, t1: u64, t2: u64)
    requires
        p.status != PositionStatus::Active,
    ensures
        stake_seconds(p, t1) == stake_seconds(p, t2),
{
}

/// What an active position has earned never falls as the reference time
/// advances.
pub proof fn lemma_points_monotone(p: Position, t1: u64, t2: u64)
    requires
        p.status == PositionStatus::Active,
        t1 <= t2,
    ensures
        stake_seconds(p, t1) <= stake_seconds(p, t2),
{
    let a = p.amount@;
    let s1 = seconds_staked(p, t1);
    let s2 = seconds_staked(p, t2);
    lemma_amount_bound(p.amount);
    assert(s1 <= s2);
    assert(a * s1 <= a * s2) by (nonlinear_arith)
        requires
            0 <= a,
            s1 <= s2,
    ;
}

/// A user's points never fall as the reference time advances while none of
/// the user's positions changes.
pub proof fn lemma_user_points_monotone(s: Seq<Position>, user: Address, t1: u64, t2: u64)
    requires
        t1 <= t2,
    ensures
        user_stake_seconds(s, user, t1) <= user_stake_seconds(s, user, t2),
    decreases s.len(),
{
    if s.len() > 0 {
        lemma_user_points_monotone(s.drop_last(), user, t1, t2);
        let p = s.last();
        if p.status == PositionStatus::Active {
            lemma_points_monotone(p, t1, t2);
        } else {
            lemma_points_frozen(p, t1, t2);
        }
    }
}

/// The sum of [`stake_seconds`] over all positions.
pub open spec fn total_stake_seconds(s: Seq<Position>, now: u64) -> int
    decreases s.len(),
{
    if s.len() == 0 {
        0
    } else {
        total_stake_seconds(s.drop_last(), now) + stake_seconds(s.last(), now)
    }
}

/// The number of positions that have the status.
pub open spec fn count_with_status(s: Seq<Position>, status: PositionStatus) -> int
    decreases s.len(),
{
    if s.len() == 0 {
        0
    } else {
        count_with_status(s.drop_last(), status) + if s.last().status == status {
            1int
        } else {
            0int
        }
    }
}

/// The sum over all positions is at most 2^320 - 1 for each position.
pub proof fn lemma_total_stake_seconds_bound(s: Seq<Position>, now: u64)
    ensures
        0 <= total_stake_seconds(s, now) <= s.len() * (stake_seconds_limit() - 1),
    decreases s.len(),
{
    if s.len() > 0 {
        lemma_total_stake_seconds_bound(s.drop_last(), now);
        lemma_stake_seconds_bound(s.last(), now);
        let m = stake_seconds_limit() - 1;
        let k = s.drop_last().len() as int;
        assert(k * m + m == (k + 1) * m) by (nonlinear_arith);
    }
}

/// The points of all positions together at the reference time `now`.
pub fn total_points_of(positions: &Vec<Position>, now: u64) -> (r: PointsBreakdown)
    ensures
        r.formation_points@ == total_stake_seconds(positions@, now),
        r.sage_points@ == 2 * total_stake_seconds(positions@, now),
        r.well_formed(),
{
    let n: usize = positions.len();
    let mut acc = Wide::zero();
    let mut i: usize = 0;
    while i < n
        invariant
            i <= n,
            n == positions@.len(),
            acc@ == total_stake_seconds(positions@.take(i as int), now),
        decreases n - i,
    {
        let p = &positions[i];
        proof {
            assert(positions@.take(i + 1).drop_last() == positions@.take(i as int));
            lemma_total_stake_seconds_bound(positions@.take(i as int), now);
            lemma_stake_seconds_bound(*p, now);
            lemma_sum_fits(i as int, stake_seconds_limit(), stake_sum_limit());
        }
        let w = position_stake_seconds(p, now);
        acc = acc.add(&w);
        i = i + 1;
    }
    proof {
        assert(positions@.take(n as int) == positions@);
        lemma_total_stake_seconds_bound(positions@, now);
        lemma_sum_fits(n as int, stake_seconds_limit(), stake_sum_limit());
    }
    PointsBreakdown::from_stake_seconds(acc)
}

/// The number of positions that have the status.
pub fn count_positions(positions: &Vec<Position>, status: PositionStatus) -> (r: usize)
    ensures
        r == count_with_status(positions@, status),
{
    let n: usize = positions.len();
    let mut count: usize = 0;
    let mut i: usize = 0;
    while i < n
        invariant
            i <= n,
            n == positions@.len(),
            count == count_with_status(positions@.take(i as int), status),
            count <= i,
        decreases n - i,
    {
        proof {
            assert(positions@.take(i + 1).drop_last() == positions@.take(i as int));
        }
        if positions[i].status == status {
            count = count + 1;
        }
        i = i + 1;
    }
    proof {
        assert(positions@.take(n as int) == positions@);
    }
    count
}

} // verus!
