//! The leaderboard: the users by total points, highest first, equal totals
//! by address ascending.

use vstd::prelude::*;
use crate::numeric::{Wide, wide_limit};
use crate::points::{PointsBreakdown, stake_sum_limit, user_points, user_stake_seconds};
use crate::position::{Address, Position, lemma_address_value_unique};

verus! {

/// The smallest number of entries that can be asked for.
pub const MIN_LIMIT: i64 = 1;

/// The largest number of entries that can be asked for.
pub const MAX_LIMIT: i64 = 100;

/// The number of entries given where none is asked for.
pub const DEFAULT_LIMIT: i64 = 10;

/// One line of the leaderboard. Points are in units.
#[derive(Clone, Copy, Debug, PartialEq, Eq)]
pub struct LeaderboardEntry {
    /// The place, counted from 1.
    pub rank: i32,
    pub address: Address,
    pub sage_points: Wide,
    pub formation_points: Wide,
    pub total_points: Wide,
}

/// Whether the user has a position.
pub open spec fn has_user(s: Seq<Position>, user: Address) -> bool {
    exists|i: int| 0 <= i < s.len() && (#[trigger] s[i]).user == user
}

/// The user's total points at `now`, in units: SAGE and Formation together.
pub open spec fn user_total(s: Seq<Position>, user: Address, now: u64) -> int {
    3 * user_stake_seconds(s, user, now)
}

/// Whether user `a` stands before user `b` on the leaderboard: by the higher
/// total, and between equal totals by the lower address.
pub open spec fn ranks_before(s: Seq<Position>, now: u64, a: Address, b: Address) -> bool {
    user_total(s, a, now) > user_total(s, b, now) || (user_total(s, a, now) == user_total(
        s,
        b,
        now,
    ) && a@ < b@)
}

/// Whether the pair is a user with a position and that user's points.
pub open spec fn is_user_entry(s: Seq<Position>, now: u64, e: (Address, PointsBreakdown)) -> bool {
    &&& has_user(s, e.0)
    &&& e.1.formation_points@ == user_stake_seconds(s, e.0, now)
    &&& e.1.sage_points@ == 2 * user_stake_seconds(s, e.0, now)
}

/// Whether the pairs are users with their points, each before the next on
/// the leaderboard.
pub open spec fn is_ranking(s: Seq<Position>, now: u64, r: Seq<(Address, PointsBreakdown)>) -> bool {
    &&& forall|k: int| 0 <= k < r.len() ==> is_user_entry(s, now, #[trigger] r[k])
    &&& forall|a: int, b: int|
        0 <= a < b < r.len() ==> ranks_before(s, now, (#[trigger] r[a]).0, (#[trigger] r[b]).0)
}

/// Whether the user is among the pairs.
pub open spec fn ranking_has(r: Seq<(Address, PointsBreakdown)>, user: Address) -> bool {
    exists|k: int| 0 <= k < r.len() && (#[trigger] r[k]).0 == user
}

/// The limit that a request means: 10 where none is given, and otherwise the
/// number asked for, but at least 1 and at most 100.
pub open spec fn effective_limit(limit: Option<i64>) -> int {
    match limit {
        None => 10,
        Some(n) => if n < 1 {
            1
        } else if n > 100 {
            100
        } else {
            n as int
        },
    }
}

/// The limit that a request means.
pub fn leaderboard_limit(limit: Option<i64>) -> (r: usize)
    ensures
        r == effective_limit(limit),
        1 <= r <= 100,
{
    let n: i64 = match limit {
        None => DEFAULT_LIMIT,
        Some(n) => if n < MIN_LIMIT {
            MIN_LIMIT
        } else if n > MAX_LIMIT {
            MAX_LIMIT
        } else {
            n
        },
    };
    n as usize
}

/// Whether the first pair stands before the second.
fn entry_ranks_before(
    a: &(Address, PointsBreakdown),
    b: &(Address, PointsBreakdown),
    Ghost(s): Ghost<Seq<Position>>,
    Ghost(now): Ghost<u64>,
) -> (r: bool)
    requires
        is_user_entry(s, now, *a),
        is_user_entry(s, now, *b),
        a.1.well_formed(),
        b.1.well_formed(),
    ensures
        r == ranks_before(s, now, a.0, b.0),
{
    proof {
        assert(3 * stake_sum_limit() < wide_limit());
    }
    let ta = a.1.total_points();
    let tb = b.1.total_points();
    if tb.lt(&ta) {
        true
    } else if ta.lt(&tb) {
        false
    } else {
        a.0.lt(&b.0)
    }
}

/// Whether the user is among the pairs.
fn ranking_contains(out: &Vec<(Address, PointsBreakdown)>, user: &Address) -> (r: bool)
    ensures
        r == ranking_has(out@, *user),
{
    let n: usize = out.len();
    let mut k: usize = 0;
    while k < n
        invariant
            k <= n,
            n == out@.len(),
            forall|j: int| 0 <= j < k ==> (#[trigger] out@[j]).0 != *user,
        decreases n - k,
    {
        if out[k].0 == *user {
            return true;
        }
        k = k + 1;
    }
    false
}

/// Every user that has a position, with the user's points at `now`, ordered
/// by total points, highest first, and between equal totals by address
/// ascending. Each user stands there once.
pub fn ranked_users(positions: &Vec<Position>, now: u64) -> (r: Vec<(Address, PointsBreakdown)>)
    ensures
        is_ranking(positions@, now, r@),
        forall|user: Address| has_user(positions@, user) ==> ranking_has(r@, user),
        forall|k: int| 0 <= k < r@.len() ==> (#[trigger] r@[k]).1.well_formed(),
{
    let ghost s = positions@;
    let n: usize = positions.len();
    let mut out: Vec<(Address, PointsBreakdown)> = Vec::new();
    let mut i: usize = 0;
    while i < n
        invariant
            i <= n,
            n == positions@.len(),
            s == positions@,
            is_ranking(s, now, out@),
            forall|k: int| 0 <= k < out@.len() ==> (#[trigger] out@[k]).1.well_formed(),
            forall|j: int| 0 <= j < i ==> ranking_has(out@, (#[trigger] s[j]).user),
        decreases n - i,
    {
        let user = positions[i].user;
        if !ranking_contains(&out, &user) {
            let entry = (user, user_points(positions, &user, now));
            assert(is_user_entry(s, now, entry)) by {
                assert(s[i as int].user == user);
            }
            let m: usize = out.len();
            let mut p: usize = 0;
            while p < m && entry_ranks_before(&out[p], &entry, Ghost(s), Ghost(now))
                invariant
                    p <= m,
                    m == out@.len(),
                    is_ranking(s, now, out@),
                    is_user_entry(s, now, entry),
                    entry.1.well_formed(),
                    forall|k: int| 0 <= k < out@.len() ==> (#[trigger] out@[k]).1.well_formed(),
                    forall|k: int| 0 <= k < p ==> ranks_before(s, now, (#[trigger] out@[k]).0, entry.0),
                decreases m - p,
            {
                p = p + 1;
            }
            let ghost before = out@;
            out.insert(p, entry);
            proof {
                let after = out@;
                assert(after.len() == before.len() + 1);
                assert forall|k: int| 0 <= k < after.len() implies #[trigger] after[k] == (if k < p {
                    before[k]
                } else if k == p {
                    entry
                } else {
                    before[k - 1]
                }) by {}
                assert forall|k: int| 0 <= k < before.len() implies (#[trigger] before[k]).0
                    != entry.0 by {}
                assert forall|k: int| p <= k < before.len() implies ranks_before(
                    s,
                    now,
                    entry.0,
                    (#[trigger] before[k]).0,
                ) by {
                    assert(!ranks_before(s, now, before[p as int].0, entry.0));
                    assert(before[p as int].0 != entry.0);
                    if before[p as int].0@ == entry.0@ {
                        lemma_address_value_unique(before[p as int].0, entry.0);
                    }
                    if k > p {
                        assert(ranks_before(s, now, before[p as int].0, before[k].0));
                    }
                }
                assert forall|a: int, b: int| 0 <= a < b < after.len() implies ranks_before(
                    s,
                    now,
                    (#[trigger] after[a]).0,
                    (#[trigger] after[b]).0,
                ) by {
                    if b < p {
                        assert(ranks_before(s, now, before[a].0, before[b].0));
                    } else if b == p {
                        assert(ranks_before(s, now, before[a].0, entry.0));
                    } else if a < p {
                        assert(ranks_before(s, now, before[a].0, before[b - 1].0));
                    } else if a == p {
                        assert(ranks_before(s, now, entry.0, before[b - 1].0));
                    } else {
                        assert(ranks_before(s, now, before[a - 1].0, before[b - 1].0));
                    }
                }
                assert forall|j: int| 0 <= j < i + 1 implies ranking_has(
                    after,
                    (#[trigger] s[j]).user,
                ) by {
                    if j < i {
                        assert(ranking_has(before, s[j].user));
                        let k = choose|k: int|
                            0 <= k < before.len() && (#[trigger] before[k]).0 == s[j].user;
                        if k < p {
                            assert(after[k].0 == s[j].user);
                        } else {
                            assert(after[k + 1].0 == s[j].user);
                        }
                    } else {
                        assert(after[p as int].0 == s[j].user);
                    }
                }
            }
        }
        i = i + 1;
    }
    proof {
        assert forall|user: Address| has_user(s, user) implies ranking_has(out@, user) by {
            let j = choose|j: int| 0 <= j < s.len() && (#[trigger] s[j]).user == user;
            assert(ranking_has(out@, s[j].user));
        }
    }
    out
}

/// Whether the entries are the leaderboard of the positions at `now`, cut
/// after `limit` entries: ranks count up from 1; each entry is a user that
/// has a position, with that user's points; each stands before the next;
/// and a user that is left out stands after every entry, the board being
/// full.
pub open spec fn is_leaderboard(
    s: Seq<Position>,
    now: u64,
    limit: int,
    r: Seq<LeaderboardEntry>,
) -> bool {
    &&& r.len() <= limit
    &&& forall|k: int| 0 <= k < r.len() ==> (#[trigger] r[k]).rank == k + 1
    &&& forall|k: int|
        0 <= k < r.len() ==> {
            &&& has_user(s, (#[trigger] r[k]).address)
            &&& r[k].formation_points@ == user_stake_seconds(s, r[k].address, now)
            &&& r[k].sage_points@ == 2 * user_stake_seconds(s, r[k].address, now)
            &&& r[k].total_points@ == r[k].sage_points@ + r[k].formation_points@
        }
    &&& forall|a: int, b: int|
        0 <= a < b < r.len() ==> ranks_before(
            s,
            now,
            (#[trigger] r[a]).address,
            (#[trigger] r[b]).address,
        )
    &&& forall|user: Address|
        has_user(s, user) ==> {
            ||| exists|k: int| 0 <= k < r.len() && (#[trigger] r[k]).address == user
            ||| (r.len() == limit && forall|k: int|
                0 <= k < r.len() ==> ranks_before(s, now, (#[trigger] r[k]).address, user))
        }
}

/// The first `limit` users by total points at `now`, each with its rank.
pub fn leaderboard(positions: &Vec<Position>, limit: usize, now: u64) -> (r: Vec<LeaderboardEntry>)
    requires
        limit <= MAX_LIMIT,
    ensures
        is_leaderboard(positions@, now, limit as int, r@),
{
    let ghost s = positions@;
    let ranking = ranked_users(positions, now);
    let total: usize = ranking.len();
    let count: usize = if total < limit {
        total
    } else {
        limit
    };
    let mut out: Vec<LeaderboardEntry> = Vec::new();
    let mut k: usize = 0;
    while k < count
        invariant
            k <= count,
            count <= total,
            count <= 100,
            total == ranking@.len(),
            out@.len() == k,
            is_ranking(s, now, ranking@),
            forall|j: int| 0 <= j < ranking@.len() ==> (#[trigger] ranking@[j]).1.well_formed(),
            forall|j: int|
                0 <= j < k ==> {
                    &&& (#[trigger] out@[j]).rank == j + 1
                    &&& out@[j].address == ranking@[j].0
                    &&& out@[j].formation_points == ranking@[j].1.formation_points
                    &&& out@[j].sage_points == ranking@[j].1.sage_points
                    &&& out@[j].total_points@ == out@[j].sage_points@ + out@[j].formation_points@
                },
        decreases count - k,
    {
        let e = &ranking[k];
        proof {
            assert(3 * stake_sum_limit() < wide_limit());
        }
        let entry = LeaderboardEntry {
            rank: (k + 1) as i32,
            address: e.0,
            sage_points: e.1.sage_points,
            formation_points: e.1.formation_points,
            total_points: e.1.total_points(),
        };
        out.push(entry);
        k = k + 1;
    }
    proof {
        let r = out@;
        assert forall|j: int| 0 <= j < r.len() implies {
            &&& has_user(s, (#[trigger] r[j]).address)
            &&& r[j].formation_points@ == user_stake_seconds(s, r[j].address, now)
            &&& r[j].sage_points@ == 2 * user_stake_seconds(s, r[j].address, now)
            &&& r[j].total_points@ == r[j].sage_points@ + r[j].formation_points@
        } by {
            assert(is_user_entry(s, now, ranking@[j]));
        }
        assert forall|a: int, b: int| 0 <= a < b < r.len() implies ranks_before(
            s,
            now,
            (#[trigger] r[a]).address,
            (#[trigger] r[b]).address,
        ) by {
            assert(ranks_before(s, now, ranking@[a].0, ranking@[b].0));
        }
        assert forall|user: Address| has_user(s, user) implies {
            ||| exists|k: int| 0 <= k < r.len() && (#[trigger] r[k]).address == user
            ||| (r.len() == limit && forall|k: int|
                0 <= k < r.len() ==> ranks_before(s, now, (#[trigger] r[k]).address, user))
        } by {
            assert(ranking_has(ranking@, user));
            let at = choose|k: int| 0 <= k < ranking@.len() && (#[trigger] ranking@[k]).0 == user;
            if at < r.len() {
                assert(r[at].address == user);
            } else {
                assert forall|k: int| 0 <= k < r.len() implies ranks_before(
                    s,
                    now,
                    (#[trigger] r[k]).address,
                    user,
                ) by {
                    assert(ranks_before(s, now, ranking@[k].0, ranking@[at].0));
                }
            }
        }
    }
    out
}

/// On a leaderboard no user stands twice, and the totals never rise from
/// one place to the next.
pub proof fn lemma_leaderboard_order(s: Seq<Position>, now: u64, limit: int, r: Seq<LeaderboardEntry>)
    requires
        is_leaderboard(s, now, limit, r),
    ensures
        forall|a: int, b: int|
            0 <= a < b < r.len() ==> (#[trigger] r[a]).address != (#[trigger] r[b]).address,
        forall|a: int, b: int|
            0 <= a < b < r.len() ==> (#[trigger] r[a]).total_points@ >= (
            #[trigger] r[b]).total_points@,
        forall|a: int, b: int|
            0 <= a < b < r.len() && (#[trigger] r[a]).total_points@ == (
            #[trigger] r[b]).total_points@ ==> r[a].address@ < r[b].address@,
{
    assert forall|a: int, b: int| 0 <= a < b < r.len() implies (#[trigger] r[a]).address != (
    #[trigger] r[b]).address && r[a].total_points@ >= r[b].total_points@ && (r[a].total_points@
        == r[b].total_points@ ==> r[a].address@ < r[b].address@) by {
        assert(ranks_before(s, now, r[a].address, r[b].address));
    }
}

/// The leaderboard is one: two results that meet the contract are the same
/// users in the same places with the same points.
pub proof fn lemma_leaderboard_unique(
    s: Seq<Position>,
    now: u64,
    limit: int,
    r1: Seq<LeaderboardEntry>,
    r2: Seq<LeaderboardEntry>,
)
    requires
        is_leaderboard(s, now, limit, r1),
        is_leaderboard(s, now, limit, r2),
    ensures
        r1.len() == r2.len(),
        forall|k: int| 0 <= k < r1.len() ==> (#[trigger] r1[k]).address == r2[k].address,
{
    lemma_leaderboard_prefix(s, now, limit, r1, r2, r1.len() as int);
    lemma_leaderboard_prefix(s, now, limit, r2, r1, r2.len() as int);
}

/// Two leaderboards agree on their first `n` places, as far as the first
/// one goes.
proof fn lemma_leaderboard_prefix(
    s: Seq<Position>,
    now: u64,
    limit: int,
    r1: Seq<LeaderboardEntry>,
    r2: Seq<LeaderboardEntry>,
    n: int,
)
    requires
        is_leaderboard(s, now, limit, r1),
        is_leaderboard(s, now, limit, r2),
        0 <= n <= r1.len(),
    ensures
        n <= r2.len(),
        forall|k: int| 0 <= k < n ==> (#[trigger] r1[k]).address == r2[k].address,
    decreases n,
{
    if n > 0 {
        lemma_leaderboard_prefix(s, now, limit, r1, r2, n - 1);
        let m = n - 1;
        let u = r1[m].address;
        assert(has_user(s, u));
        // u stands in r2: otherwise r2 is full with users before u, all of
        // which r1 would have to hold before place m as well.
        lemma_leaderboard_order(s, now, limit, r1);
        lemma_leaderboard_order(s, now, limit, r2);
        if exists|k: int| 0 <= k < r2.len() && (#[trigger] r2[k]).address == u {
            let k2 = choose|k: int| 0 <= k < r2.len() && (#[trigger] r2[k]).address == u;
            if k2 < m {
                assert(r1[k2].address == r2[k2].address);
                assert(r1[k2].address != r1[m].address);
            } else if k2 > m {
                // the user at place m of r2 stands before u, so it is in r1
                // before place m, where r1 and r2 agree: it is twice in r2.
                let v = r2[m].address;
                assert(ranks_before(s, now, v, u));
                assert(has_user(s, v));
                if exists|k: int| 0 <= k < r1.len() && (#[trigger] r1[k]).address == v {
                    let k1 = choose|k: int| 0 <= k < r1.len() && (#[trigger] r1[k]).address == v;
                    if k1 < m {
                        assert(r2[k1].address == r1[k1].address);
                        assert(r2[k1].address != r2[m].address);
                    } else if k1 > m {
                        assert(ranks_before(s, now, r1[m].address, r1[k1].address));
                    } else {
                    }
                } else {
                    assert(ranks_before(s, now, r1[m].address, v));
                }
            } else {
            }
        } else {
            assert(r2.len() == limit);
            assert(m < r2.len());
            let v = r2[m].address;
            assert(ranks_before(s, now, v, u));
            assert(has_user(s, v));
            if exists|k: int| 0 <= k < r1.len() && (#[trigger] r1[k]).address == v {
                let k1 = choose|k: int| 0 <= k < r1.len() && (#[trigger] r1[k]).address == v;
                if k1 < m {
                    assert(r2[k1].address == r1[k1].address);
                    assert(r2[k1].address != r2[m].address);
                } else if k1 > m {
                    assert(ranks_before(s, now, r1[m].address, r1[k1].address));
                } else {
                }
            } else {
                assert(ranks_before(s, now, r1[m].address, v));
            }
        }
    }
}

} // verus!
