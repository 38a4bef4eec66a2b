//! The set of positions, one per key.

use vstd::prelude::*;
use crate::position::{Address, Position};

verus! {

/// No two positions of the sequence share a key.
pub open spec fn distinct_keys(s: Seq<Position>) -> bool {
    forall|i: int, j: int| 0 <= i < j < s.len() ==> s[i].key() != s[j].key()
}

/// Whether some position of the sequence is stored under the key.
pub open spec fn has_key(s: Seq<Position>, key: (Address, u64)) -> bool {
    exists|i: int| 0 <= i < s.len() && #[trigger] s[i].key() == key
}

/// Where the position with the key stands, if there is one.
pub open spec fn index_of(s: Seq<Position>, key: (Address, u64)) -> int {
    choose|i: int| 0 <= i < s.len() && #[trigger] s[i].key() == key
}

/// The position stored under the key, if there is one.
pub open spec fn lookup(s: Seq<Position>, key: (Address, u64)) -> Option<Position> {
    if has_key(s, key) {
        Some(s[index_of(s, key)])
    } else {
        None
    }
}

/// The sequence after storing `p` under its key: in place of the position
/// that had the key, or at the end where none had it.
pub open spec fn upserted(s: Seq<Position>, p: Position) -> Seq<Position> {
    if has_key(s, p.key()) {
        s.update(index_of(s, p.key()), p)
    } else {
        s.push(p)
    }
}

/// The sequence after storing each of `ps` in turn.
pub open spec fn upserted_all(s: Seq<Position>, ps: Seq<Position>) -> Seq<Position>
    decreases ps.len(),
{
    if ps.len() == 0 {
        s
    } else {
        upserted(upserted_all(s, ps.drop_last()), ps.last())
    }
}

/// Storing a position keeps the keys distinct and every key that was there,
/// and the stored position is found under its key.
pub proof fn lemma_upserted(s: Seq<Position>, p: Position)
    requires
        distinct_keys(s),
    ensures
        distinct_keys(upserted(s, p)),
        lookup(upserted(s, p), p.key()) == Some(p),
        forall|k: (Address, u64)| has_key(s, k) ==> has_key(upserted(s, p), k),
        forall|k: (Address, u64)| k != p.key() ==> lookup(upserted(s, p), k) == lookup(s, k),
{
    let t = upserted(s, p);
    if has_key(s, p.key()) {
        let at = index_of(s, p.key());
        assert(t[at].key() == p.key());
        assert forall|k: (Address, u64)| has_key(s, k) implies has_key(t, k) by {
            let i = index_of(s, k);
            assert(t[i].key() == k);
        }
        assert forall|k: (Address, u64)| k != p.key() implies lookup(t, k) == lookup(s, k) by {
            if has_key(s, k) {
                let i = index_of(s, k);
                assert(t[i].key() == k);
                let j = index_of(t, k);
                assert(s[j].key() == k);
            } else {
                if has_key(t, k) {
                    let j = index_of(t, k);
                    assert(s[j].key() == k);
                }
            }
        }
    } else {
        let at = s.len() as int;
        assert(t[at].key() == p.key());
        assert forall|i: int, j: int| 0 <= i < j < t.len() implies t[i].key() != t[j].key() by {
            if j == at {
                assert(s[i].key() != p.key());
            }
        }
        assert forall|k: (Address, u64)| has_key(s, k) implies has_key(t, k) by {
            let i = index_of(s, k);
            assert(t[i].key() == k);
        }
        assert forall|k: (Address, u64)| k != p.key() implies lookup(t, k) == lookup(s, k) by {
            if has_key(s, k) {
                let i = index_of(s, k);
                assert(t[i].key() == k);
                let j = index_of(t, k);
                assert(s[j].key() == k);
            } else {
                if has_key(t, k) {
                    let j = index_of(t, k);
                    assert(s[j].key() == k);
                }
            }
        }
    }
    let j = index_of(t, p.key());
    assert(t[j].key() == p.key());
}

/// Storing the same position twice is as good as once.
pub proof fn lemma_upsert_is_idempotent(s: Seq<Position>, p: Position)
    requires
        distinct_keys(s),
    ensures
        upserted(upserted(s, p), p) == upserted(s, p),
{
    lemma_upserted(s, p);
    let t = upserted(s, p);
    let i = index_of(t, p.key());
    assert(t[i].key() == p.key());
    assert(t.update(i, p) =~= t);
}

/// Storing several positions keeps the keys distinct and every key that was
/// there.
pub proof fn lemma_upserted_all(s: Seq<Position>, ps: Seq<Position>)
    requires
        distinct_keys(s),
    ensures
        distinct_keys(upserted_all(s, ps)),
        forall|k: (Address, u64)| has_key(s, k) ==> has_key(upserted_all(s, ps), k),
    decreases ps.len(),
{
    if ps.len() > 0 {
        lemma_upserted_all(s, ps.drop_last());
        lemma_upserted(upserted_all(s, ps.drop_last()), ps.last());
    }
}

/// A set of positions in which no key occurs twice.
pub struct PositionBook {
    rows: Vec<Position>,
}

impl View for PositionBook {
    type V = Seq<Position>;

    closed spec fn view(&self) -> Seq<Position> {
        self.rows@
    }
}

impl PositionBook {
    /// The invariant of the type: no key occurs twice.
    pub open spec fn wf(&self) -> bool {
        distinct_keys(self@)
    }

    /// The empty set.
    pub fn new() -> (r: PositionBook)
        ensures
            r@ == Seq::<Position>::empty(),
            r.wf(),
    {
        PositionBook { rows: Vec::new() }
    }

    /// The number of positions.
    pub fn len(&self) -> (r: usize)
        ensures
            r == self@.len(),
    {
        self.rows.len()
    }

    /// The positions, in the order in which their keys first came.
    pub fn rows(&self) -> (r: &Vec<Position>)
        ensures
            r@ == self@,
    {
        &self.rows
    }

    /// Where the position with the given key stands.
    fn find(&self, user: &Address, nonce: u64) -> (r: Option<usize>)
        requires
            self.wf(),
        ensures
            match r {
                Some(i) => i < self@.len() && self@[i as int].key() == (*user, nonce) && has_key(
                    self@,
                    (*user, nonce),
                ) && index_of(self@, (*user, nonce)) == i,
                None => !has_key(self@, (*user, nonce)),
            },
    {
        let n: usize = self.rows.len();
        let mut i: usize = 0;
        while i < n
            invariant
                i <= n,
                n == self.rows@.len(),
                distinct_keys(self.rows@),
                forall|j: int| 0 <= j < i ==> (#[trigger] self.rows@[j]).key() != (*user, nonce),
            decreases n - i,
        {
            if self.rows[i].has_key(user, nonce) {
                proof {
                    let k = (*user, nonce);
                    assert(self.rows@[i as int].key() == k);
                    let c = index_of(self.rows@, k);
                    assert(c == i);
                }
                return Some(i);
            }
            i = i + 1;
        }
        None
    }

    /// The position stored under the key, if there is one.
    pub fn get(&self, user: &Address, nonce: u64) -> (r: Option<Position>)
        requires
            self.wf(),
        ensures
            r == lookup(self@, (*user, nonce)),
    {
        match self.find(user, nonce) {
            Some(i) => Some(self.rows[i]),
            None => None,
        }
    }

    /// Stores the position under its key, in place of the one that had it.
    pub fn upsert(&mut self, p: Position)
        requires
            old(self).wf(),
        ensures
            final(self)@ == upserted(old(self)@, p),
            final(self).wf(),
    {
        proof {
            lemma_upserted(self.rows@, p);
        }
        match self.find(&p.user, p.nonce) {
            Some(i) => {
                self.rows.set(i, p);
            },
            None => {
                self.rows.push(p);
            },
        }
    }

    /// Stores each of the positions in turn.
    pub fn upsert_all(&mut self, ps: &Vec<Position>)
        requires
            old(self).wf(),
        ensures
            final(self)@ == upserted_all(old(self)@, ps@),
            final(self).wf(),
    {
        let n: usize = ps.len();
        let mut i: usize = 0;
        while i < n
            invariant
                i <= n,
                n == ps@.len(),
                self@ == upserted_all(old(self)@, ps@.take(i as int)),
                self.wf(),
            decreases n - i,
        {
            proof {
                assert(ps@.take(i + 1).drop_last() == ps@.take(i as int));
            }
            self.upsert(ps[i]);
            i = i + 1;
        }
        proof {
            assert(ps@.take(n as int) == ps@);
        }
    }

    /// The set that holds the given rows, a later row taking the place of an
    /// earlier one with its key.
    pub fn from_rows(rows: &Vec<Position>) -> (r: PositionBook)
        ensures
            r@ == upserted_all(Seq::<Position>::empty(), rows@),
            r.wf(),
    {
        let mut book = PositionBook::new();
        book.upsert_all(rows);
        book
    }

    /// A copy of the set.
    pub fn duplicate(&self) -> (r: PositionBook)
        ensures
            r@ == self@,
            r.wf() == self.wf(),
    {
        let n: usize = self.rows.len();
        let mut rows: Vec<Position> = Vec::new();
        let mut i: usize = 0;
        while i < n
            invariant
                i <= n,
                n == self.rows@.len(),
                rows@ == self.rows@.take(i as int),
            decreases n - i,
        {
            rows.push(self.rows[i]);
            proof {
                assert(self.rows@.take(i + 1) == self.rows@.take(i as int).push(self.rows@[i as int]));
            }
            i = i + 1;
        }
        proof {
            assert(self.rows@.take(n as int) == self.rows@);
        }
        PositionBook { rows }
    }
}

} // verus!
