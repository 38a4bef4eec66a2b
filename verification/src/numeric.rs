//! Fixed-width unsigned integers wider than the machine's: the 256-bit token
//! amount and the 448-bit accumulator that sums and products of amounts need.

use vstd::prelude::*;

verus! {

/// 2^64, the weight of one limb.
pub open spec fn limb_base() -> int {
    0x1_0000_0000_0000_0000
}

/// 2^256, one more than the largest [`Amount`].
pub open spec fn amount_limit() -> int {
    0x1_0000_0000_0000_0000_0000_0000_0000_0000_0000_0000_0000_0000_0000_0000_0000_0000int
}

/// 2^448, one more than the largest [`Wide`].
pub open spec fn wide_limit() -> int {
    0x1_0000_0000_0000_0000_0000_0000_0000_0000_0000_0000_0000_0000_0000_0000_0000_0000_0000_0000_0000_0000_0000_0000_0000_0000_0000_0000_0000_0000int
}

/// 2^(64 k): the weight of limb `k`, for the limbs of a [`Wide`] and one
/// beyond.
pub open spec fn limb_weight(k: int) -> int {
    if k <= 0 {
        1
    } else if k == 1 {
        0x1_0000_0000_0000_0000
    } else if k == 2 {
        0x1_0000_0000_0000_0000_0000_0000_0000_0000int
    } else if k == 3 {
        0x1_0000_0000_0000_0000_0000_0000_0000_0000_0000_0000_0000_0000int
    } else if k == 4 {
        0x1_0000_0000_0000_0000_0000_0000_0000_0000_0000_0000_0000_0000_0000_0000_0000_0000int
    } else if k == 5 {
        0x1_0000_0000_0000_0000_0000_0000_0000_0000_0000_0000_0000_0000_0000_0000_0000_0000_0000_0000_0000_0000int
    } else if k == 6 {
        0x1_0000_0000_0000_0000_0000_0000_0000_0000_0000_0000_0000_0000_0000_0000_0000_0000_0000_0000_0000_0000_0000_0000_0000_0000int
    } else {
        0x1_0000_0000_0000_0000_0000_0000_0000_0000_0000_0000_0000_0000_0000_0000_0000_0000_0000_0000_0000_0000_0000_0000_0000_0000_0000_0000_0000_0000int
    }
}

/// An unsigned 256-bit integer, held as four 64-bit limbs, least significant
/// first. Token amounts are of this type, in wei.
#[derive(Clone, Copy, Debug, PartialEq, Eq, Structural)]
pub struct Amount {
    pub w0: u64,
    pub w1: u64,
    pub w2: u64,
    pub w3: u64,
}

/// An unsigned 448-bit integer, held as seven 64-bit limbs, least significant
/// first. It holds sums of amounts and of amount-seconds without loss.
#[derive(Clone, Copy, Debug, PartialEq, Eq, Structural)]
pub struct Wide {
    pub w0: u64,
    pub w1: u64,
    pub w2: u64,
    pub w3: u64,
    pub w4: u64,
    pub w5: u64,
    pub w6: u64,
}

impl View for Amount {
    type V = int;

    open spec fn view(&self) -> int {
        self.w0 as int + self.w1 as int * limb_weight(1) + self.w2 as int * limb_weight(2)
            + self.w3 as int * limb_weight(3)
    }
}

impl View for Wide {
    type V = int;

    open spec fn view(&self) -> int {
        self.w0 as int + self.w1 as int * limb_weight(1) + self.w2 as int * limb_weight(2)
            + self.w3 as int * limb_weight(3) + self.w4 as int * limb_weight(4) + self.w5 as int
            * limb_weight(5) + self.w6 as int * limb_weight(6)
    }
}

/// `a + b + carry` as a low limb and a carry out of at most one.
fn add_limb(a: u64, b: u64, carry: u64) -> (r: (u64, u64))
    requires
        carry <= 1,
    ensures
        r.0 as int + r.1 as int * limb_base() == a as int + b as int + carry as int,
        r.1 <= 1,
{
    let s: u128 = a as u128 + b as u128 + carry as u128;
    let lo: u64 = (s % 0x1_0000_0000_0000_0000u128) as u64;
    let hi: u64 = (s / 0x1_0000_0000_0000_0000u128) as u64;
    (lo, hi)
}

/// `a * m + carry` as a low limb and a high limb.
fn mul_limb(a: u64, m: u64, carry: u64) -> (r: (u64, u64))
    ensures
        r.0 as int + r.1 as int * limb_base() == a as int * m as int + carry as int,
{
    assert(a as int * m as int <= 0xffff_ffff_ffff_ffff * 0xffff_ffff_ffff_ffff) by (nonlinear_arith)
        requires
            0 <= a as int <= 0xffff_ffff_ffff_ffff,
            0 <= m as int <= 0xffff_ffff_ffff_ffff,
    ;
    assert(0 <= a as int * m as int) by (nonlinear_arith)
        requires
            0 <= a as int,
            0 <= m as int,
    ;
    let p: u128 = (a as u128) * (m as u128) + carry as u128;
    let lo: u64 = (p % 0x1_0000_0000_0000_0000u128) as u64;
    let hi: u64 = (p / 0x1_0000_0000_0000_0000u128) as u64;
    (lo, hi)
}

/// A number below `m` plus a multiple of `m` is split in one way only.
proof fn lemma_split_unique(x: int, y: int, x2: int, y2: int, m: int)
    by (nonlinear_arith)
    requires
        m > 0,
        0 <= x < m,
        0 <= x2 < m,
        x + m * y == x2 + m * y2,
    ensures
        x == x2,
        y == y2,
{
}

/// One step of a carry chain: the partial sums stay in step with the carries.
proof fn lemma_carry_step(
    rl: int,
    r: int,
    c_out: int,
    total: int,
    x: int,
    c_in: int,
    w: int,
    w_next: int,
)
    by (nonlinear_arith)
    requires
        rl + c_in * w == total,
        r + c_out * 0x1_0000_0000_0000_0000 == x + c_in,
        w_next == 0x1_0000_0000_0000_0000 * w,
    ensures
        (rl + r * w) + c_out * w_next == total + x * w,
{
}

/// The sum of the limbs below limb `k`, each with its weight.
pub open spec fn wide_low(w: Wide, k: int) -> int {
    (if k >= 1 { w.w0 as int } else { 0 })
    + (if k >= 2 { w.w1 as int * limb_weight(1) } else { 0 })
    + (if k >= 3 { w.w2 as int * limb_weight(2) } else { 0 })
    + (if k >= 4 { w.w3 as int * limb_weight(3) } else { 0 })
    + (if k >= 5 { w.w4 as int * limb_weight(4) } else { 0 })
    + (if k >= 6 { w.w5 as int * limb_weight(5) } else { 0 })
    + (if k >= 7 { w.w6 as int * limb_weight(6) } else { 0 })
}

/// The partial sums stay below the weight of the next limb, and the last one
/// is the value.
proof fn lemma_wide_low(w: Wide)
    ensures
        w@ == wide_low(w, 7),
        0 <= wide_low(w, 1) < limb_weight(1),
        0 <= wide_low(w, 2) < limb_weight(2),
        0 <= wide_low(w, 3) < limb_weight(3),
        0 <= wide_low(w, 4) < limb_weight(4),
        0 <= wide_low(w, 5) < limb_weight(5),
        0 <= wide_low(w, 6) < limb_weight(6),
        0 <= wide_low(w, 7) < limb_weight(7),
{
    assert(0 <= wide_low(w, 1) < limb_weight(1));
    assert(0 <= wide_low(w, 2) < limb_weight(2));
    assert(0 <= wide_low(w, 3) < limb_weight(3));
    assert(0 <= wide_low(w, 4) < limb_weight(4));
    assert(0 <= wide_low(w, 5) < limb_weight(5));
    assert(0 <= wide_low(w, 6) < limb_weight(6));
    assert(0 <= wide_low(w, 7) < limb_weight(7));
}

impl Amount {
    /// The amount zero.
    pub fn zero() -> (r: Amount)
        ensures
            r@ == 0,
    {
        Amount { w0: 0, w1: 0, w2: 0, w3: 0 }
    }

    /// The amount with the given value.
    pub fn from_u64(x: u64) -> (r: Amount)
        ensures
            r@ == x,
    {
        Amount { w0: x, w1: 0, w2: 0, w3: 0 }
    }

    /// The amount with the given value.
    pub fn from_u128(x: u128) -> (r: Amount)
        ensures
            r@ == x,
    {
        let lo: u64 = (x % 0x1_0000_0000_0000_0000u128) as u64;
        let hi: u64 = (x / 0x1_0000_0000_0000_0000u128) as u64;
        Amount { w0: lo, w1: hi, w2: 0, w3: 0 }
    }

    /// The amount made of four limbs, least significant first.
    pub fn from_limbs(limbs: [u64; 4]) -> (r: Amount)
        ensures
            r.w0 == limbs[0],
            r.w1 == limbs[1],
            r.w2 == limbs[2],
            r.w3 == limbs[3],
    {
        Amount { w0: limbs[0], w1: limbs[1], w2: limbs[2], w3: limbs[3] }
    }

    /// The four limbs, least significant first.
    pub fn to_limbs(&self) -> (r: [u64; 4])
        ensures
            r@ == seq![self.w0, self.w1, self.w2, self.w3],
    {
        [self.w0, self.w1, self.w2, self.w3]
    }

    /// The value as a `u64`, where it fits.
    pub fn to_u64(&self) -> (r: Option<u64>)
        ensures
            r == (if self@ <= u64::MAX { Some(self@ as u64) } else { None }),
    {
        if self.w1 == 0 && self.w2 == 0 && self.w3 == 0 {
            Some(self.w0)
        } else {
            None
        }
    }

    /// Whether the amount is zero.
    pub fn is_zero(&self) -> (r: bool)
        ensures
            r == (self@ == 0),
    {
        self.w0 == 0 && self.w1 == 0 && self.w2 == 0 && self.w3 == 0
    }

    /// The product of the amount and a 64-bit factor, which always fits.
    pub fn mul_u64(&self, m: u64) -> (r: Wide)
        ensures
            r@ == self@ * m,
            r.w5 == 0,
            r.w6 == 0,
    {
        let (r0, c0) = mul_limb(self.w0, m, 0);
        let (r1, c1) = mul_limb(self.w1, m, c0);
        let (r2, c2) = mul_limb(self.w2, m, c1);
        let (r3, c3) = mul_limb(self.w3, m, c2);
        let r = Wide { w0: r0, w1: r1, w2: r2, w3: r3, w4: c3, w5: 0, w6: 0 };
        proof {
            let mm: int = m as int;
            let p0: int = self.w0 as int * mm;
            let p1: int = self.w1 as int * mm;
            let p2: int = self.w2 as int * mm;
            let p3: int = self.w3 as int * mm;
            assert(self@ * mm == p0 + p1 * limb_weight(1) + p2 * limb_weight(2) + p3 * limb_weight(3))
                by (nonlinear_arith)
                requires
                    self@ == self.w0 as int + self.w1 as int * limb_weight(1) + self.w2 as int
                        * limb_weight(2) + self.w3 as int * limb_weight(3),
                    p0 == self.w0 as int * mm,
                    p1 == self.w1 as int * mm,
                    p2 == self.w2 as int * mm,
                    p3 == self.w3 as int * mm,
            ;
            assert(wide_low(r, 1) + c0 as int * limb_weight(1) == p0);
            assert(wide_low(r, 2) + c1 as int * limb_weight(2) == p0 + p1 * limb_weight(1));
            assert(wide_low(r, 3) + c2 as int * limb_weight(3) == p0 + p1 * limb_weight(1) + p2
                * limb_weight(2));
            assert(wide_low(r, 4) + c3 as int * limb_weight(4) == p0 + p1 * limb_weight(1) + p2
                * limb_weight(2) + p3 * limb_weight(3));
            assert(wide_low(r, 5) == wide_low(r, 4) + c3 as int * limb_weight(4));
            assert(wide_low(r, 7) == wide_low(r, 5));
            lemma_wide_low(r);
        }
        r
    }
}

impl Wide {
    /// The number zero.
    pub fn zero() -> (r: Wide)
        ensures
            r@ == 0,
    {
        Wide { w0: 0, w1: 0, w2: 0, w3: 0, w4: 0, w5: 0, w6: 0 }
    }

    /// The same number in the wider type.
    pub fn from_amount(a: Amount) -> (r: Wide)
        ensures
            r@ == a@,
    {
        Wide { w0: a.w0, w1: a.w1, w2: a.w2, w3: a.w3, w4: 0, w5: 0, w6: 0 }
    }

    /// The number with the given value.
    pub fn from_u128(x: u128) -> (r: Wide)
        ensures
            r@ == x,
    {
        Wide::from_amount(Amount::from_u128(x))
    }

    /// The seven limbs, least significant first.
    pub fn to_limbs(&self) -> (r: [u64; 7])
        ensures
            r@ == seq![self.w0, self.w1, self.w2, self.w3, self.w4, self.w5, self.w6],
    {
        [self.w0, self.w1, self.w2, self.w3, self.w4, self.w5, self.w6]
    }

    /// The sum of two numbers as seven limbs and the carry out of the last.
    fn add_with_carry(&self, other: &Wide) -> (r: (Wide, u64))
        ensures
            r.0@ + r.1 as int * wide_limit() == self@ + other@,
            r.1 <= 1,
    {
        let (r0, c0) = add_limb(self.w0, other.w0, 0);
        let (r1, c1) = add_limb(self.w1, other.w1, c0);
        let (r2, c2) = add_limb(self.w2, other.w2, c1);
        let (r3, c3) = add_limb(self.w3, other.w3, c2);
        let (r4, c4) = add_limb(self.w4, other.w4, c3);
        let (r5, c5) = add_limb(self.w5, other.w5, c4);
        let (r6, c6) = add_limb(self.w6, other.w6, c5);
        let r = Wide { w0: r0, w1: r1, w2: r2, w3: r3, w4: r4, w5: r5, w6: r6 };
        proof {
            let a = *self;
            let b = *other;
            lemma_wide_low(a);
            lemma_wide_low(b);
            lemma_wide_low(r);
            assert(wide_low(r, 1) + c0 as int * limb_weight(1) == wide_low(a, 1) + wide_low(b, 1));
            lemma_carry_step(wide_low(r, 1), r1 as int, c1 as int, wide_low(a, 1) + wide_low(b, 1),
                a.w1 as int + b.w1 as int, c0 as int, limb_weight(1), limb_weight(2));
            lemma_carry_step(wide_low(r, 2), r2 as int, c2 as int, wide_low(a, 2) + wide_low(b, 2),
                a.w2 as int + b.w2 as int, c1 as int, limb_weight(2), limb_weight(3));
            lemma_carry_step(wide_low(r, 3), r3 as int, c3 as int, wide_low(a, 3) + wide_low(b, 3),
                a.w3 as int + b.w3 as int, c2 as int, limb_weight(3), limb_weight(4));
            lemma_carry_step(wide_low(r, 4), r4 as int, c4 as int, wide_low(a, 4) + wide_low(b, 4),
                a.w4 as int + b.w4 as int, c3 as int, limb_weight(4), limb_weight(5));
            lemma_carry_step(wide_low(r, 5), r5 as int, c5 as int, wide_low(a, 5) + wide_low(b, 5),
                a.w5 as int + b.w5 as int, c4 as int, limb_weight(5), limb_weight(6));
            lemma_carry_step(wide_low(r, 6), r6 as int, c6 as int, wide_low(a, 6) + wide_low(b, 6),
                a.w6 as int + b.w6 as int, c5 as int, limb_weight(6), limb_weight(7));
            assert(wide_low(r, 7) + c6 as int * limb_weight(7) == wide_low(a, 7) + wide_low(b, 7));
            assert(limb_weight(7) == wide_limit());
        }
        (r, c6)
    }

    /// The sum of two numbers, where it fits.
    pub fn add(&self, other: &Wide) -> (r: Wide)
        requires
            self@ + other@ < wide_limit(),
        ensures
            r@ == self@ + other@,
    {
        let (r, carry) = self.add_with_carry(other);
        proof {
            lemma_wide_bound(r);
        }
        r
    }

    /// The sum of two numbers, or nothing where it does not fit.
    pub fn checked_add(&self, other: &Wide) -> (r: Option<Wide>)
        ensures
            self@ + other@ < wide_limit() ==> (r matches Some(sum) && sum@ == self@ + other@),
            self@ + other@ >= wide_limit() ==> r is None,
    {
        let (r, carry) = self.add_with_carry(other);
        proof {
            lemma_wide_bound(r);
        }
        if carry == 0 {
            Some(r)
        } else {
            None
        }
    }

    /// Whether this number is smaller than the other.
    pub fn lt(&self, other: &Wide) -> (r: bool)
        ensures
            r == (self@ < other@),
    {
        if self.w6 != other.w6 {
            self.w6 < other.w6
        } else if self.w5 != other.w5 {
            self.w5 < other.w5
        } else if self.w4 != other.w4 {
            self.w4 < other.w4
        } else if self.w3 != other.w3 {
            self.w3 < other.w3
        } else if self.w2 != other.w2 {
            self.w2 < other.w2
        } else if self.w1 != other.w1 {
            self.w1 < other.w1
        } else {
            self.w0 < other.w0
        }
    }
}

/// Two wide numbers with one value are the same limbs.
pub proof fn lemma_wide_value_unique(a: Wide, b: Wide)
    requires
        a@ == b@,
    ensures
        a == b,
{
    lemma_wide_low(a);
    lemma_wide_low(b);
    lemma_split_unique(wide_low(a, 6), a.w6 as int, wide_low(b, 6), b.w6 as int, limb_weight(6));
    lemma_split_unique(wide_low(a, 5), a.w5 as int, wide_low(b, 5), b.w5 as int, limb_weight(5));
    lemma_split_unique(wide_low(a, 4), a.w4 as int, wide_low(b, 4), b.w4 as int, limb_weight(4));
    lemma_split_unique(wide_low(a, 3), a.w3 as int, wide_low(b, 3), b.w3 as int, limb_weight(3));
    lemma_split_unique(wide_low(a, 2), a.w2 as int, wide_low(b, 2), b.w2 as int, limb_weight(2));
    lemma_split_unique(wide_low(a, 1), a.w1 as int, wide_low(b, 1), b.w1 as int, limb_weight(1));
}

/// Two amounts with one value are the same limbs.
pub proof fn lemma_amount_value_unique(a: Amount, b: Amount)
    requires
        a@ == b@,
    ensures
        a == b,
{
    let wa = Wide { w0: a.w0, w1: a.w1, w2: a.w2, w3: a.w3, w4: 0, w5: 0, w6: 0 };
    let wb = Wide { w0: b.w0, w1: b.w1, w2: b.w2, w3: b.w3, w4: 0, w5: 0, w6: 0 };
    assert(wa@ == a@);
    assert(wb@ == b@);
    lemma_wide_value_unique(wa, wb);
}

/// Every amount is below 2^256.
pub proof fn lemma_amount_bound(a: Amount)
    ensures
        0 <= a@ < amount_limit(),
{
    let wa = Wide { w0: a.w0, w1: a.w1, w2: a.w2, w3: a.w3, w4: 0, w5: 0, w6: 0 };
    lemma_wide_low(wa);
    assert(wa@ == a@);
    assert(wide_low(wa, 7) == wide_low(wa, 4));
    assert(limb_weight(4) == amount_limit());
}

/// Every wide number is below 2^448.
pub proof fn lemma_wide_bound(w: Wide)
    ensures
        0 <= w@ < wide_limit(),
{
    lemma_wide_low(w);
    assert(limb_weight(7) == wide_limit());
}

} // verus!
