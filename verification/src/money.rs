//! Fixed-point monetary values.
//!
//! All funds, prices, volumes and commissions are held as integers scaled by
//! `MONEY_SCALE`, so monetary arithmetic is exact integer arithmetic and is
//! never carried out in binary floating point.

use vstd::prelude::*;

verus! {

/// Number of fixed-point units per whole currency unit.
pub const MONEY_SCALE: i128 = 10_000;

/// Largest magnitude (in raw units) a monetary amount at rest may take.
pub const MONEY_MAX_RAW: i128 = 1_000_000_000_000_000_000;

/// Largest magnitude (in raw units) an intermediate cost value may take
/// (a product of two bounded amounts, already rescaled).
pub const COST_MAX_RAW: i128 = 100_000_000_000_000_000_000_000_000_000_000;

/// A monetary amount: `raw` fixed-point units of `1 / MONEY_SCALE` currency.
#[derive(Clone, Copy, PartialEq, Eq, Structural, Debug, Hash)]
pub struct Money {
    pub raw: i128,
}

impl View for Money {
    type V = int;

    open spec fn view(&self) -> int {
        self.raw as int
    }
}

/// A value small enough to be held in an account or a position.
pub open spec fn m_bounded(v: int) -> bool {
    -(MONEY_MAX_RAW as int) <= v <= MONEY_MAX_RAW as int
}

/// A value small enough to appear as an intermediate cost.
pub open spec fn m_cost_bounded(v: int) -> bool {
    -(COST_MAX_RAW as int) <= v <= COST_MAX_RAW as int
}

/// Fixed-point product of two non-negative raw values.
pub open spec fn m_mul(a: int, b: int) -> int {
    (a * b) / (MONEY_SCALE as int)
}

/// Fixed-point quotient of two raw values, the divisor positive.
pub open spec fn m_div(a: int, b: int) -> int {
    (a * (MONEY_SCALE as int)) / b
}

impl Money {
    /// The zero amount.
    pub fn zero() -> (r: Money)
        ensures
            r@ == 0,
    {
        Money { raw: 0 }
    }

    /// An amount given directly in raw fixed-point units.
    pub fn from_raw(raw: i128) -> (r: Money)
        ensures
            r@ == raw as int,
    {
        Money { raw }
    }

    /// An amount of `i` whole currency units.
    pub fn from_int(i: i64) -> (r: Money)
        requires
            -100_000_000_000_000 <= i <= 100_000_000_000_000,
        ensures
            r@ == i as int * MONEY_SCALE as int,
            m_bounded(r@),
    {
        Money { raw: (i as i128) * MONEY_SCALE }
    }

    pub fn is_zero(self) -> (r: bool)
        ensures
            r == (self@ == 0),
    {
        self.raw == 0
    }

    pub fn is_neg(self) -> (r: bool)
        ensures
            r == (self@ < 0),
    {
        self.raw < 0
    }

    pub fn is_pos(self) -> (r: bool)
        ensures
            r == (self@ > 0),
    {
        self.raw > 0
    }

    pub fn le(self, o: Money) -> (r: bool)
        ensures
            r == (self@ <= o@),
    {
        self.raw <= o.raw
    }

    pub fn lt(self, o: Money) -> (r: bool)
        ensures
            r == (self@ < o@),
    {
        self.raw < o.raw
    }

    pub fn ge(self, o: Money) -> (r: bool)
        ensures
            r == (self@ >= o@),
    {
        self.raw >= o.raw
    }

    pub fn gt(self, o: Money) -> (r: bool)
        ensures
            r == (self@ > o@),
    {
        self.raw > o.raw
    }

    /// Exact sum; the operands must be within the cost range.
    pub fn add(self, o: Money) -> (r: Money)
        requires
            m_cost_bounded(self@),
            m_cost_bounded(o@),
        ensures
            r@ == self@ + o@,
    {
        Money { raw: self.raw + o.raw }
    }

    /// Exact difference; the operands must be within the cost range.
    pub fn sub(self, o: Money) -> (r: Money)
        requires
            m_cost_bounded(self@),
            m_cost_bounded(o@),
        ensures
            r@ == self@ - o@,
    {
        Money { raw: self.raw - o.raw }
    }

    /// Exact negation.
    pub fn neg(self) -> (r: Money)
        requires
            m_cost_bounded(self@),
        ensures
            r@ == -self@,
    {
        Money { raw: -self.raw }
    }

    /// Absolute value.
    pub fn abs(self) -> (r: Money)
        requires
            m_cost_bounded(self@),
        ensures
            r@ == if self@ >= 0 { self@ } else { -self@ },
    {
        if self.raw < 0 {
            Money { raw: -self.raw }
        } else {
            self
        }
    }

    /// Fixed-point product of two non-negative bounded amounts.
    pub fn mul(self, o: Money) -> (r: Money)
        requires
            0 <= self@ <= MONEY_MAX_RAW as int,
            0 <= o@ <= MONEY_MAX_RAW as int,
        ensures
            r@ == m_mul(self@, o@),
            0 <= r@,
            m_cost_bounded(r@),
    {
        proof {
            lemma_mul_bounds(self@, o@);
        }
        let a: u128 = self.raw as u128;
        let b: u128 = o.raw as u128;
        let p: u128 = (a * b) / (MONEY_SCALE as u128);
        Money { raw: p as i128 }
    }

    /// Multiply a bounded non-negative amount by a fraction of at most one;
    /// the result never exceeds the amount.
    pub fn mul_fraction(self, frac: Money) -> (r: Money)
        requires
            0 <= self@ <= MONEY_MAX_RAW as int,
            0 <= frac@ <= MONEY_SCALE as int,
        ensures
            r@ == m_mul(self@, frac@),
            0 <= r@ <= self@,
    {
        proof {
            let s = MONEY_SCALE as int;
            vstd::arithmetic::mul::lemma_mul_inequality(frac@, s, self@);
            vstd::arithmetic::mul::lemma_mul_is_commutative(self@, frac@);
            vstd::arithmetic::mul::lemma_mul_is_commutative(self@, s);
            vstd::arithmetic::div_mod::lemma_div_is_ordered(self@ * frac@, self@ * s, s);
            vstd::arithmetic::div_mod::lemma_div_multiples_vanish(self@, s);
        }
        self.mul(frac)
    }

    /// Fixed-point quotient: a non-negative cost divided by a positive
    /// bounded amount.
    pub fn div(self, o: Money) -> (r: Money)
        requires
            0 <= self@ <= 100 * (COST_MAX_RAW as int),
            0 < o@ <= MONEY_MAX_RAW as int,
        ensures
            r@ == m_div(self@, o@),
            0 <= r@,
    {
        proof {
            lemma_div_bounds(self@, o@);
        }
        let a: u128 = self.raw as u128;
        let b: u128 = o.raw as u128;
        let q: u128 = (a * (MONEY_SCALE as u128)) / b;
        Money { raw: q as i128 }
    }
}

proof fn lemma_mul_bounds(a: int, b: int)
    requires
        0 <= a <= MONEY_MAX_RAW as int,
        0 <= b <= MONEY_MAX_RAW as int,
    ensures
        0 <= a * b <= (MONEY_MAX_RAW as int) * (MONEY_MAX_RAW as int),
        0 <= m_mul(a, b) <= COST_MAX_RAW as int,
{
    vstd::arithmetic::mul::lemma_mul_nonnegative(a, b);
    vstd::arithmetic::mul::lemma_mul_upper_bound(a, MONEY_MAX_RAW as int, b, MONEY_MAX_RAW as int);
    vstd::arithmetic::div_mod::lemma_div_pos_is_pos(a * b, MONEY_SCALE as int);
    vstd::arithmetic::div_mod::lemma_div_is_ordered(
        a * b,
        (MONEY_MAX_RAW as int) * (MONEY_MAX_RAW as int),
        MONEY_SCALE as int,
    );
}

/// `m_mul` is monotone in its second argument.
pub proof fn lemma_m_mul_mono_right(p: int, v1: int, v2: int)
    requires
        0 <= p,
        0 <= v1 <= v2,
    ensures
        0 <= m_mul(p, v1) <= m_mul(p, v2),
{
    let s = MONEY_SCALE as int;
    vstd::arithmetic::mul::lemma_mul_nonnegative(p, v1);
    vstd::arithmetic::mul::lemma_mul_inequality(v1, v2, p);
    vstd::arithmetic::mul::lemma_mul_is_commutative(p, v1);
    vstd::arithmetic::mul::lemma_mul_is_commutative(p, v2);
    vstd::arithmetic::div_mod::lemma_div_pos_is_pos(p * v1, s);
    vstd::arithmetic::div_mod::lemma_div_is_ordered(p * v1, p * v2, s);
}

proof fn lemma_div_bounds(a: int, b: int)
    requires
        0 <= a <= 100 * (COST_MAX_RAW as int),
        0 < b,
    ensures
        0 <= a * (MONEY_SCALE as int) <= 100 * (COST_MAX_RAW as int) * (MONEY_SCALE as int),
        0 <= m_div(a, b),
        m_div(a, b) <= a * (MONEY_SCALE as int),
{
    vstd::arithmetic::mul::lemma_mul_nonnegative(a, MONEY_SCALE as int);
    vstd::arithmetic::mul::lemma_mul_inequality(a, 100 * (COST_MAX_RAW as int), MONEY_SCALE as int);
    vstd::arithmetic::div_mod::lemma_div_pos_is_pos(a * (MONEY_SCALE as int), b);
    vstd::arithmetic::div_mod::lemma_div_nonincreasing(a * (MONEY_SCALE as int), b);
}

} // verus!
