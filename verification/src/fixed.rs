//! Fixed-point arithmetic: the only numeric type that participates in the
//! geometry of the pipeline, so that equality and ordering stay exact.

use vstd::prelude::*;

verus! {

/// Raw units per whole unit of a [`Fixed`] quantity.
pub const SCALE: i64 = 10000;

/// Magnitude, in raw units, below which the recognizer keeps every quantity
/// it computes on; far below the integer limits, far above any page.
pub const RAW_BOUND: i64 = 4_000_000_000_000_000;

/// Magnitude bound for staff positions handed to the voice collector.
pub const POS_BOUND: i64 = 100_000_000_000_000_000;

/// A signed fixed-point quantity; `raw` counts `1 / SCALE` fractions of a unit.
#[derive(Clone, Copy, Debug, PartialEq, Eq, Hash, Structural)]
pub struct Fixed {
    pub raw: i64,
}

/// Whether a fixed-point quantity lies within the recognizer's working
/// range.
pub open spec fn bounded(f: Fixed) -> bool {
    -RAW_BOUND <= f.raw <= RAW_BOUND
}

/// Whether a fixed-point quantity lies within the interpreter's coordinate
/// limit, a much tighter band than the working range.
pub open spec fn coord_ok(f: Fixed) -> bool {
    -1_000_000_000_000 <= f.raw <= 1_000_000_000_000
}

/// Quotient of `a / b` truncated toward zero; meaningful for `b > 0`.
pub open spec fn tdiv(a: int, b: int) -> int {
    if a >= 0 {
        a / b
    } else {
        -((-a) / b)
    }
}

/// Raw value of the product of two fixed-point quantities:
/// `(a * b) / SCALE`, truncating toward zero.
pub open spec fn fmul(a: int, b: int) -> int {
    tdiv(a * b, SCALE as int)
}

/// `a / b` truncated toward zero, as Rust's `/` computes it, for positive `b`.
pub fn div_trunc(a: i64, b: i64) -> (r: i64)
    requires
        b > 0,
    ensures
        r == tdiv(a as int, b as int),
{
    proof {
        lemma_tdiv_magnitude(a as int, b as int);
    }
    match a.checked_div(b) {
        Some(q) => q,
        None => {
            proof {
                assert(false);
            }
            0
        },
    }
}

/// The truncated quotient never exceeds the dividend in magnitude.
pub proof fn lemma_tdiv_magnitude(a: int, b: int)
    requires
        b > 0,
    ensures
        a >= 0 ==> 0 <= tdiv(a, b) <= a,
        a < 0 ==> a <= tdiv(a, b) <= 0,
{
    if a >= 0 {
        vstd::arithmetic::div_mod::lemma_div_pos_is_pos(a, b);
        vstd::arithmetic::div_mod::lemma_div_nonincreasing(a, b);
    } else {
        vstd::arithmetic::div_mod::lemma_div_pos_is_pos(-a, b);
        vstd::arithmetic::div_mod::lemma_div_nonincreasing(-a, b);
    }
}

impl Fixed {
    /// A whole number of units.
    pub fn new(value: i64) -> (r: Fixed)
        requires
            i64::MIN <= value * SCALE <= i64::MAX,
        ensures
            r.raw == value * SCALE,
    {
        Fixed { raw: value * SCALE }
    }

    /// A quantity given directly in raw `1 / SCALE` fractions.
    pub fn from_raw(raw: i64) -> (r: Fixed)
        ensures
            r.raw == raw,
    {
        Fixed { raw }
    }

    pub fn add(self, rhs: Fixed) -> (r: Fixed)
        requires
            i64::MIN <= self.raw + rhs.raw <= i64::MAX,
        ensures
            r.raw == self.raw + rhs.raw,
    {
        Fixed { raw: self.raw + rhs.raw }
    }

    pub fn sub(self, rhs: Fixed) -> (r: Fixed)
        requires
            i64::MIN <= self.raw - rhs.raw <= i64::MAX,
        ensures
            r.raw == self.raw - rhs.raw,
    {
        Fixed { raw: self.raw - rhs.raw }
    }

    /// Product with an integer factor.
    pub fn mul_int(self, rhs: i64) -> (r: Fixed)
        requires
            i64::MIN <= self.raw * rhs <= i64::MAX,
        ensures
            r.raw == self.raw * rhs,
    {
        Fixed { raw: self.raw * rhs }
    }

    /// Fixed-point product, rescaled by `SCALE` with truncation toward zero.
    pub fn mul(self, rhs: Fixed) -> (r: Fixed)
        requires
            i64::MIN <= fmul(self.raw as int, rhs.raw as int) <= i64::MAX,
        ensures
            r.raw == fmul(self.raw as int, rhs.raw as int),
    {
        match self.checked_mul(rhs) {
            Some(r) => r,
            None => {
                proof {
                    assert(false);
                }
                Fixed { raw: 0 }
            },
        }
    }

    /// Fixed-point product; `None` when the rescaled result does not fit.
    pub fn checked_mul(self, rhs: Fixed) -> (r: Option<Fixed>)
        ensures
            i64::MIN <= fmul(self.raw as int, rhs.raw as int) <= i64::MAX ==> r == Some(
                Fixed { raw: fmul(self.raw as int, rhs.raw as int) as i64 },
            ),
            !(i64::MIN <= fmul(self.raw as int, rhs.raw as int) <= i64::MAX) ==> r is None,
    {
        let a = self.raw;
        let b = rhs.raw;
        proof {
            assert(i128::MIN <= (a as int) * (b as int) <= i128::MAX) by (nonlinear_arith)
                requires
                    i64::MIN <= a <= i64::MAX,
                    i64::MIN <= b <= i64::MAX,
            ;
        }
        let p: i128 = (a as i128) * (b as i128);
        proof {
            lemma_tdiv_magnitude(p as int, SCALE as int);
        }
        let q: i128 = match p.checked_div(SCALE as i128) {
            Some(q) => q,
            None => {
                proof {
                    assert(false);
                }
                0
            },
        };
        if q >= i64::MIN as i128 && q <= i64::MAX as i128 {
            Some(Fixed { raw: q as i64 })
        } else {
            None
        }
    }

    pub fn checked_add(self, rhs: Fixed) -> (r: Option<Fixed>)
        ensures
            i64::MIN <= self.raw + rhs.raw <= i64::MAX ==> r == Some(
                Fixed { raw: (self.raw + rhs.raw) as i64 },
            ),
            !(i64::MIN <= self.raw + rhs.raw <= i64::MAX) ==> r is None,
    {
        match self.raw.checked_add(rhs.raw) {
            Some(s) => Some(Fixed { raw: s }),
            None => None,
        }
    }

    pub fn checked_sub(self, rhs: Fixed) -> (r: Option<Fixed>)
        ensures
            i64::MIN <= self.raw - rhs.raw <= i64::MAX ==> r == Some(
                Fixed { raw: (self.raw - rhs.raw) as i64 },
            ),
            !(i64::MIN <= self.raw - rhs.raw <= i64::MAX) ==> r is None,
    {
        match self.raw.checked_sub(rhs.raw) {
            Some(s) => Some(Fixed { raw: s }),
            None => None,
        }
    }
}

/// Addition of fixed-point quantities is commutative on the raw values.
pub proof fn lemma_fixed_add_comm(a: Fixed, b: Fixed)
    ensures
        a.raw + b.raw == b.raw + a.raw,
{
}

/// Addition of fixed-point quantities is associative on the raw values.
pub proof fn lemma_fixed_add_assoc(a: Fixed, b: Fixed, c: Fixed)
    ensures
        (a.raw + b.raw) + c.raw == a.raw + (b.raw + c.raw),
{
}

/// The fixed-point product is commutative.
pub proof fn lemma_fixed_mul_comm(a: Fixed, b: Fixed)
    ensures
        fmul(a.raw as int, b.raw as int) == fmul(b.raw as int, a.raw as int),
{
    assert((a.raw as int) * (b.raw as int) == (b.raw as int) * (a.raw as int));
}

/// Multiplying by one (`SCALE` raw units) is the identity.
pub proof fn lemma_fixed_mul_one(a: Fixed)
    ensures
        fmul(a.raw as int, SCALE as int) == a.raw,
{
    let s = SCALE as int;
    let a_ = a.raw as int;
    if a_ >= 0 {
        vstd::arithmetic::div_mod::lemma_div_multiples_vanish(a_, s);
    } else {
        assert(-(a_ * s) == (-a_) * s) by (nonlinear_arith);
        vstd::arithmetic::div_mod::lemma_div_multiples_vanish(-a_, s);
    }
}


/// The fixed-point product lands within one raw unit of the exact rational
/// product: rescaling it by `SCALE` recovers the integer product up to a
/// truncation remainder smaller than `SCALE`.
pub proof fn lemma_fmul_error(u: int, v: int)
    ensures
        (SCALE as int) * fmul(u, v) - u * v < (SCALE as int),
        -(SCALE as int) < (SCALE as int) * fmul(u, v) - u * v,
{
    let s = SCALE as int;
    let p = u * v;
    if p >= 0 {
        vstd::arithmetic::div_mod::lemma_fundamental_div_mod(p, s);
        vstd::arithmetic::div_mod::lemma_mod_division_less_than_divisor(p, s);
    } else {
        vstd::arithmetic::div_mod::lemma_fundamental_div_mod(-p, s);
        vstd::arithmetic::div_mod::lemma_mod_division_less_than_divisor(-p, s);
    }
}

} // verus!
