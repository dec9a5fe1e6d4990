//! Homogeneous 2x3 affine maps over fixed-point entries, as accumulated by
//! the graphics state of the stream interpreter.

use vstd::prelude::*;

use crate::fixed::{fmul, Fixed, SCALE};
use crate::geom::Point;

verus! {

/// A homogeneous row of three fixed-point components.
#[derive(Clone, Copy, Debug, PartialEq, Eq, Structural)]
pub struct Vector {
    pub a: Fixed,
    pub b: Fixed,
    pub c: Fixed,
}

impl Vector {
    pub open spec fn spec_get(self, i: int) -> Fixed {
        if i == 0 {
            self.a
        } else if i == 1 {
            self.b
        } else {
            self.c
        }
    }

    pub fn new(a: Fixed, b: Fixed, c: Fixed) -> (r: Vector)
        ensures
            r == (Vector { a, b, c }),
    {
        Vector { a, b, c }
    }

    pub fn get(&self, i: usize) -> (r: Fixed)
        requires
            i < 3,
        ensures
            r == self.spec_get(i as int),
    {
        if i == 0 {
            self.a
        } else if i == 1 {
            self.b
        } else {
            self.c
        }
    }
}

/// The raw integer entries of a 2x3 affine map `[[m00, m01, m02], [m10, m11,
/// m12]]`; the implicit last row is `(0, 0, 1)`.
pub ghost struct MatI {
    pub m00: int,
    pub m01: int,
    pub m02: int,
    pub m10: int,
    pub m11: int,
    pub m12: int,
}

/// Raw x-coordinate of the image of `(x, y)` under `m`.
pub open spec fn xform_x(m: MatI, x: int, y: int) -> int {
    fmul(m.m00, x) + fmul(m.m01, y) + m.m02
}

/// Raw y-coordinate of the image of `(x, y)` under `m`.
pub open spec fn xform_y(m: MatI, x: int, y: int) -> int {
    fmul(m.m10, x) + fmul(m.m11, y) + m.m12
}

/// Whether every intermediate of the transform fits the raw integer type,
/// in the order the computation runs.
pub open spec fn xform_fits(m: MatI, x: int, y: int) -> bool {
    &&& i64::MIN <= fmul(m.m00, x) <= i64::MAX
    &&& i64::MIN <= fmul(m.m01, y) <= i64::MAX
    &&& i64::MIN <= fmul(m.m00, x) + fmul(m.m01, y) <= i64::MAX
    &&& i64::MIN <= xform_x(m, x, y) <= i64::MAX
    &&& i64::MIN <= fmul(m.m10, x) <= i64::MAX
    &&& i64::MIN <= fmul(m.m11, y) <= i64::MAX
    &&& i64::MIN <= fmul(m.m10, x) + fmul(m.m11, y) <= i64::MAX
    &&& i64::MIN <= xform_y(m, x, y) <= i64::MAX
}

/// Composition of two affine maps: the third column is `a` applied to the
/// translation of `b`, plus `a`'s own translation.
pub open spec fn mul_i(a: MatI, b: MatI) -> MatI {
    MatI {
        m00: fmul(a.m00, b.m00) + fmul(a.m01, b.m10),
        m01: fmul(a.m00, b.m01) + fmul(a.m01, b.m11),
        m02: fmul(a.m00, b.m02) + fmul(a.m01, b.m12) + a.m02,
        m10: fmul(a.m10, b.m00) + fmul(a.m11, b.m10),
        m11: fmul(a.m10, b.m01) + fmul(a.m11, b.m11),
        m12: fmul(a.m10, b.m02) + fmul(a.m11, b.m12) + a.m12,
    }
}

/// Whether every intermediate of the composition fits the raw integer type.
pub open spec fn mul_fits(a: MatI, b: MatI) -> bool {
    &&& i64::MIN <= fmul(a.m00, b.m00) <= i64::MAX
    &&& i64::MIN <= fmul(a.m01, b.m10) <= i64::MAX
    &&& i64::MIN <= mul_i(a, b).m00 <= i64::MAX
    &&& i64::MIN <= fmul(a.m00, b.m01) <= i64::MAX
    &&& i64::MIN <= fmul(a.m01, b.m11) <= i64::MAX
    &&& i64::MIN <= mul_i(a, b).m01 <= i64::MAX
    &&& i64::MIN <= fmul(a.m00, b.m02) <= i64::MAX
    &&& i64::MIN <= fmul(a.m01, b.m12) <= i64::MAX
    &&& i64::MIN <= fmul(a.m00, b.m02) + fmul(a.m01, b.m12) <= i64::MAX
    &&& i64::MIN <= mul_i(a, b).m02 <= i64::MAX
    &&& i64::MIN <= fmul(a.m10, b.m00) <= i64::MAX
    &&& i64::MIN <= fmul(a.m11, b.m10) <= i64::MAX
    &&& i64::MIN <= mul_i(a, b).m10 <= i64::MAX
    &&& i64::MIN <= fmul(a.m10, b.m01) <= i64::MAX
    &&& i64::MIN <= fmul(a.m11, b.m11) <= i64::MAX
    &&& i64::MIN <= mul_i(a, b).m11 <= i64::MAX
    &&& i64::MIN <= fmul(a.m10, b.m02) <= i64::MAX
    &&& i64::MIN <= fmul(a.m11, b.m12) <= i64::MAX
    &&& i64::MIN <= fmul(a.m10, b.m02) + fmul(a.m11, b.m12) <= i64::MAX
    &&& i64::MIN <= mul_i(a, b).m12 <= i64::MAX
}

/// A 2x3 affine map: two rows of three fixed-point entries.
#[derive(Clone, Copy, Debug, PartialEq, Eq, Structural)]
pub struct Matrix {
    pub r0: Vector,
    pub r1: Vector,
}

impl Matrix {
    /// The raw integer entries of this map.
    pub open spec fn v(self) -> MatI {
        MatI {
            m00: self.r0.a.raw as int,
            m01: self.r0.b.raw as int,
            m02: self.r0.c.raw as int,
            m10: self.r1.a.raw as int,
            m11: self.r1.b.raw as int,
            m12: self.r1.c.raw as int,
        }
    }

    /// The design-space identity `[[1, 0, 0], [0, -1, H]]`: it flips y so
    /// that the origin sits at the top-left of a page `height` units tall.
    pub fn identity(height: Fixed) -> (r: Matrix)
        ensures
            r.v() == (MatI {
                m00: SCALE as int,
                m01: 0,
                m02: 0,
                m10: 0,
                m11: -(SCALE as int),
                m12: height.raw as int,
            }),
    {
        Matrix {
            r0: Vector { a: Fixed { raw: SCALE }, b: Fixed { raw: 0 }, c: Fixed { raw: 0 } },
            r1: Vector { a: Fixed { raw: 0 }, b: Fixed { raw: -SCALE }, c: height },
        }
    }

    /// Builds the map from the six operands `a b c d e f` of a concatenation
    /// operation, laid out as `[[a, c, e], [b, d, f]]`.
    pub fn new(a: Fixed, b: Fixed, c: Fixed, d: Fixed, e: Fixed, f: Fixed) -> (r: Matrix)
        ensures
            r == (Matrix { r0: Vector { a, b: c, c: e }, r1: Vector { a: b, b: d, c: f } }),
    {
        Matrix { r0: Vector { a, b: c, c: e }, r1: Vector { a: b, b: d, c: f } }
    }

    pub fn get(&self, i: usize, j: usize) -> (r: Fixed)
        requires
            i < 2,
            j < 3,
        ensures
            i == 0 ==> r == self.r0.spec_get(j as int),
            i == 1 ==> r == self.r1.spec_get(j as int),
    {
        if i == 0 {
            self.r0.get(j)
        } else {
            self.r1.get(j)
        }
    }

    /// Applies the affine map to `(x, y)`; `None` when an intermediate
    /// overflows the raw integer type.
    pub fn transform(&self, x: Fixed, y: Fixed) -> (r: Option<Point>)
        ensures
            xform_fits(self.v(), x.raw as int, y.raw as int) ==> r == Some(
                Point {
                    x: Fixed { raw: xform_x(self.v(), x.raw as int, y.raw as int) as i64 },
                    y: Fixed { raw: xform_y(self.v(), x.raw as int, y.raw as int) as i64 },
                },
            ),
            !xform_fits(self.v(), x.raw as int, y.raw as int) ==> r is None,
    {
        let p1 = match self.r0.a.checked_mul(x) {
            Some(v) => v,
            None => { return None },
        };
        let p2 = match self.r0.b.checked_mul(y) {
            Some(v) => v,
            None => { return None },
        };
        let s1 = match p1.checked_add(p2) {
            Some(v) => v,
            None => { return None },
        };
        let xp = match s1.checked_add(self.r0.c) {
            Some(v) => v,
            None => { return None },
        };
        let q1 = match self.r1.a.checked_mul(x) {
            Some(v) => v,
            None => { return None },
        };
        let q2 = match self.r1.b.checked_mul(y) {
            Some(v) => v,
            None => { return None },
        };
        let s2 = match q1.checked_add(q2) {
            Some(v) => v,
            None => { return None },
        };
        let yp = match s2.checked_add(self.r1.c) {
            Some(v) => v,
            None => { return None },
        };
        Some(Point { x: xp, y: yp })
    }

    /// Composes this map with `rhs`; `None` when an intermediate overflows
    /// the raw integer type.
    pub fn mul(&self, rhs: &Matrix) -> (r: Option<Matrix>)
        ensures
            mul_fits(self.v(), rhs.v()) ==> r == Some(
                Matrix {
                    r0: Vector {
                        a: Fixed { raw: mul_i(self.v(), rhs.v()).m00 as i64 },
                        b: Fixed { raw: mul_i(self.v(), rhs.v()).m01 as i64 },
                        c: Fixed { raw: mul_i(self.v(), rhs.v()).m02 as i64 },
                    },
                    r1: Vector {
                        a: Fixed { raw: mul_i(self.v(), rhs.v()).m10 as i64 },
                        b: Fixed { raw: mul_i(self.v(), rhs.v()).m11 as i64 },
                        c: Fixed { raw: mul_i(self.v(), rhs.v()).m12 as i64 },
                    },
                },
            ),
            !mul_fits(self.v(), rhs.v()) ==> r is None,
    {
        let m00 = {
            let p1 = match self.r0.a.checked_mul(rhs.r0.a) {
                Some(v) => v,
                None => { return None },
            };
            let p2 = match self.r0.b.checked_mul(rhs.r1.a) {
                Some(v) => v,
                None => { return None },
            };
            match p1.checked_add(p2) {
                Some(v) => v,
                None => { return None },
            }
        };
        let m01 = {
            let p1 = match self.r0.a.checked_mul(rhs.r0.b) {
                Some(v) => v,
                None => { return None },
            };
            let p2 = match self.r0.b.checked_mul(rhs.r1.b) {
                Some(v) => v,
                None => { return None },
            };
            match p1.checked_add(p2) {
                Some(v) => v,
                None => { return None },
            }
        };
        let m02 = {
            let p1 = match self.r0.a.checked_mul(rhs.r0.c) {
                Some(v) => v,
                None => { return None },
            };
            let p2 = match self.r0.b.checked_mul(rhs.r1.c) {
                Some(v) => v,
                None => { return None },
            };
            let s = match p1.checked_add(p2) {
                Some(v) => v,
                None => { return None },
            };
            match s.checked_add(self.r0.c) {
                Some(v) => v,
                None => { return None },
            }
        };
        let m10 = {
            let p1 = match self.r1.a.checked_mul(rhs.r0.a) {
                Some(v) => v,
                None => { return None },
            };
            let p2 = match self.r1.b.checked_mul(rhs.r1.a) {
                Some(v) => v,
                None => { return None },
            };
            match p1.checked_add(p2) {
                Some(v) => v,
                None => { return None },
            }
        };
        let m11 = {
            let p1 = match self.r1.a.checked_mul(rhs.r0.b) {
                Some(v) => v,
                None => { return None },
            };
            let p2 = match self.r1.b.checked_mul(rhs.r1.b) {
                Some(v) => v,
                None => { return None },
            };
            match p1.checked_add(p2) {
                Some(v) => v,
                None => { return None },
            }
        };
        let m12 = {
            let p1 = match self.r1.a.checked_mul(rhs.r0.c) {
                Some(v) => v,
                None => { return None },
            };
            let p2 = match self.r1.b.checked_mul(rhs.r1.c) {
                Some(v) => v,
                None => { return None },
            };
            let s = match p1.checked_add(p2) {
                Some(v) => v,
                None => { return None },
            };
            match s.checked_add(self.r1.c) {
                Some(v) => v,
                None => { return None },
            }
        };
        Some(Matrix {
            r0: Vector { a: m00, b: m01, c: m02 },
            r1: Vector { a: m10, b: m11, c: m12 },
        })
    }
}

/// A multiple of `SCALE` is reassembled exactly from its quotient.
proof fn lemma_exact(u: int)
    requires
        u % (SCALE as int) == 0,
    ensures
        u == (SCALE as int) * (u / (SCALE as int)),
{
    vstd::arithmetic::div_mod::lemma_fundamental_div_mod(u, SCALE as int);
}

/// When the left factor is a whole multiple of `SCALE`, the fixed-point
/// product does not truncate: it equals the integer product of the rescaled
/// left factor with the right factor.
pub proof fn lemma_fmul_multiple(u: int, v: int)
    requires
        u % (SCALE as int) == 0,
    ensures
        fmul(u, v) == (u / (SCALE as int)) * v,
{
    let s = SCALE as int;
    let k = u / s;
    lemma_exact(u);
    assert(u * v == s * (k * v)) by (nonlinear_arith)
        requires
            u == s * k,
    ;
    if k * v >= 0 {
        assert(u * v >= 0);
        vstd::arithmetic::div_mod::lemma_div_multiples_vanish(k * v, s);
    } else {
        assert(u * v < 0);
        assert(-(u * v) == s * (-(k * v)));
        vstd::arithmetic::div_mod::lemma_div_multiples_vanish(-(k * v), s);
    }
}

/// Composing two affine maps and then transforming agrees with transforming
/// by the second map and then the first, provided every raw entry and
/// coordinate is a whole number of units (a multiple of `SCALE`), so that no
/// fixed-point product truncates.
pub proof fn lemma_compose_transform(a: MatI, b: MatI, x: int, y: int)
    requires
        a.m00 % (SCALE as int) == 0,
        a.m01 % (SCALE as int) == 0,
        a.m02 % (SCALE as int) == 0,
        a.m10 % (SCALE as int) == 0,
        a.m11 % (SCALE as int) == 0,
        a.m12 % (SCALE as int) == 0,
        b.m00 % (SCALE as int) == 0,
        b.m01 % (SCALE as int) == 0,
        b.m02 % (SCALE as int) == 0,
        b.m10 % (SCALE as int) == 0,
        b.m11 % (SCALE as int) == 0,
        b.m12 % (SCALE as int) == 0,
        x % (SCALE as int) == 0,
        y % (SCALE as int) == 0,
    ensures
        xform_x(mul_i(a, b), x, y) == xform_x(a, xform_x(b, x, y), xform_y(b, x, y)),
        xform_y(mul_i(a, b), x, y) == xform_y(a, xform_x(b, x, y), xform_y(b, x, y)),
{
    let s = SCALE as int;
    let a00 = a.m00 / s;
    let a01 = a.m01 / s;
    let a10 = a.m10 / s;
    let a11 = a.m11 / s;
    let b00 = b.m00 / s;
    let b01 = b.m01 / s;
    let b10 = b.m10 / s;
    let b11 = b.m11 / s;
    lemma_exact(b.m00);
    lemma_exact(b.m01);
    lemma_exact(b.m10);
    lemma_exact(b.m11);
    // The transform of (x, y) by b, with its products made exact.
    lemma_fmul_multiple(b.m00, x);
    lemma_fmul_multiple(b.m01, y);
    lemma_fmul_multiple(b.m10, x);
    lemma_fmul_multiple(b.m11, y);
    let bx = xform_x(b, x, y);
    let by = xform_y(b, x, y);
    assert(bx == b00 * x + b01 * y + b.m02);
    assert(by == b10 * x + b11 * y + b.m12);
    // The transform of (bx, by) by a.
    lemma_fmul_multiple(a.m00, bx);
    lemma_fmul_multiple(a.m01, by);
    lemma_fmul_multiple(a.m10, bx);
    lemma_fmul_multiple(a.m11, by);
    // The entries of the composition.
    lemma_fmul_multiple(a.m00, b.m00);
    lemma_fmul_multiple(a.m00, b.m01);
    lemma_fmul_multiple(a.m00, b.m02);
    lemma_fmul_multiple(a.m01, b.m10);
    lemma_fmul_multiple(a.m01, b.m11);
    lemma_fmul_multiple(a.m01, b.m12);
    lemma_fmul_multiple(a.m10, b.m00);
    lemma_fmul_multiple(a.m10, b.m01);
    lemma_fmul_multiple(a.m10, b.m02);
    lemma_fmul_multiple(a.m11, b.m10);
    lemma_fmul_multiple(a.m11, b.m11);
    lemma_fmul_multiple(a.m11, b.m12);
    let c = mul_i(a, b);
    // Each inner entry of the composition is a multiple of SCALE.
    assert(a00 * b.m00 == (a00 * b00) * s) by (nonlinear_arith)
        requires
            b.m00 == s * b00,
    ;
    assert(a01 * b.m10 == (a01 * b10) * s) by (nonlinear_arith)
        requires
            b.m10 == s * b10,
    ;
    assert(a00 * b.m01 == (a00 * b01) * s) by (nonlinear_arith)
        requires
            b.m01 == s * b01,
    ;
    assert(a01 * b.m11 == (a01 * b11) * s) by (nonlinear_arith)
        requires
            b.m11 == s * b11,
    ;
    assert(a10 * b.m00 == (a10 * b00) * s) by (nonlinear_arith)
        requires
            b.m00 == s * b00,
    ;
    assert(a11 * b.m10 == (a11 * b10) * s) by (nonlinear_arith)
        requires
            b.m10 == s * b10,
    ;
    assert(a10 * b.m01 == (a10 * b01) * s) by (nonlinear_arith)
        requires
            b.m01 == s * b01,
    ;
    assert(a11 * b.m11 == (a11 * b11) * s) by (nonlinear_arith)
        requires
            b.m11 == s * b11,
    ;
    let k00 = a00 * b00 + a01 * b10;
    let k01 = a00 * b01 + a01 * b11;
    let k10 = a10 * b00 + a11 * b10;
    let k11 = a10 * b01 + a11 * b11;
    assert(c.m00 == k00 * s);
    assert(c.m01 == k01 * s);
    assert(c.m10 == k10 * s);
    assert(c.m11 == k11 * s);
    vstd::arithmetic::div_mod::lemma_mod_multiples_basic(k00, s);
    vstd::arithmetic::div_mod::lemma_mod_multiples_basic(k01, s);
    vstd::arithmetic::div_mod::lemma_mod_multiples_basic(k10, s);
    vstd::arithmetic::div_mod::lemma_mod_multiples_basic(k11, s);
    lemma_fmul_multiple(c.m00, x);
    lemma_fmul_multiple(c.m01, y);
    lemma_fmul_multiple(c.m10, x);
    lemma_fmul_multiple(c.m11, y);
    vstd::arithmetic::div_mod::lemma_div_multiples_vanish(k00, s);
    vstd::arithmetic::div_mod::lemma_div_multiples_vanish(k01, s);
    vstd::arithmetic::div_mod::lemma_div_multiples_vanish(k10, s);
    vstd::arithmetic::div_mod::lemma_div_multiples_vanish(k11, s);
    assert(s * k00 == k00 * s);
    assert(s * k01 == k01 * s);
    assert(s * k10 == k10 * s);
    assert(s * k11 == k11 * s);
    assert(c.m00 / s == k00);
    assert(c.m01 / s == k01);
    assert(c.m10 / s == k10);
    assert(c.m11 / s == k11);
    // Distribute each row product over the transformed point of b.
    assert(a00 * bx == a00 * (b00 * x) + a00 * (b01 * y) + a00 * b.m02) by (nonlinear_arith)
        requires
            bx == b00 * x + b01 * y + b.m02,
    ;
    assert(a01 * by == a01 * (b10 * x) + a01 * (b11 * y) + a01 * b.m12) by (nonlinear_arith)
        requires
            by == b10 * x + b11 * y + b.m12,
    ;
    assert(a10 * bx == a10 * (b00 * x) + a10 * (b01 * y) + a10 * b.m02) by (nonlinear_arith)
        requires
            bx == b00 * x + b01 * y + b.m02,
    ;
    assert(a11 * by == a11 * (b10 * x) + a11 * (b11 * y) + a11 * b.m12) by (nonlinear_arith)
        requires
            by == b10 * x + b11 * y + b.m12,
    ;
    // Distribute each composed entry over the coordinate it multiplies.
    assert(k00 * x == a00 * (b00 * x) + a01 * (b10 * x)) by (nonlinear_arith)
        requires
            k00 == a00 * b00 + a01 * b10,
    ;
    assert(k01 * y == a00 * (b01 * y) + a01 * (b11 * y)) by (nonlinear_arith)
        requires
            k01 == a00 * b01 + a01 * b11,
    ;
    assert(k10 * x == a10 * (b00 * x) + a11 * (b10 * x)) by (nonlinear_arith)
        requires
            k10 == a10 * b00 + a11 * b10,
    ;
    assert(k11 * y == a10 * (b01 * y) + a11 * (b11 * y)) by (nonlinear_arith)
        requires
            k11 == a10 * b01 + a11 * b11,
    ;
    assert(xform_x(c, x, y) == k00 * x + k01 * y + (a00 * b.m02 + a01 * b.m12 + a.m02));
    assert(xform_x(a, bx, by) == a00 * bx + a01 * by + a.m02);
    assert(xform_y(c, x, y) == k10 * x + k11 * y + (a10 * b.m02 + a11 * b.m12 + a.m12));
    assert(xform_y(a, bx, by) == a10 * bx + a11 * by + a.m12);
}


/// The exact (unrounded) x-image of `(x, y)` under `m`, scaled by `SCALE`.
pub open spec fn exact_x(m: MatI, x: int, y: int) -> int {
    m.m00 * x + m.m01 * y + (SCALE as int) * m.m02
}

/// The exact (unrounded) y-image of `(x, y)` under `m`, scaled by `SCALE`.
pub open spec fn exact_y(m: MatI, x: int, y: int) -> int {
    m.m10 * x + m.m11 * y + (SCALE as int) * m.m12
}

/// A transform lands within two truncation steps of the exact image: its
/// two fixed-point products each truncate less than one raw unit away.
pub proof fn lemma_transform_error(m: MatI, x: int, y: int)
    ensures
        -2 * (SCALE as int) < (SCALE as int) * xform_x(m, x, y) - exact_x(m, x, y) < 2 * (
        SCALE as int),
        -2 * (SCALE as int) < (SCALE as int) * xform_y(m, x, y) - exact_y(m, x, y) < 2 * (
        SCALE as int),
{
    crate::fixed::lemma_fmul_error(m.m00, x);
    crate::fixed::lemma_fmul_error(m.m01, y);
    crate::fixed::lemma_fmul_error(m.m10, x);
    crate::fixed::lemma_fmul_error(m.m11, y);
}

/// One row of the composition-versus-sequence comparison: with every
/// entry of the row, and both coordinates, within `bound`, the composed
/// row image differs from the row image of the transformed point by less
/// than `8 * bound / SCALE + 6` raw units.
proof fn lemma_compose_row_error(a0: int, a1: int, a2: int, b: MatI, x: int, y: int, bound: int)
    requires
        bound >= 0,
        -bound <= a0 <= bound,
        -bound <= a1 <= bound,
        -bound <= x <= bound,
        -bound <= y <= bound,
    ensures
        ({
            let s = SCALE as int;
            let bxv = xform_x(b, x, y);
            let byv = xform_y(b, x, y);
            let c0 = fmul(a0, b.m00) + fmul(a1, b.m10);
            let c1 = fmul(a0, b.m01) + fmul(a1, b.m11);
            let c2 = fmul(a0, b.m02) + fmul(a1, b.m12) + a2;
            let diff = (fmul(c0, x) + fmul(c1, y) + c2) - (fmul(a0, bxv) + fmul(a1, byv) + a2);
            -(8 * bound + 6 * s) < s * diff < 8 * bound + 6 * s
        }),
{
    let s = SCALE as int;
    let bxv = xform_x(b, x, y);
    let byv = xform_y(b, x, y);
    let c0 = fmul(a0, b.m00) + fmul(a1, b.m10);
    let c1 = fmul(a0, b.m01) + fmul(a1, b.m11);
    let c2 = fmul(a0, b.m02) + fmul(a1, b.m12) + a2;
    let exb = exact_x(b, x, y);
    let eyb = exact_y(b, x, y);
    // the sequential side, against the fully exact value
    crate::fixed::lemma_fmul_error(a0, bxv);
    crate::fixed::lemma_fmul_error(a1, byv);
    let e1 = s * fmul(a0, bxv) - a0 * bxv;
    let e2 = s * fmul(a1, byv) - a1 * byv;
    let xs = fmul(a0, bxv) + fmul(a1, byv) + a2;
    assert(s * xs == a0 * bxv + e1 + a1 * byv + e2 + s * a2);
    assert(s * (s * xs) == a0 * (s * bxv) + a1 * (s * byv) + s * e1 + s * e2 + s * (s * a2))
        by (nonlinear_arith)
        requires
            s * xs == a0 * bxv + e1 + a1 * byv + e2 + s * a2,
    ;
    lemma_transform_error(b, x, y);
    let f1 = s * bxv - exb;
    let f2 = s * byv - eyb;
    assert(a0 * (s * bxv) == a0 * exb + a0 * f1) by (nonlinear_arith)
        requires
            s * bxv == exb + f1,
    ;
    assert(a1 * (s * byv) == a1 * eyb + a1 * f2) by (nonlinear_arith)
        requires
            s * byv == eyb + f2,
    ;
    let p = a0 * exb + a1 * eyb + s * (s * a2);
    assert(s * (s * xs) - p == a0 * f1 + a1 * f2 + s * e1 + s * e2);
    assert(-(s * s) < s * e1 < s * s) by (nonlinear_arith)
        requires
            -s < e1 < s,
            s == SCALE as int,
    ;
    assert(-(s * s) < s * e2 < s * s) by (nonlinear_arith)
        requires
            -s < e2 < s,
            s == SCALE as int,
    ;
    assert(-2 * s * bound <= a0 * f1 <= 2 * s * bound) by (nonlinear_arith)
        requires
            -bound <= a0 <= bound,
            -2 * s < f1 < 2 * s,
            bound >= 0,
            s == SCALE as int,
    ;
    assert(-2 * s * bound <= a1 * f2 <= 2 * s * bound) by (nonlinear_arith)
        requires
            -bound <= a1 <= bound,
            -2 * s < f2 < 2 * s,
            bound >= 0,
            s == SCALE as int,
    ;
    assert(-(4 * s * bound + 2 * s * s) < s * (s * xs) - p < 4 * s * bound + 2 * s * s)
        by (nonlinear_arith)
        requires
            s * (s * xs) - p == a0 * f1 + a1 * f2 + s * e1 + s * e2,
            -2 * s * bound <= a0 * f1 <= 2 * s * bound,
            -2 * s * bound <= a1 * f2 <= 2 * s * bound,
            -(s * s) < s * e1 < s * s,
            -(s * s) < s * e2 < s * s,
    ;
    // the composed side, against the same exact value
    crate::fixed::lemma_fmul_error(c0, x);
    crate::fixed::lemma_fmul_error(c1, y);
    let g1 = s * fmul(c0, x) - c0 * x;
    let g2 = s * fmul(c1, y) - c1 * y;
    let xc = fmul(c0, x) + fmul(c1, y) + c2;
    assert(s * xc == c0 * x + g1 + c1 * y + g2 + s * c2);
    assert(s * (s * xc) == s * (c0 * x) + s * (c1 * y) + s * g1 + s * g2 + s * (s * c2))
        by (nonlinear_arith)
        requires
            s * xc == c0 * x + g1 + c1 * y + g2 + s * c2,
    ;
    crate::fixed::lemma_fmul_error(a0, b.m00);
    crate::fixed::lemma_fmul_error(a1, b.m10);
    crate::fixed::lemma_fmul_error(a0, b.m01);
    crate::fixed::lemma_fmul_error(a1, b.m11);
    crate::fixed::lemma_fmul_error(a0, b.m02);
    crate::fixed::lemma_fmul_error(a1, b.m12);
    let h1 = s * fmul(a0, b.m00) - a0 * b.m00;
    let h2 = s * fmul(a1, b.m10) - a1 * b.m10;
    let h3 = s * fmul(a0, b.m01) - a0 * b.m01;
    let h4 = s * fmul(a1, b.m11) - a1 * b.m11;
    let h5 = s * fmul(a0, b.m02) - a0 * b.m02;
    let h6 = s * fmul(a1, b.m12) - a1 * b.m12;
    assert(s * c0 == a0 * b.m00 + a1 * b.m10 + h1 + h2);
    assert(s * c1 == a0 * b.m01 + a1 * b.m11 + h3 + h4);
    assert(s * c2 == a0 * b.m02 + a1 * b.m12 + h5 + h6 + s * a2);
    assert(s * (c0 * x) == (s * c0) * x) by (nonlinear_arith);
    assert((s * c0) * x == (a0 * b.m00) * x + (a1 * b.m10) * x + h1 * x + h2 * x)
        by (nonlinear_arith)
        requires
            s * c0 == a0 * b.m00 + a1 * b.m10 + h1 + h2,
    ;
    assert((a0 * b.m00) * x == a0 * (b.m00 * x)) by (nonlinear_arith);
    assert((a1 * b.m10) * x == a1 * (b.m10 * x)) by (nonlinear_arith);
    assert(s * (c0 * x) == a0 * (b.m00 * x) + a1 * (b.m10 * x) + h1 * x + h2 * x);
    assert(s * (c1 * y) == (s * c1) * y) by (nonlinear_arith);
    assert((s * c1) * y == (a0 * b.m01) * y + (a1 * b.m11) * y + h3 * y + h4 * y)
        by (nonlinear_arith)
        requires
            s * c1 == a0 * b.m01 + a1 * b.m11 + h3 + h4,
    ;
    assert((a0 * b.m01) * y == a0 * (b.m01 * y)) by (nonlinear_arith);
    assert((a1 * b.m11) * y == a1 * (b.m11 * y)) by (nonlinear_arith);
    assert(s * (c1 * y) == a0 * (b.m01 * y) + a1 * (b.m11 * y) + h3 * y + h4 * y);
    assert(s * (s * c2) == s * (a0 * b.m02) + s * (a1 * b.m12) + s * h5 + s * h6 + s * (s * a2))
        by (nonlinear_arith)
        requires
            s * c2 == a0 * b.m02 + a1 * b.m12 + h5 + h6 + s * a2,
    ;
    // the exact value, spelled out over the same products
    assert(a0 * exb == a0 * (b.m00 * x) + a0 * (b.m01 * y) + s * (a0 * b.m02)) by (nonlinear_arith)
        requires
            exb == b.m00 * x + b.m01 * y + s * b.m02,
    ;
    assert(a1 * eyb == a1 * (b.m10 * x) + a1 * (b.m11 * y) + s * (a1 * b.m12)) by (nonlinear_arith)
        requires
            eyb == b.m10 * x + b.m11 * y + s * b.m12,
    ;
    assert(a0 * (b.m01 * y) == a0 * (b.m01 * y));
    assert(s * (s * xc) - p == h1 * x + h2 * x + h3 * y + h4 * y + s * g1 + s * g2 + s * h5 + s
        * h6);
    assert(-s * bound <= h1 * x <= s * bound) by (nonlinear_arith)
        requires
            -bound <= x <= bound,
            -s < h1 < s,
            bound >= 0,
            s == SCALE as int,
    ;
    assert(-s * bound <= h2 * x <= s * bound) by (nonlinear_arith)
        requires
            -bound <= x <= bound,
            -s < h2 < s,
            bound >= 0,
            s == SCALE as int,
    ;
    assert(-s * bound <= h3 * y <= s * bound) by (nonlinear_arith)
        requires
            -bound <= y <= bound,
            -s < h3 < s,
            bound >= 0,
            s == SCALE as int,
    ;
    assert(-s * bound <= h4 * y <= s * bound) by (nonlinear_arith)
        requires
            -bound <= y <= bound,
            -s < h4 < s,
            bound >= 0,
            s == SCALE as int,
    ;
    assert(-(s * s) < s * g1 < s * s) by (nonlinear_arith)
        requires
            -s < g1 < s,
            s == SCALE as int,
    ;
    assert(-(s * s) < s * g2 < s * s) by (nonlinear_arith)
        requires
            -s < g2 < s,
            s == SCALE as int,
    ;
    assert(-(s * s) < s * h5 < s * s) by (nonlinear_arith)
        requires
            -s < h5 < s,
            s == SCALE as int,
    ;
    assert(-(s * s) < s * h6 < s * s) by (nonlinear_arith)
        requires
            -s < h6 < s,
            s == SCALE as int,
    ;
    assert(-(4 * s * bound + 4 * s * s) < s * (s * xc) - p < 4 * s * bound + 4 * s * s)
        by (nonlinear_arith)
        requires
            s * (s * xc) - p == h1 * x + h2 * x + h3 * y + h4 * y + s * g1 + s * g2 + s * h5 + s
                * h6,
            -s * bound <= h1 * x <= s * bound,
            -s * bound <= h2 * x <= s * bound,
            -s * bound <= h3 * y <= s * bound,
            -s * bound <= h4 * y <= s * bound,
            -(s * s) < s * g1 < s * s,
            -(s * s) < s * g2 < s * s,
            -(s * s) < s * h5 < s * s,
            -(s * s) < s * h6 < s * s,
    ;
    let diff = xc - xs;
    assert(s * (s * diff) == (s * (s * xc) - p) - (s * (s * xs) - p)) by (nonlinear_arith)
        requires
            diff == xc - xs,
    ;
    assert(-(8 * s * bound + 6 * s * s) < s * (s * diff) < 8 * s * bound + 6 * s * s)
        by (nonlinear_arith)
        requires
            s * (s * diff) == (s * (s * xc) - p) - (s * (s * xs) - p),
            -(4 * s * bound + 4 * s * s) < s * (s * xc) - p < 4 * s * bound + 4 * s * s,
            -(4 * s * bound + 2 * s * s) < s * (s * xs) - p < 4 * s * bound + 2 * s * s,
    ;
    assert(-(8 * bound + 6 * s) < s * diff < 8 * bound + 6 * s) by (nonlinear_arith)
        requires
            -(8 * s * bound + 6 * s * s) < s * (s * diff) < 8 * s * bound + 6 * s * s,
            s == SCALE as int,
    ;
}

/// For arbitrary fixed-point entries, composing two affine maps and then
/// transforming agrees with transforming twice up to rounding: each
/// coordinate differs by less than `8 * bound / SCALE + 6` raw units, when
/// every raw entry of the first map's inner columns and both raw
/// coordinates lie within `bound`.
pub proof fn lemma_compose_transform_error(a: MatI, b: MatI, x: int, y: int, bound: int)
    requires
        bound >= 0,
        -bound <= a.m00 <= bound,
        -bound <= a.m01 <= bound,
        -bound <= a.m10 <= bound,
        -bound <= a.m11 <= bound,
        -bound <= x <= bound,
        -bound <= y <= bound,
    ensures
        ({
            let s = SCALE as int;
            let bxv = xform_x(b, x, y);
            let byv = xform_y(b, x, y);
            let dx = xform_x(mul_i(a, b), x, y) - xform_x(a, bxv, byv);
            let dy = xform_y(mul_i(a, b), x, y) - xform_y(a, bxv, byv);
            &&& -(8 * bound + 6 * s) < s * dx < 8 * bound + 6 * s
            &&& -(8 * bound + 6 * s) < s * dy < 8 * bound + 6 * s
        }),
{
    lemma_compose_row_error(a.m00, a.m01, a.m02, b, x, y, bound);
    lemma_compose_row_error(a.m10, a.m11, a.m12, b, x, y, bound);
}

} // verus!
