//! Three-component fixed-point vectors and the widened (`i128`)
//! dot- and cross-product kernels the geometry code is built on.

use vstd::prelude::*;
use crate::fx::{SCALE, coord_ok, div_floor, divi, isqrt, sqrt_floor, lemma_isqrt_is_sqrt_floor,
    lemma_mul_bound, mulw, div_scale};

verus! {

/// A vector of three fixed-point scalars.
#[derive(Clone, Copy, Debug, PartialEq, Eq, Structural)]
pub struct Vec3 {
    pub x: i64,
    pub y: i64,
    pub z: i64,
}

/// An integer triple, the ghost image of widened vector math.
pub type T3 = (int, int, int);

/// Componentwise difference of two vectors.
pub open spec fn sub3(a: Vec3, b: Vec3) -> T3 {
    (a.x - b.x, a.y - b.y, a.z - b.z)
}

/// Dot product of two integer triples.
pub open spec fn dot3(a: T3, b: T3) -> int {
    a.0 * b.0 + a.1 * b.1 + a.2 * b.2
}

/// Cross product of two integer triples.
pub open spec fn cross3(a: T3, b: T3) -> T3 {
    (a.1 * b.2 - a.2 * b.1, a.2 * b.0 - a.0 * b.2, a.0 * b.1 - a.1 * b.0)
}

/// Componentwise bound on an integer triple.
pub open spec fn t3_bounded(a: T3, m: int) -> bool {
    -m <= a.0 <= m && -m <= a.1 <= m && -m <= a.2 <= m
}

impl Vec3 {
    /// The vector as an integer triple.
    pub open spec fn t3(self) -> T3 {
        (self.x as int, self.y as int, self.z as int)
    }

    /// All components lie within the representable scene volume.
    pub open spec fn ok(self) -> bool {
        coord_ok(self.x as int) && coord_ok(self.y as int) && coord_ok(self.z as int)
    }

    /// All components at most twice the scene bound; differences and
    /// normalized directions satisfy this.
    pub open spec fn small(self) -> bool {
        t3_bounded(self.t3(), 2_000_000_000)
    }

    pub fn new(x: i64, y: i64, z: i64) -> (r: Vec3)
        ensures
            r == (Vec3 { x, y, z }),
    {
        Vec3 { x, y, z }
    }

    /// The zero vector.
    pub fn zero() -> (r: Vec3)
        ensures
            r == (Vec3 { x: 0, y: 0, z: 0 }),
    {
        Vec3 { x: 0, y: 0, z: 0 }
    }

    /// Componentwise sum.
    pub fn add(self, o: Vec3) -> (r: Vec3)
        requires
            self.small(),
            o.small(),
        ensures
            r.x == self.x + o.x,
            r.y == self.y + o.y,
            r.z == self.z + o.z,
    {
        Vec3 { x: self.x + o.x, y: self.y + o.y, z: self.z + o.z }
    }

    /// Componentwise difference.
    pub fn sub(self, o: Vec3) -> (r: Vec3)
        requires
            self.small(),
            o.small(),
        ensures
            r.t3() == sub3(self, o),
    {
        Vec3 { x: self.x - o.x, y: self.y - o.y, z: self.z - o.z }
    }

    /// Fixed-point scaling: each component becomes `floor(c * s / SCALE)`.
    pub fn scale_fx(self, s: i64) -> (r: Vec3)
        requires
            self.small(),
            -1_000_000_000_000_000 <= s <= 1_000_000_000_000_000,
        ensures
            r.x == div_floor(self.x * s, SCALE as int),
            r.y == div_floor(self.y * s, SCALE as int),
            r.z == div_floor(self.z * s, SCALE as int),
    {
        proof {
            lemma_mul_bound(self.x as int, s as int, 2_000_000_000, 1_000_000_000_000_000);
            lemma_mul_bound(self.y as int, s as int, 2_000_000_000, 1_000_000_000_000_000);
            lemma_mul_bound(self.z as int, s as int, 2_000_000_000, 1_000_000_000_000_000);
        }
        Vec3 {
            x: div_scale((self.x as i128) * (s as i128)),
            y: div_scale((self.y as i128) * (s as i128)),
            z: div_scale((self.z as i128) * (s as i128)),
        }
    }

    /// Squared length, exactly.
    pub open spec fn spec_mag2(self) -> int {
        dot3(self.t3(), self.t3())
    }

    /// Length, rounded down.
    pub open spec fn spec_magnitude(self) -> int {
        sqrt_floor(self.spec_mag2())
    }

    /// Length of the vector in the same fixed-point scale, rounded down.
    pub fn magnitude(self) -> (r: i64)
        requires
            self.small(),
        ensures
            r == self.spec_magnitude(),
            0 <= r <= 4_000_000_000,
    {
        let m2 = dotw(&self, &self);
        proof {
            lemma_mul_bound(self.x as int, self.x as int, 2_000_000_000, 2_000_000_000);
            lemma_mul_bound(self.y as int, self.y as int, 2_000_000_000, 2_000_000_000);
            lemma_mul_bound(self.z as int, self.z as int, 2_000_000_000, 2_000_000_000);
            assert(self.x as int * self.x as int >= 0) by (nonlinear_arith);
            assert(self.y as int * self.y as int >= 0) by (nonlinear_arith);
            assert(self.z as int * self.z as int >= 0) by (nonlinear_arith);
        }
        let r = isqrt(m2 as u128);
        proof {
            lemma_isqrt_is_sqrt_floor(m2 as int, r as int);
            assert((r as int) * (r as int) <= 12_000_000_000_000_000_000);
            assert(4_000_000_001int * 4_000_000_001int > 12_000_000_000_000_000_000int);
            if r > 4_000_000_000 {
                lemma_mul_bound(4_000_000_001, 4_000_000_001, r as int, r as int);
            }
        }
        r as i64
    }

    /// Direction scaled to unit length (`SCALE`), or zero if the
    /// vector has zero length: each component is
    /// `floor(c * SCALE / |v|)`.
    pub open spec fn spec_normalized(self) -> Vec3 {
        let m = self.spec_magnitude();
        if m == 0 {
            Vec3 { x: 0, y: 0, z: 0 }
        } else {
            Vec3 {
                x: div_floor(self.x * SCALE, m) as i64,
                y: div_floor(self.y * SCALE, m) as i64,
                z: div_floor(self.z * SCALE, m) as i64,
            }
        }
    }

    /// Whether all components are zero.
    pub fn is_zero(self) -> (r: bool)
        ensures
            r <==> self == (Vec3 { x: 0, y: 0, z: 0 }),
    {
        self.x == 0 && self.y == 0 && self.z == 0
    }

    pub fn normalized(self) -> (r: Vec3)
        requires
            self.small(),
        ensures
            r == self.spec_normalized(),
            t3_bounded(r.t3(), SCALE as int),
    {
        let m = self.magnitude();
        if m == 0 {
            Vec3 { x: 0, y: 0, z: 0 }
        } else {
            proof {
                lemma_mul_bound(self.x as int, SCALE as int, 2_000_000_000, 1_000_000);
                lemma_mul_bound(self.y as int, SCALE as int, 2_000_000_000, 1_000_000);
                lemma_mul_bound(self.z as int, SCALE as int, 2_000_000_000, 1_000_000);
                lemma_div_floor_small(self.x as int * SCALE as int, m as int);
                lemma_div_floor_small(self.y as int * SCALE as int, m as int);
                lemma_div_floor_small(self.z as int * SCALE as int, m as int);
                assert(self.x as int * self.x as int >= 0) by (nonlinear_arith);
                assert(self.y as int * self.y as int >= 0) by (nonlinear_arith);
                assert(self.z as int * self.z as int >= 0) by (nonlinear_arith);
                lemma_unit_component(self.x as int, self.spec_mag2(), m as int);
                lemma_unit_component(self.y as int, self.spec_mag2(), m as int);
                lemma_unit_component(self.z as int, self.spec_mag2(), m as int);
            }
            Vec3 {
                x: divi((self.x as i128) * (SCALE as i128), m as i128) as i64,
                y: divi((self.y as i128) * (SCALE as i128), m as i128) as i64,
                z: divi((self.z as i128) * (SCALE as i128), m as i128) as i64,
            }
        }
    }
}

/// A component of a vector divided by the rounded length of the whole
/// vector is at most one unit (`SCALE`).
pub proof fn lemma_unit_component(c: int, m2: int, m: int)
    requires
        m2 >= c * c,
        m == crate::fx::sqrt_floor(m2),
        m >= 1,
        m2 >= 0,
    ensures
        -(SCALE as int) <= div_floor(c * SCALE, m) <= SCALE as int,
{
    crate::fx::lemma_sqrt_floor_bounds(m2);
    if c > m || c < -m {
        assert((m + 1) * (m + 1) <= c * c) by (nonlinear_arith)
            requires
                m >= 1,
                c > m || c < -m,
        ;
    }
    lemma_mul_bound(c, SCALE as int, m, 1_000_000);
    crate::fx::lemma_div_bound_by(c * SCALE, m, SCALE as int);
}

/// A floor quotient is no larger in magnitude than its dividend when
/// the divisor is at least one.
pub proof fn lemma_div_floor_small(a: int, b: int)
    requires
        b >= 1,
    ensures
        a >= 0 ==> 0 <= div_floor(a, b) <= a,
        a < 0 ==> a <= div_floor(a, b) <= 0,
{
    vstd::arithmetic::div_mod::lemma_fundamental_div_mod(a, b);
    vstd::arithmetic::div_mod::lemma_mod_bound(a, b);
    if a >= 0 {
        vstd::arithmetic::div_mod::lemma_div_is_ordered(0, a, b);
        vstd::arithmetic::div_mod::lemma_div_nonincreasing(a, b);
    } else {
        vstd::arithmetic::div_mod::lemma_div_is_ordered(a, 0, b);
        assert(a <= a / b) by (nonlinear_arith)
            requires
                b >= 1,
                a < 0,
                a == b * (a / b) + a % b,
                0 <= a % b < b,
        ;
    }
}

/// Widened dot product of two small vectors.
pub(crate) fn dotw(a: &Vec3, b: &Vec3) -> (r: i128)
    requires
        a.small(),
        b.small(),
    ensures
        r == dot3(a.t3(), b.t3()),
        -12_000_000_000_000_000_000 <= r <= 12_000_000_000_000_000_000,
{
    let px = mulw(a.x as i128, b.x as i128);
    let py = mulw(a.y as i128, b.y as i128);
    let pz = mulw(a.z as i128, b.z as i128);
    proof {
        lemma_mul_bound(a.x as int, b.x as int, 2_000_000_000, 2_000_000_000);
        lemma_mul_bound(a.y as int, b.y as int, 2_000_000_000, 2_000_000_000);
        lemma_mul_bound(a.z as int, b.z as int, 2_000_000_000, 2_000_000_000);
    }
    px + py + pz
}

/// Widened cross product of two small vectors.
pub(crate) fn crossw(a: &Vec3, b: &Vec3) -> (r: (i128, i128, i128))
    requires
        a.small(),
        b.small(),
    ensures
        (r.0 as int, r.1 as int, r.2 as int) == cross3(a.t3(), b.t3()),
        -8_000_000_000_000_000_000 <= r.0 <= 8_000_000_000_000_000_000,
        -8_000_000_000_000_000_000 <= r.1 <= 8_000_000_000_000_000_000,
        -8_000_000_000_000_000_000 <= r.2 <= 8_000_000_000_000_000_000,
{
    proof {
        lemma_mul_bound(a.y as int, b.z as int, 2_000_000_000, 2_000_000_000);
        lemma_mul_bound(a.z as int, b.y as int, 2_000_000_000, 2_000_000_000);
        lemma_mul_bound(a.z as int, b.x as int, 2_000_000_000, 2_000_000_000);
        lemma_mul_bound(a.x as int, b.z as int, 2_000_000_000, 2_000_000_000);
        lemma_mul_bound(a.x as int, b.y as int, 2_000_000_000, 2_000_000_000);
        lemma_mul_bound(a.y as int, b.x as int, 2_000_000_000, 2_000_000_000);
    }
    let cx = mulw(a.y as i128, b.z as i128) - mulw(a.z as i128, b.y as i128);
    let cy = mulw(a.z as i128, b.x as i128) - mulw(a.x as i128, b.z as i128);
    let cz = mulw(a.x as i128, b.y as i128) - mulw(a.y as i128, b.x as i128);
    (cx, cy, cz)
}

/// Widened dot product of a small vector with an `i128` triple.
pub(crate) fn dotwide(a: &Vec3, w: (i128, i128, i128)) -> (r: i128)
    requires
        a.small(),
        -8_000_000_000_000_000_000 <= w.0 <= 8_000_000_000_000_000_000,
        -8_000_000_000_000_000_000 <= w.1 <= 8_000_000_000_000_000_000,
        -8_000_000_000_000_000_000 <= w.2 <= 8_000_000_000_000_000_000,
    ensures
        r == dot3(a.t3(), (w.0 as int, w.1 as int, w.2 as int)),
        -48_000_000_000_000_000_000_000_000_000 <= r <= 48_000_000_000_000_000_000_000_000_000,
{
    proof {
        lemma_mul_bound(a.x as int, w.0 as int, 2_000_000_000, 8_000_000_000_000_000_000);
        lemma_mul_bound(a.y as int, w.1 as int, 2_000_000_000, 8_000_000_000_000_000_000);
        lemma_mul_bound(a.z as int, w.2 as int, 2_000_000_000, 8_000_000_000_000_000_000);
    }
    (a.x as i128) * w.0 + (a.y as i128) * w.1 + (a.z as i128) * w.2
}

} // verus!
