//! Triangles: area, centroid, bounding volumes, barycentric
//! interpolation, midpoint subdivision and ray intersection, all with
//! exact fixed-point contracts.

use vstd::prelude::*;
use crate::fx::{SCALE, div_floor, divi, isqrt, sqrt_floor, lemma_isqrt_is_sqrt_floor,
    lemma_mul_bound, lemma_div_bound_by, mulw, mulm, div_scale, clamp_i, clampi};
use vstd::arithmetic::div_mod::lemma_fundamental_div_mod;
use crate::vec3::{Vec3, T3, sub3, dot3, cross3, dotw, crossw, dotwide, lemma_div_floor_small,
    lemma_unit_component};
use crate::aabb::Aabb;

verus! {

/// A triangle of three point vertices.
#[derive(Clone, Copy, Debug, PartialEq, Eq)]
#[verifier::ext_equal]
pub struct Triangle {
    pub vertices: [Vec3; 3],
}

impl Triangle {
    pub open spec fn v0(self) -> Vec3 {
        self.vertices[0]
    }

    pub open spec fn v1(self) -> Vec3 {
        self.vertices[1]
    }

    pub open spec fn v2(self) -> Vec3 {
        self.vertices[2]
    }

    /// All vertices within the representable scene volume.
    pub open spec fn wf(self) -> bool {
        self.v0().ok() && self.v1().ok() && self.v2().ok()
    }

    /// Edge from the first vertex to the second.
    pub open spec fn e1(self) -> T3 {
        sub3(self.v1(), self.v0())
    }

    /// Edge from the first vertex to the third.
    pub open spec fn e2(self) -> T3 {
        sub3(self.v2(), self.v0())
    }

    /// Squared magnitude of the edge cross product; four times the
    /// squared area in raw (twice-scaled) units.
    pub open spec fn spec_cross_mag2(self) -> int {
        let c = cross3(self.e1(), self.e2());
        c.0 * c.0 + c.1 * c.1 + c.2 * c.2
    }

    /// The area: half the cross-product magnitude, rounded down.
    pub open spec fn spec_area(self) -> int {
        div_floor(sqrt_floor(self.spec_cross_mag2()), 2 * SCALE)
    }

    pub fn new(vertex0: Vec3, vertex1: Vec3, vertex2: Vec3) -> (r: Triangle)
        ensures
            r.v0() == vertex0,
            r.v1() == vertex1,
            r.v2() == vertex2,
    {
        Triangle { vertices: [vertex0, vertex1, vertex2] }
    }

    /// The smallest box enclosing the three vertices.
    pub fn bounds(&self) -> (r: Aabb)
        ensures
            r == Aabb::spec_empty().spec_extend(self.v0()).spec_extend(self.v1()).spec_extend(
                self.v2(),
            ),
    {
        Aabb::empty().extend(self.vertices[0]).extend(self.vertices[1]).extend(self.vertices[2])
    }

    /// `||(v1 - v0) x (v2 - v0)|| / 2`, rounded down. A degenerate
    /// (collinear) triangle has area zero, but so does any triangle
    /// whose exact area falls below one fixed-point unit: the floor
    /// erases sub-resolution areas, as f32 underflow does in kind.
    pub fn area(&self) -> (r: i64)
        requires
            self.wf(),
        ensures
            r == self.spec_area(),
            r >= 0,
    {
        let e1 = self.vertices[1].sub(self.vertices[0]);
        let e2 = self.vertices[2].sub(self.vertices[0]);
        let c = crossw(&e1, &e2);
        proof {
            lemma_cross_of_edges_bounded(e1.t3(), e2.t3());
        }
        let m2 = mulm(c.0, c.0) + mulm(c.1, c.1) + mulm(c.2, c.2);
        proof {
            assert(c.0 as int * c.0 as int >= 0) by (nonlinear_arith);
            assert(c.1 as int * c.1 as int >= 0) by (nonlinear_arith);
            assert(c.2 as int * c.2 as int >= 0) by (nonlinear_arith);
        }
        let m = isqrt(m2 as u128);
        proof {
            lemma_isqrt_is_sqrt_floor(m2 as int, m as int);
        }
        let r = m / 2_000_000u64;
        proof {
            lemma_div_floor_small(m as int, 2_000_000);
        }
        r as i64
    }

    /// The centroid: the componentwise average of the vertices,
    /// rounded down.
    pub fn center(&self) -> (r: Vec3)
        requires
            self.wf(),
        ensures
            r.x == div_floor(self.v0().x + self.v1().x + self.v2().x, 3),
            r.y == div_floor(self.v0().y + self.v1().y + self.v2().y, 3),
            r.z == div_floor(self.v0().z + self.v1().z + self.v2().z, 3),
    {
        let sx = self.vertices[0].x + self.vertices[1].x + self.vertices[2].x;
        let sy = self.vertices[0].y + self.vertices[1].y + self.vertices[2].y;
        let sz = self.vertices[0].z + self.vertices[1].z + self.vertices[2].z;
        Vec3 {
            x: divi(sx as i128, 3) as i64,
            y: divi(sy as i128, 3) as i64,
            z: divi(sz as i128, 3) as i64,
        }
    }
}

impl Triangle {
    /// The ray parameter at which the ray meets the triangle, by the
    /// edge-vector cross-product formulation over exact integers. The
    /// determinant, barycentric numerators and parameter numerator are
    /// all taken relative to a sign-normalized (positive) determinant;
    /// a zero determinant means the ray is parallel to the triangle
    /// plane. Parameters below one fixed-point unit are rejected as
    /// degenerate self-intersections, and ones beyond the `i64` range
    /// as out of scene.
    pub open spec fn spec_ray_hit(self, ray_origin: Vec3, ray_direction: Vec3) -> Option<int> {
        let e1 = self.e1();
        let e2 = self.e2();
        let h = cross3(ray_direction.t3(), e2);
        let det = dot3(e1, h);
        if det == 0 {
            None
        } else {
            let sg: int = if det < 0 {
                -1
            } else {
                1
            };
            let dt = sg * det;
            let s = sub3(ray_origin, self.v0());
            let su = sg * dot3(s, h);
            let q = cross3(s, e1);
            let sv = sg * dot3(ray_direction.t3(), q);
            let st = sg * dot3(e2, q);
            if su < 0 || su > dt || sv < 0 || su + sv > dt {
                None
            } else {
                let t = div_floor(st * SCALE, dt);
                if 1 <= t <= i64::MAX {
                    Some(t)
                } else {
                    None
                }
            }
        }
    }

    /// Where the ray meets the triangle, as a point: the origin moved
    /// `t` times the direction, each component saturated into the
    /// fixed-point working range.
    pub open spec fn spec_ray_hit_point(self, ray_origin: Vec3, ray_direction: Vec3) -> Option<
        Vec3,
    > {
        match self.spec_ray_hit(ray_origin, ray_direction) {
            None => None,
            Some(t) => Some(
                Vec3 {
                    x: (ray_origin.x + clamp_i(
                        div_floor(ray_direction.x * t, SCALE as int),
                        -1_000_000_000_000_000,
                        1_000_000_000_000_000,
                    )) as i64,
                    y: (ray_origin.y + clamp_i(
                        div_floor(ray_direction.y * t, SCALE as int),
                        -1_000_000_000_000_000,
                        1_000_000_000_000_000,
                    )) as i64,
                    z: (ray_origin.z + clamp_i(
                        div_floor(ray_direction.z * t, SCALE as int),
                        -1_000_000_000_000_000,
                        1_000_000_000_000_000,
                    )) as i64,
                },
            ),
        }
    }

    pub fn ray_intersection_parameter(&self, ray_origin: Vec3, ray_direction: Vec3) -> (r: Option<
        i64,
    >)
        requires
            self.wf(),
            ray_origin.ok(),
            ray_direction.ok(),
        ensures
            r is Some <==> self.spec_ray_hit(ray_origin, ray_direction) is Some,
            r is Some ==> r->Some_0 == self.spec_ray_hit(ray_origin, ray_direction)->Some_0,
    {
        let e1 = self.vertices[1].sub(self.vertices[0]);
        let e2 = self.vertices[2].sub(self.vertices[0]);
        let h = crossw(&ray_direction, &e2);
        let det = dotwide(&e1, h);
        if det == 0 {
            return None;
        }
        let s = ray_origin.sub(self.vertices[0]);
        let su0 = dotwide(&s, h);
        let q = crossw(&s, &e1);
        let sv0 = dotwide(&ray_direction, q);
        let st0 = dotwide(&e2, q);
        let (dt, su, sv, st): (i128, i128, i128, i128) = if det < 0 {
            (-det, -su0, -sv0, -st0)
        } else {
            (det, su0, sv0, st0)
        };
        proof {
            let ghost sg: int = if det < 0 { -1int } else { 1int };
            assert(e1.t3() == self.e1());
            assert(e2.t3() == self.e2());
            assert((h.0 as int, h.1 as int, h.2 as int) == cross3(ray_direction.t3(), self.e2()));
            assert(det as int == dot3(self.e1(), cross3(ray_direction.t3(), self.e2())));
            assert(dt == sg * det);
            assert(su == sg * dot3(sub3(ray_origin, self.v0()), cross3(ray_direction.t3(), self.e2())));
            assert(sv == sg * dot3(ray_direction.t3(), cross3(sub3(ray_origin, self.v0()), self.e1())));
            assert(st == sg * dot3(self.e2(), cross3(sub3(ray_origin, self.v0()), self.e1())));
        }
        if su < 0 || su > dt || sv < 0 || su + sv > dt {
            return None;
        }
        let tnum = st * (SCALE as i128);
        let t = divi(tnum, dt);
        if 1 <= t && t <= i64::MAX as i128 {
            Some(t as i64)
        } else {
            None
        }
    }

    pub fn ray_intersection_point(&self, ray_origin: Vec3, ray_direction: Vec3) -> (r: Option<
        Vec3,
    >)
        requires
            self.wf(),
            ray_origin.ok(),
            ray_direction.ok(),
        ensures
            r == self.spec_ray_hit_point(ray_origin, ray_direction),
    {
        match self.ray_intersection_parameter(ray_origin, ray_direction) {
            None => None,
            Some(t) => {
                proof {
                    lemma_mul_bound(
                        ray_direction.x as int,
                        t as int,
                        500_000_000,
                        0x7fff_ffff_ffff_ffff,
                    );
                    lemma_mul_bound(
                        ray_direction.y as int,
                        t as int,
                        500_000_000,
                        0x7fff_ffff_ffff_ffff,
                    );
                    lemma_mul_bound(
                        ray_direction.z as int,
                        t as int,
                        500_000_000,
                        0x7fff_ffff_ffff_ffff,
                    );
                }
                let ox = divi((ray_direction.x as i128) * (t as i128), SCALE as i128);
                let oy = divi((ray_direction.y as i128) * (t as i128), SCALE as i128);
                let oz = divi((ray_direction.z as i128) * (t as i128), SCALE as i128);
                Some(
                    Vec3 {
                        x: ray_origin.x + clampi(ox, 1_000_000_000_000_000),
                        y: ray_origin.y + clampi(oy, 1_000_000_000_000_000),
                        z: ray_origin.z + clampi(oz, 1_000_000_000_000_000),
                    },
                )
            },
        }
    }
}

impl Triangle {
    /// Edge Gram dot products `(dd00, dd01, dd11)`, rescaled to fixed
    /// point.
    pub open spec fn spec_dd(self) -> (int, int, int) {
        (
            div_floor(dot3(self.e1(), self.e1()), SCALE as int),
            div_floor(dot3(self.e1(), self.e2()), SCALE as int),
            div_floor(dot3(self.e2(), self.e2()), SCALE as int),
        )
    }

    /// Determinant of the rescaled Gram matrix; zero exactly when the
    /// triangle is (numerically) degenerate.
    pub open spec fn spec_bary_denom(self) -> int {
        let (d00, d01, d11) = self.spec_dd();
        d00 * d11 - d01 * d01
    }

    /// Cramer numerators `(num_v, num_w)` of the barycentric system
    /// for point `p`.
    pub open spec fn spec_bary_nums(self, p: Vec3) -> (int, int) {
        let (d00, d01, d11) = self.spec_dd();
        let d20 = div_floor(dot3(sub3(p, self.v0()), self.e1()), SCALE as int);
        let d21 = div_floor(dot3(sub3(p, self.v0()), self.e2()), SCALE as int);
        (d11 * d20 - d01 * d21, d00 * d21 - d01 * d20)
    }

    /// Barycentric weights `(u, v, w)` of the point closest to `p` in
    /// the triangle plane, each saturated into working range; a
    /// degenerate triangle yields the first-vertex weight by
    /// convention.
    pub open spec fn spec_barycentric(self, p: Vec3) -> (int, int, int) {
        let denom = self.spec_bary_denom();
        if denom == 0 {
            (SCALE as int, 0, 0)
        } else {
            let (num_v, num_w) = self.spec_bary_nums(p);
            let v = clamp_i(
                div_floor(num_v * SCALE, denom),
                -1_000_000_000_000_000,
                1_000_000_000_000_000,
            );
            let w = clamp_i(
                div_floor(num_w * SCALE, denom),
                -1_000_000_000_000_000,
                1_000_000_000_000_000,
            );
            (SCALE - v - w, v, w)
        }
    }

    /// The vertex blend under weights `(w0, w1, w2)` (fixed-point,
    /// summing to `SCALE` for an affine combination).
    pub open spec fn spec_interp_bary(self, w0: int, w1: int, w2: int) -> Vec3 {
        Vec3 {
            x: div_floor(w0 * self.v0().x + w1 * self.v1().x + w2 * self.v2().x, SCALE as int) as i64,
            y: div_floor(w0 * self.v0().y + w1 * self.v1().y + w2 * self.v2().y, SCALE as int) as i64,
            z: div_floor(w0 * self.v0().z + w1 * self.v1().z + w2 * self.v2().z, SCALE as int) as i64,
        }
    }

    /// The position interpolated at `p` from the exact Cramer
    /// numerators (one rounding per component), saturated into
    /// working range; a degenerate triangle yields its first vertex.
    pub open spec fn spec_interpolate_at(self, p: Vec3) -> Vec3 {
        let denom = self.spec_bary_denom();
        if denom == 0 {
            self.v0()
        } else {
            let (num_v, num_w) = self.spec_bary_nums(p);
            let num_u = denom - num_v - num_w;
            Vec3 {
                x: (clamp_i(
                    div_floor(
                        num_u * self.v0().x + num_v * self.v1().x + num_w * self.v2().x,
                        denom,
                    ),
                    -1_000_000_000_000_000,
                    1_000_000_000_000_000,
                )) as i64,
                y: (clamp_i(
                    div_floor(
                        num_u * self.v0().y + num_v * self.v1().y + num_w * self.v2().y,
                        denom,
                    ),
                    -1_000_000_000_000_000,
                    1_000_000_000_000_000,
                )) as i64,
                z: (clamp_i(
                    div_floor(
                        num_u * self.v0().z + num_v * self.v1().z + num_w * self.v2().z,
                        denom,
                    ),
                    -1_000_000_000_000_000,
                    1_000_000_000_000_000,
                )) as i64,
            }
        }
    }

    /// Compute the rescaled Gram data and Cramer numerators for `p`.
    fn bary_parts(&self, p: Vec3) -> (r: (i128, i128, i128))
        requires
            self.wf(),
            p.ok(),
        ensures
            r.0 == self.spec_bary_denom(),
            (r.1 as int, r.2 as int) == self.spec_bary_nums(p),
            -300_000_000_000_000_000_000_000_000 <= r.0 <= 300_000_000_000_000_000_000_000_000,
            -300_000_000_000_000_000_000_000_000 <= r.1 <= 300_000_000_000_000_000_000_000_000,
            -300_000_000_000_000_000_000_000_000 <= r.2 <= 300_000_000_000_000_000_000_000_000,
    {
        let e1 = self.vertices[1].sub(self.vertices[0]);
        let e2 = self.vertices[2].sub(self.vertices[0]);
        let s = p.sub(self.vertices[0]);
        let dd00 = divi(dotw(&e1, &e1), SCALE as i128);
        let dd01 = divi(dotw(&e1, &e2), SCALE as i128);
        let dd11 = divi(dotw(&e2, &e2), SCALE as i128);
        let dd20 = divi(dotw(&s, &e1), SCALE as i128);
        let dd21 = divi(dotw(&s, &e2), SCALE as i128);
        proof {
            lemma_div_bound_by(dot3(self.e1(), self.e1()), SCALE as int, 12_000_000_000_000);
            lemma_div_bound_by(dot3(self.e1(), self.e2()), SCALE as int, 12_000_000_000_000);
            lemma_div_bound_by(dot3(self.e2(), self.e2()), SCALE as int, 12_000_000_000_000);
            lemma_div_bound_by(
                dot3(sub3(p, self.v0()), self.e1()),
                SCALE as int,
                12_000_000_000_000,
            );
            lemma_div_bound_by(
                dot3(sub3(p, self.v0()), self.e2()),
                SCALE as int,
                12_000_000_000_000,
            );
        }
        let denom = mulm(dd00, dd11) - mulm(dd01, dd01);
        let num_v = mulm(dd11, dd20) - mulm(dd01, dd21);
        let num_w = mulm(dd00, dd21) - mulm(dd01, dd20);
        proof {
            lemma_mul_bound(dd00 as int, dd11 as int, 12_000_000_000_000, 12_000_000_000_000);
            lemma_mul_bound(dd01 as int, dd01 as int, 12_000_000_000_000, 12_000_000_000_000);
            lemma_mul_bound(dd11 as int, dd20 as int, 12_000_000_000_000, 12_000_000_000_000);
            lemma_mul_bound(dd01 as int, dd21 as int, 12_000_000_000_000, 12_000_000_000_000);
            lemma_mul_bound(dd00 as int, dd21 as int, 12_000_000_000_000, 12_000_000_000_000);
            lemma_mul_bound(dd01 as int, dd20 as int, 12_000_000_000_000, 12_000_000_000_000);
        }
        (denom, num_v, num_w)
    }

    /// Barycentric weights `[u, v, w]` for the point closest to `p`
    /// on the triangle plane.
    pub fn barycentric_at(&self, p: Vec3) -> (r: [i64; 3])
        requires
            self.wf(),
            p.ok(),
        ensures
            (r[0] as int, r[1] as int, r[2] as int) == self.spec_barycentric(p),
            -3_000_000_000_000_000 <= r[0] <= 3_000_000_000_000_000,
            -1_000_000_000_000_000 <= r[1] <= 1_000_000_000_000_000,
            -1_000_000_000_000_000 <= r[2] <= 1_000_000_000_000_000,
    {
        let (denom, num_v, num_w) = self.bary_parts(p);
        if denom == 0 {
            return [SCALE, 0, 0];
        }
        proof {
            lemma_mul_bound(num_v as int, SCALE as int, 300_000_000_000_000_000_000_000_000, 1_000_000);
            lemma_mul_bound(num_w as int, SCALE as int, 300_000_000_000_000_000_000_000_000, 1_000_000);
        }
        let v = clampi(divi(num_v * (SCALE as i128), denom), 1_000_000_000_000_000);
        let w = clampi(divi(num_w * (SCALE as i128), denom), 1_000_000_000_000_000);
        let u = SCALE - v - w;
        [u, v, w]
    }

    /// Blends the vertices under the given fixed-point weights.
    pub fn interpolate_bary(&self, weights: [i64; 3]) -> (r: Vec3)
        requires
            self.wf(),
            -4_000_000_000_000_000 <= weights[0] <= 4_000_000_000_000_000,
            -4_000_000_000_000_000 <= weights[1] <= 4_000_000_000_000_000,
            -4_000_000_000_000_000 <= weights[2] <= 4_000_000_000_000_000,
        ensures
            r == self.spec_interp_bary(weights[0] as int, weights[1] as int, weights[2] as int),
    {
        proof {
            lemma_interp_products_bounded(
                weights[0] as int,
                weights[1] as int,
                weights[2] as int,
                self.v0(),
                self.v1(),
                self.v2(),
            );
        }
        let sx = (weights[0] as i128) * (self.vertices[0].x as i128) + (weights[1] as i128)
            * (self.vertices[1].x as i128) + (weights[2] as i128) * (self.vertices[2].x as i128);
        let sy = (weights[0] as i128) * (self.vertices[0].y as i128) + (weights[1] as i128)
            * (self.vertices[1].y as i128) + (weights[2] as i128) * (self.vertices[2].y as i128);
        let sz = (weights[0] as i128) * (self.vertices[0].z as i128) + (weights[1] as i128)
            * (self.vertices[1].z as i128) + (weights[2] as i128) * (self.vertices[2].z as i128);
        Vec3 { x: div_scale(sx), y: div_scale(sy), z: div_scale(sz) }
    }

    /// Synthesizes a vertex at the given weights; for point vertices
    /// this is the weight blend itself.
    pub fn interpolate_vertex_at_bary(&self, weights: [i64; 3]) -> (r: Vec3)
        requires
            self.wf(),
            -4_000_000_000_000_000 <= weights[0] <= 4_000_000_000_000_000,
            -4_000_000_000_000_000 <= weights[1] <= 4_000_000_000_000_000,
            -4_000_000_000_000_000 <= weights[2] <= 4_000_000_000_000_000,
        ensures
            r == self.spec_interp_bary(weights[0] as int, weights[1] as int, weights[2] as int),
    {
        self.interpolate_bary(weights)
    }

    /// Synthesizes a vertex at `p` from `p`'s own barycentric weights.
    pub fn interpolate_vertex_at_position(&self, position: Vec3) -> (r: Vec3)
        requires
            self.wf(),
            position.ok(),
        ensures
            ({
                let (u, v, w) = self.spec_barycentric(position);
                r == self.spec_interp_bary(u, v, w)
            }),
    {
        let weights = self.barycentric_at(position);
        self.interpolate_bary(weights)
    }

    /// Interpolates the position field at `p` with one rounding per
    /// component, so that points of the triangle plane reproduce
    /// themselves exactly.
    pub fn interpolate_at(&self, position: Vec3) -> (r: Vec3)
        requires
            self.wf(),
            position.ok(),
        ensures
            r == self.spec_interpolate_at(position),
    {
        let (denom, num_v, num_w) = self.bary_parts(position);
        if denom == 0 {
            return self.vertices[0];
        }
        let num_u = denom - num_v - num_w;
        proof {
            lemma_interp_wide_products_bounded(
                num_u as int,
                num_v as int,
                num_w as int,
                self.v0(),
                self.v1(),
                self.v2(),
            );
        }
        let sx = num_u * (self.vertices[0].x as i128) + num_v * (self.vertices[1].x as i128)
            + num_w * (self.vertices[2].x as i128);
        let sy = num_u * (self.vertices[0].y as i128) + num_v * (self.vertices[1].y as i128)
            + num_w * (self.vertices[2].y as i128);
        let sz = num_u * (self.vertices[0].z as i128) + num_v * (self.vertices[1].z as i128)
            + num_w * (self.vertices[2].z as i128);
        Vec3 {
            x: clampi(divi(sx, denom), 1_000_000_000_000_000),
            y: clampi(divi(sy, denom), 1_000_000_000_000_000),
            z: clampi(divi(sz, denom), 1_000_000_000_000_000),
        }
    }

    /// The four sub-triangles of the midpoint split: the middle
    /// triangle of the three edge midpoints, then one corner triangle
    /// per midpoint.
    pub open spec fn spec_split(self) -> Seq<Triangle> {
        let h = SCALE as int / 2;
        let m0 = self.spec_interp_bary(h, h, 0);
        let m1 = self.spec_interp_bary(0, h, h);
        let m2 = self.spec_interp_bary(h, 0, h);
        seq![
            Triangle { vertices: [m0, m1, m2] },
            Triangle { vertices: [m0, self.v1(), m1] },
            Triangle { vertices: [m1, self.v2(), m2] },
            Triangle { vertices: [m2, self.v0(), m0] },
        ]
    }

    /// Splits the triangle at its three edge midpoints.
    pub fn split_at_edge_midpoints(&self) -> (r: [Triangle; 4])
        requires
            self.wf(),
        ensures
            r@ == self.spec_split(),
    {
        let half: i64 = 500_000;
        let m0 = self.interpolate_vertex_at_bary([half, half, 0]);
        let m1 = self.interpolate_vertex_at_bary([0, half, half]);
        let m2 = self.interpolate_vertex_at_bary([half, 0, half]);
        let r = [
            Triangle { vertices: [m0, m1, m2] },
            Triangle { vertices: [m0, self.vertices[1], m1] },
            Triangle { vertices: [m1, self.vertices[2], m2] },
            Triangle { vertices: [m2, self.vertices[0], m0] },
        ];
        proof {
            assert(r@ =~= self.spec_split());
        }
        r
    }

    /// Whether the triangle lies strictly inside the given sphere.
    pub fn is_inside_sphere(&self, center: Vec3, radius: i64) -> (r: bool)
        requires
            self.wf(),
            center.ok(),
            0 <= radius <= 2_000_000_000,
        ensures
            r <==> {
                &&& spec_dist2(self.v0(), center) < radius * radius
                &&& spec_dist2(self.v1(), center) < radius * radius
                &&& spec_dist2(self.v2(), center) < radius * radius
            },
    {
        proof {
            lemma_mul_bound(radius as int, radius as int, 2_000_000_000, 2_000_000_000);
        }
        let r2 = (radius as i128) * (radius as i128);
        let d0 = self.vertices[0].sub(center);
        let d1 = self.vertices[1].sub(center);
        let d2 = self.vertices[2].sub(center);
        dotw(&d0, &d0) < r2 && dotw(&d1, &d1) < r2 && dotw(&d2, &d2) < r2
    }
}

/// Squared distance between two points.
pub open spec fn spec_dist2(a: Vec3, b: Vec3) -> int {
    dot3(sub3(a, b), sub3(a, b))
}

/// The midpoint of two points, rounded down.
pub open spec fn spec_mid(a: Vec3, b: Vec3) -> Vec3 {
    Vec3 {
        x: div_floor(a.x + b.x, 2) as i64,
        y: div_floor(a.y + b.y, 2) as i64,
        z: div_floor(a.z + b.z, 2) as i64,
    }
}

impl Triangle {
    /// The edge cross product rescaled to fixed point.
    pub open spec fn spec_scaled_cross(self) -> T3 {
        let c = cross3(self.e1(), self.e2());
        (
            div_floor(c.0, SCALE as int),
            div_floor(c.1, SCALE as int),
            div_floor(c.2, SCALE as int),
        )
    }

    /// The geometric unit normal (length `SCALE`), or zero for a
    /// degenerate triangle.
    pub open spec fn spec_normal(self) -> Vec3 {
        let n = self.spec_scaled_cross();
        let m = sqrt_floor(dot3(n, n));
        if m == 0 {
            Vec3 { x: 0, y: 0, z: 0 }
        } else {
            Vec3 {
                x: div_floor(n.0 * SCALE, m) as i64,
                y: div_floor(n.1 * SCALE, m) as i64,
                z: div_floor(n.2 * SCALE, m) as i64,
            }
        }
    }

    pub fn normal(&self) -> (r: Vec3)
        requires
            self.wf(),
        ensures
            r == self.spec_normal(),
            crate::vec3::t3_bounded(r.t3(), SCALE as int),
    {
        let e1 = self.vertices[1].sub(self.vertices[0]);
        let e2 = self.vertices[2].sub(self.vertices[0]);
        let c = crossw(&e1, &e2);
        let n0 = divi(c.0, SCALE as i128);
        let n1 = divi(c.1, SCALE as i128);
        let n2 = divi(c.2, SCALE as i128);
        proof {
            lemma_div_bound_by(c.0 as int, SCALE as int, 8_000_000_000_000);
            lemma_div_bound_by(c.1 as int, SCALE as int, 8_000_000_000_000);
            lemma_div_bound_by(c.2 as int, SCALE as int, 8_000_000_000_000);
        }
        let m2 = mulm(n0, n0) + mulm(n1, n1) + mulm(n2, n2);
        proof {
            assert(n0 as int * n0 as int >= 0) by (nonlinear_arith);
            assert(n1 as int * n1 as int >= 0) by (nonlinear_arith);
            assert(n2 as int * n2 as int >= 0) by (nonlinear_arith);
        }
        let m = isqrt(m2 as u128);
        proof {
            lemma_isqrt_is_sqrt_floor(m2 as int, m as int);
        }
        if m == 0 {
            Vec3 { x: 0, y: 0, z: 0 }
        } else {
            proof {
                lemma_unit_component(n0 as int, m2 as int, m as int);
                lemma_unit_component(n1 as int, m2 as int, m as int);
                lemma_unit_component(n2 as int, m2 as int, m as int);
                lemma_mul_bound(n0 as int, SCALE as int, 8_000_000_000_000, 1_000_000);
                lemma_mul_bound(n1 as int, SCALE as int, 8_000_000_000_000, 1_000_000);
                lemma_mul_bound(n2 as int, SCALE as int, 8_000_000_000_000, 1_000_000);
            }
            Vec3 {
                x: divi(n0 * (SCALE as i128), m as i128) as i64,
                y: divi(n1 * (SCALE as i128), m as i128) as i64,
                z: divi(n2 * (SCALE as i128), m as i128) as i64,
            }
        }
    }

    /// The center of the sphere through all three vertices, from the
    /// vector identity
    /// `a + (|ac|^2 (ab x ac) x ab + |ab|^2 ac x (ab x ac)) / (2 |ab x ac|^2)`
    /// with every intermediate rescaled to fixed point; a degenerate
    /// triangle yields its first vertex.
    pub open spec fn spec_circumcenter(self) -> Vec3 {
        let ab = self.e1();
        let ac = self.e2();
        let c1 = self.spec_scaled_cross();
        let c2 = cross3(c1, ab);
        let c3 = cross3(ac, c1);
        let (d00, _, d11) = self.spec_dd();
        let den = 2 * div_floor(dot3(c1, c1), SCALE as int);
        if den == 0 {
            self.v0()
        } else {
            Vec3 {
                x: (self.v0().x + clamp_i(
                    div_floor(
                        div_floor(c2.0, SCALE as int) * d11 + div_floor(c3.0, SCALE as int) * d00,
                        den,
                    ),
                    -1_000_000_000_000_000,
                    1_000_000_000_000_000,
                )) as i64,
                y: (self.v0().y + clamp_i(
                    div_floor(
                        div_floor(c2.1, SCALE as int) * d11 + div_floor(c3.1, SCALE as int) * d00,
                        den,
                    ),
                    -1_000_000_000_000_000,
                    1_000_000_000_000_000,
                )) as i64,
                z: (self.v0().z + clamp_i(
                    div_floor(
                        div_floor(c2.2, SCALE as int) * d11 + div_floor(c3.2, SCALE as int) * d00,
                        den,
                    ),
                    -1_000_000_000_000_000,
                    1_000_000_000_000_000,
                )) as i64,
            }
        }
    }

    /// The center of a sphere that runs through all three vertices.
    pub fn circumcenter(&self) -> (r: Vec3)
        requires
            self.wf(),
        ensures
            r == self.spec_circumcenter(),
    {
        let ab = self.vertices[1].sub(self.vertices[0]);
        let ac = self.vertices[2].sub(self.vertices[0]);
        let cr = crossw(&ab, &ac);
        let c10 = divi(cr.0, SCALE as i128);
        let c11 = divi(cr.1, SCALE as i128);
        let c12 = divi(cr.2, SCALE as i128);
        proof {
            lemma_div_bound_by(cr.0 as int, SCALE as int, 8_000_000_000_000);
            lemma_div_bound_by(cr.1 as int, SCALE as int, 8_000_000_000_000);
            lemma_div_bound_by(cr.2 as int, SCALE as int, 8_000_000_000_000);
        }
        proof {
            lemma_mul_bound(c10 as int, c10 as int, 8_000_000_000_000, 8_000_000_000_000);
            lemma_mul_bound(c11 as int, c11 as int, 8_000_000_000_000, 8_000_000_000_000);
            lemma_mul_bound(c12 as int, c12 as int, 8_000_000_000_000, 8_000_000_000_000);
        }
        let den2 = mulm(c10, c10) + mulm(c11, c11) + mulm(c12, c12);
        let den = 2 * divi(den2, SCALE as i128);
        proof {
            lemma_div_bound_by(den2 as int, SCALE as int, 200_000_000_000_000_000_000);
        }
        if den == 0 {
            return self.vertices[0];
        }
        let dd00 = divi(dotw(&ab, &ab), SCALE as i128);
        let dd11 = divi(dotw(&ac, &ac), SCALE as i128);
        proof {
            lemma_div_bound_by(dot3(self.e1(), self.e1()), SCALE as int, 12_000_000_000_000);
            lemma_div_bound_by(dot3(self.e2(), self.e2()), SCALE as int, 12_000_000_000_000);
            lemma_cross_c1_products_bounded(
                (c10 as int, c11 as int, c12 as int),
                ab.t3(),
                ac.t3(),
            );
        }
        let c20 = divi(mulm(c11, ab.z as i128) - mulm(c12, ab.y as i128), SCALE as i128);
        let c21 = divi(mulm(c12, ab.x as i128) - mulm(c10, ab.z as i128), SCALE as i128);
        let c22 = divi(mulm(c10, ab.y as i128) - mulm(c11, ab.x as i128), SCALE as i128);
        let c30 = divi(mulm(ac.y as i128, c12) - mulm(ac.z as i128, c11), SCALE as i128);
        let c31 = divi(mulm(ac.z as i128, c10) - mulm(ac.x as i128, c12), SCALE as i128);
        let c32 = divi(mulm(ac.x as i128, c11) - mulm(ac.y as i128, c10), SCALE as i128);
        proof {
            lemma_div_bound_by(
                cross3((c10 as int, c11 as int, c12 as int), ab.t3()).0,
                SCALE as int,
                16_000_000_000_000_000,
            );
            lemma_div_bound_by(
                cross3((c10 as int, c11 as int, c12 as int), ab.t3()).1,
                SCALE as int,
                16_000_000_000_000_000,
            );
            lemma_div_bound_by(
                cross3((c10 as int, c11 as int, c12 as int), ab.t3()).2,
                SCALE as int,
                16_000_000_000_000_000,
            );
            lemma_div_bound_by(
                cross3(ac.t3(), (c10 as int, c11 as int, c12 as int)).0,
                SCALE as int,
                16_000_000_000_000_000,
            );
            lemma_div_bound_by(
                cross3(ac.t3(), (c10 as int, c11 as int, c12 as int)).1,
                SCALE as int,
                16_000_000_000_000_000,
            );
            lemma_div_bound_by(
                cross3(ac.t3(), (c10 as int, c11 as int, c12 as int)).2,
                SCALE as int,
                16_000_000_000_000_000,
            );
            lemma_mul_bound(c20 as int, dd11 as int, 16_000_000_000_000_000, 12_000_000_000_000);
            lemma_mul_bound(c21 as int, dd11 as int, 16_000_000_000_000_000, 12_000_000_000_000);
            lemma_mul_bound(c22 as int, dd11 as int, 16_000_000_000_000_000, 12_000_000_000_000);
            lemma_mul_bound(c30 as int, dd00 as int, 16_000_000_000_000_000, 12_000_000_000_000);
            lemma_mul_bound(c31 as int, dd00 as int, 16_000_000_000_000_000, 12_000_000_000_000);
            lemma_mul_bound(c32 as int, dd00 as int, 16_000_000_000_000_000, 12_000_000_000_000);
        }
        let nx = c20 * dd11 + c30 * dd00;
        let ny = c21 * dd11 + c31 * dd00;
        let nz = c22 * dd11 + c32 * dd00;
        Vec3 {
            x: self.vertices[0].x + clampi(divi(nx, den), 1_000_000_000_000_000),
            y: self.vertices[0].y + clampi(divi(ny, den), 1_000_000_000_000_000),
            z: self.vertices[0].z + clampi(divi(nz, den), 1_000_000_000_000_000),
        }
    }

    /// The direction with its normal component removed:
    /// `dir - (dir . n / SCALE^2) n` over the unit normal `n`.
    pub open spec fn spec_project_tangent(self, dir: Vec3) -> Vec3 {
        let n = self.spec_normal();
        let dp = dot3(dir.t3(), n.t3());
        Vec3 {
            x: (dir.x - div_floor(dp * n.x, 1_000_000_000_000)) as i64,
            y: (dir.y - div_floor(dp * n.y, 1_000_000_000_000)) as i64,
            z: (dir.z - div_floor(dp * n.z, 1_000_000_000_000)) as i64,
        }
    }

    /// Projects a (unit-sized) direction onto the triangle's tangent
    /// plane.
    pub fn project_onto_tangential_plane(&self, direction: Vec3) -> (r: Vec3)
        requires
            self.wf(),
            crate::vec3::t3_bounded(direction.t3(), 2 * SCALE),
        ensures
            r == self.spec_project_tangent(direction),
            crate::vec3::t3_bounded(r.t3(), 8_000_000),
    {
        let n = self.normal();
        let dp = dotw(&direction, &n);
        proof {
            lemma_mul_bound(direction.x as int, n.x as int, 2_000_000, 1_000_000);
            lemma_mul_bound(direction.y as int, n.y as int, 2_000_000, 1_000_000);
            lemma_mul_bound(direction.z as int, n.z as int, 2_000_000, 1_000_000);
            lemma_mul_bound(dp as int, n.x as int, 6_000_000_000_000, 1_000_000);
            lemma_mul_bound(dp as int, n.y as int, 6_000_000_000_000, 1_000_000);
            lemma_mul_bound(dp as int, n.z as int, 6_000_000_000_000, 1_000_000);
            lemma_div_bound_by(dp as int * n.x as int, 1_000_000_000_000, 6_000_000);
            lemma_div_bound_by(dp as int * n.y as int, 1_000_000_000_000, 6_000_000);
            lemma_div_bound_by(dp as int * n.z as int, 1_000_000_000_000, 6_000_000);
        }
        let ox = divi(dp * (n.x as i128), 1_000_000_000_000);
        let oy = divi(dp * (n.y as i128), 1_000_000_000_000);
        let oz = divi(dp * (n.z as i128), 1_000_000_000_000);
        Vec3 {
            x: direction.x - (ox as i64),
            y: direction.y - (oy as i64),
            z: direction.z - (oz as i64),
        }
    }

    /// Center and squared radius of the minimum bounding sphere: the
    /// circle through the projected barycentric solution when it lies
    /// inside the triangle, the enclosing edge midpoint circle when it
    /// does not, and the box center for a collinear triangle.
    pub open spec fn spec_min_sphere(self) -> (Vec3, int) {
        let (d00, d01, d11) = self.spec_dd();
        let dr = 2 * self.spec_bary_denom();
        if dr <= 0 {
            let bb = Aabb::spec_empty().spec_extend(self.v0()).spec_extend(
                self.v1(),
            ).spec_extend(self.v2());
            let center = spec_mid(bb.min, bb.max);
            (center, spec_dist2(center, bb.min))
        } else {
            let sfx = div_floor((d00 * d11 - d11 * d01) * SCALE, dr);
            let tfx = div_floor((d11 * d00 - d00 * d01) * SCALE, dr);
            if sfx <= 0 {
                (spec_mid(self.v0(), self.v2()), spec_dist2(spec_mid(self.v0(), self.v2()), self.v0()))
            } else if tfx <= 0 {
                (spec_mid(self.v0(), self.v1()), spec_dist2(spec_mid(self.v0(), self.v1()), self.v0()))
            } else if sfx + tfx >= SCALE {
                (spec_mid(self.v1(), self.v2()), spec_dist2(spec_mid(self.v1(), self.v2()), self.v1()))
            } else {
                let center = Vec3 {
                    x: (self.v0().x + div_floor(
                        sfx * (self.v1().x - self.v0().x) + tfx * (self.v2().x - self.v0().x),
                        SCALE as int,
                    )) as i64,
                    y: (self.v0().y + div_floor(
                        sfx * (self.v1().y - self.v0().y) + tfx * (self.v2().y - self.v0().y),
                        SCALE as int,
                    )) as i64,
                    z: (self.v0().z + div_floor(
                        sfx * (self.v1().z - self.v0().z) + tfx * (self.v2().z - self.v0().z),
                        SCALE as int,
                    )) as i64,
                };
                (center, spec_dist2(center, self.v0()))
            }
        }
    }

    /// The minimum bounding sphere's center and squared radius.
    pub fn minimum_bounding_sphere_sqr(&self) -> (r: (Vec3, i128))
        requires
            self.wf(),
        ensures
            r.0 == self.spec_min_sphere().0,
            r.1 == self.spec_min_sphere().1,
            0 <= r.1 <= 48_000_000_000_000_000_000,
    {
        let e1 = self.vertices[1].sub(self.vertices[0]);
        let e2 = self.vertices[2].sub(self.vertices[0]);
        let dd00 = divi(dotw(&e1, &e1), SCALE as i128);
        let dd01 = divi(dotw(&e1, &e2), SCALE as i128);
        let dd11 = divi(dotw(&e2, &e2), SCALE as i128);
        proof {
            lemma_div_bound_by(dot3(self.e1(), self.e1()), SCALE as int, 12_000_000_000_000);
            lemma_div_bound_by(dot3(self.e1(), self.e2()), SCALE as int, 12_000_000_000_000);
            lemma_div_bound_by(dot3(self.e2(), self.e2()), SCALE as int, 12_000_000_000_000);
        }
        let dr = 2 * (mulm(dd00, dd11) - mulm(dd01, dd01));
        proof {
            lemma_mul_bound(dd00 as int, dd11 as int, 12_000_000_000_000, 12_000_000_000_000);
            lemma_mul_bound(dd01 as int, dd01 as int, 12_000_000_000_000, 12_000_000_000_000);
            lemma_mul_bound(dd11 as int, dd01 as int, 12_000_000_000_000, 12_000_000_000_000);
            lemma_mul_bound(dd00 as int, dd01 as int, 12_000_000_000_000, 12_000_000_000_000);
        }
        let (center, reference): (Vec3, Vec3) = if dr <= 0 {
            let bb = self.bounds();
            (mid_point(bb.min, bb.max), bb.min)
        } else {
            let snum = mulm(dd00, dd11) - mulm(dd11, dd01);
            let tnum = mulm(dd11, dd00) - mulm(dd00, dd01);
            proof {
                lemma_mul_bound(snum as int, SCALE as int, 300_000_000_000_000_000_000_000_000, 1_000_000);
                lemma_mul_bound(tnum as int, SCALE as int, 300_000_000_000_000_000_000_000_000, 1_000_000);
            }
            let sfx = divi(snum * (SCALE as i128), dr);
            let tfx = divi(tnum * (SCALE as i128), dr);
            proof {
                lemma_div_floor_small(snum as int * SCALE as int, dr as int);
                lemma_div_floor_small(tnum as int * SCALE as int, dr as int);
            }
            if sfx <= 0 {
                (mid_point(self.vertices[0], self.vertices[2]), self.vertices[0])
            } else if tfx <= 0 {
                (mid_point(self.vertices[0], self.vertices[1]), self.vertices[0])
            } else if sfx + tfx >= SCALE as i128 {
                (mid_point(self.vertices[1], self.vertices[2]), self.vertices[1])
            } else {
                let sf = sfx as i64;
                let tf = tfx as i64;
                proof {
                    lemma_mul_bound(sf as int, (self.v1().x - self.v0().x), 1_000_000, 1_000_000_000);
                    lemma_mul_bound(sf as int, (self.v1().y - self.v0().y), 1_000_000, 1_000_000_000);
                    lemma_mul_bound(sf as int, (self.v1().z - self.v0().z), 1_000_000, 1_000_000_000);
                    lemma_mul_bound(tf as int, (self.v2().x - self.v0().x), 1_000_000, 1_000_000_000);
                    lemma_mul_bound(tf as int, (self.v2().y - self.v0().y), 1_000_000, 1_000_000_000);
                    lemma_mul_bound(tf as int, (self.v2().z - self.v0().z), 1_000_000, 1_000_000_000);
                    lemma_div_bound_by(
                        sf as int * (self.v1().x - self.v0().x) + tf as int * (self.v2().x - self.v0().x),
                        SCALE as int,
                        2_000_000_000,
                    );
                    lemma_div_bound_by(
                        sf as int * (self.v1().y - self.v0().y) + tf as int * (self.v2().y - self.v0().y),
                        SCALE as int,
                        2_000_000_000,
                    );
                    lemma_div_bound_by(
                        sf as int * (self.v1().z - self.v0().z) + tf as int * (self.v2().z - self.v0().z),
                        SCALE as int,
                        2_000_000_000,
                    );
                }
                let cx = self.vertices[0].x + divi(
                    (sf as i128) * ((self.vertices[1].x - self.vertices[0].x) as i128) + (
                    tf as i128) * ((self.vertices[2].x - self.vertices[0].x) as i128),
                    SCALE as i128,
                ) as i64;
                let cy = self.vertices[0].y + divi(
                    (sf as i128) * ((self.vertices[1].y - self.vertices[0].y) as i128) + (
                    tf as i128) * ((self.vertices[2].y - self.vertices[0].y) as i128),
                    SCALE as i128,
                ) as i64;
                let cz = self.vertices[0].z + divi(
                    (sf as i128) * ((self.vertices[1].z - self.vertices[0].z) as i128) + (
                    tf as i128) * ((self.vertices[2].z - self.vertices[0].z) as i128),
                    SCALE as i128,
                ) as i64;
                (Vec3 { x: cx, y: cy, z: cz }, self.vertices[0])
            }
        };
        let dx = (center.x as i128) - (reference.x as i128);
        let dy = (center.y as i128) - (reference.y as i128);
        let dz = (center.z as i128) - (reference.z as i128);
        proof {
            lemma_mul_bound(dx as int, dx as int, 4_000_000_000, 4_000_000_000);
            lemma_mul_bound(dy as int, dy as int, 4_000_000_000, 4_000_000_000);
            lemma_mul_bound(dz as int, dz as int, 4_000_000_000, 4_000_000_000);
            assert(dx as int * dx as int >= 0) by (nonlinear_arith);
            assert(dy as int * dy as int >= 0) by (nonlinear_arith);
            assert(dz as int * dz as int >= 0) by (nonlinear_arith);
        }
        (center, dx * dx + dy * dy + dz * dz)
    }

    /// The minimum bounding sphere's center and radius.
    pub fn minimum_bounding_sphere(&self) -> (r: (Vec3, i64))
        requires
            self.wf(),
        ensures
            r.0 == self.spec_min_sphere().0,
            r.1 == sqrt_floor(self.spec_min_sphere().1),
    {
        let (center, radius_sqr) = self.minimum_bounding_sphere_sqr();
        let radius = isqrt(radius_sqr as u128);
        proof {
            lemma_isqrt_is_sqrt_floor(radius_sqr as int, radius as int);
            assert(7_000_000_001int * 7_000_000_001int > 48_000_000_000_000_000_000int);
            if radius > 7_000_000_000 {
                lemma_mul_bound(7_000_000_001, 7_000_000_001, radius as int, radius as int);
            }
        }
        (center, radius as i64)
    }

    /// The minimum bounding sphere's center alone.
    pub fn minimum_bounding_sphere_center(&self) -> (r: Vec3)
        requires
            self.wf(),
        ensures
            r == self.spec_min_sphere().0,
    {
        let (center, _) = self.minimum_bounding_sphere_sqr();
        center
    }
}

/// The midpoint of two in-range points.
fn mid_point(a: Vec3, b: Vec3) -> (r: Vec3)
    requires
        a.small(),
        b.small(),
    ensures
        r == spec_mid(a, b),
{
    Vec3 {
        x: divi((a.x + b.x) as i128, 2) as i64,
        y: divi((a.y + b.y) as i128, 2) as i64,
        z: divi((a.z + b.z) as i128, 2) as i64,
    }
}



/// The square-root-mapped barycentric weights of the two unit draws
/// `u, v`: `1 - sqrt(u)`, then `sqrt(u)(1 - v)` rounded down, the
/// third weight taking up the rounding slack so the three sum to one
/// exactly.
pub open spec fn spec_bary_of(u: int, v: int) -> (int, int, int) {
    let sq = sqrt_floor(u * SCALE);
    let b1 = div_floor(sq * (SCALE - v), SCALE as int);
    (SCALE - sq, b1, sq - b1)
}

/// The square-root barycentric mapping on given unit draws.
pub fn bary_of(u: i64, v: i64) -> (r: [i64; 3])
    requires
        0 <= u < SCALE,
        0 <= v < SCALE,
    ensures
        (r[0] as int, r[1] as int, r[2] as int) == spec_bary_of(u as int, v as int),
        0 <= r[0] <= SCALE,
        0 <= r[1] <= SCALE,
        0 <= r[2] <= SCALE,
        r[0] + r[1] + r[2] == SCALE,
{
    proof {
        lemma_mul_bound(u as int, SCALE as int, 1_000_000, 1_000_000);
    }
    let squ = isqrt((u as u128) * (SCALE as u128));
    proof {
        lemma_isqrt_is_sqrt_floor(u as int * SCALE as int, squ as int);
        assert(1_000_001int * 1_000_001int > 1_000_000_000_000int);
        if squ > 1_000_000 {
            lemma_mul_bound(1_000_001, 1_000_001, squ as int, squ as int);
        }
    }
    let sq = squ as i64;
    let b0 = SCALE - sq;
    proof {
        lemma_mul_bound(sq as int, (SCALE - v) as int, 1_000_000, 1_000_000);
        lemma_div_bound_by(sq as int * (SCALE - v) as int, SCALE as int, 1_000_000);
        assert(sq as int * (SCALE - v) as int >= 0) by (nonlinear_arith)
            requires
                sq >= 0,
                v < SCALE,
        ;
        assert(sq as int * (SCALE - v) as int <= sq as int * (SCALE as int)) by (nonlinear_arith)
            requires
                sq >= 0,
                0 <= v,
        ;
        lemma_div_bound_by(sq as int * (SCALE - v) as int, SCALE as int, sq as int);
        vstd::arithmetic::div_mod::lemma_div_pos_is_pos(
            sq as int * (SCALE - v) as int,
            SCALE as int,
        );
    }
    let b1 = divi((sq as i128) * ((SCALE - v) as i128), SCALE as i128) as i64;
    let b2 = sq - b1;
    [b0, b1, b2]
}

/// Random barycentric weights, distributed area-uniformly over the
/// triangle: the square-root mapping [`bary_of`] applied to two
/// uniform unit draws.
pub fn random_bary(rng: &mut rand::rngs::ThreadRng) -> (r: [i64; 3])
    ensures
        exists|u: int, v: int|
            0 <= u < SCALE && 0 <= v < SCALE && (r[0] as int, r[1] as int, r[2] as int)
                == #[trigger] spec_bary_of(u, v),
        0 <= r[0] <= SCALE,
        0 <= r[1] <= SCALE,
        0 <= r[2] <= SCALE,
        r[0] + r[1] + r[2] == SCALE,
{
    let u = crate::rng::random_unit(rng);
    let v = crate::rng::random_unit(rng);
    let r = bary_of(u, v);
    proof {
        assert((r[0] as int, r[1] as int, r[2] as int) == spec_bary_of(u as int, v as int));
    }
    r
}

impl Triangle {
    /// A position drawn area-uniformly from the triangle: the blend of
    /// the vertices under some nonnegative weights summing to one.
    pub fn sample_position(&self, rng: &mut rand::rngs::ThreadRng) -> (r: Vec3)
        requires
            self.wf(),
        ensures
            exists|w0: int, w1: int, w2: int|
                0 <= w0 && 0 <= w1 && 0 <= w2 && w0 + w1 + w2 == SCALE && r
                    == #[trigger] self.spec_interp_bary(w0, w1, w2),
    {
        let w = random_bary(rng);
        let r = self.interpolate_bary(w);
        proof {
            assert(r == self.spec_interp_bary(w[0] as int, w[1] as int, w[2] as int));
        }
        r
    }

    /// A vertex drawn area-uniformly from the triangle; for point
    /// vertices this is the position itself.
    pub fn sample_vertex(&self, rng: &mut rand::rngs::ThreadRng) -> (r: Vec3)
        requires
            self.wf(),
        ensures
            exists|w0: int, w1: int, w2: int|
                0 <= w0 && 0 <= w1 && 0 <= w2 && w0 + w1 + w2 == SCALE && r
                    == #[trigger] self.spec_interp_bary(w0, w1, w2),
    {
        self.sample_position(rng)
    }
}

/// Products of saturated weights with scene coordinates stay within
/// the scaled-sum range.
proof fn lemma_interp_products_bounded(w0: int, w1: int, w2: int, a: Vec3, b: Vec3, c: Vec3)
    requires
        -4_000_000_000_000_000 <= w0 <= 4_000_000_000_000_000,
        -4_000_000_000_000_000 <= w1 <= 4_000_000_000_000_000,
        -4_000_000_000_000_000 <= w2 <= 4_000_000_000_000_000,
        a.ok(),
        b.ok(),
        c.ok(),
    ensures
        -2_000_000_000_000_000_000_000_000 <= w0 * a.x <= 2_000_000_000_000_000_000_000_000,
        -2_000_000_000_000_000_000_000_000 <= w0 * a.y <= 2_000_000_000_000_000_000_000_000,
        -2_000_000_000_000_000_000_000_000 <= w0 * a.z <= 2_000_000_000_000_000_000_000_000,
        -2_000_000_000_000_000_000_000_000 <= w1 * b.x <= 2_000_000_000_000_000_000_000_000,
        -2_000_000_000_000_000_000_000_000 <= w1 * b.y <= 2_000_000_000_000_000_000_000_000,
        -2_000_000_000_000_000_000_000_000 <= w1 * b.z <= 2_000_000_000_000_000_000_000_000,
        -2_000_000_000_000_000_000_000_000 <= w2 * c.x <= 2_000_000_000_000_000_000_000_000,
        -2_000_000_000_000_000_000_000_000 <= w2 * c.y <= 2_000_000_000_000_000_000_000_000,
        -2_000_000_000_000_000_000_000_000 <= w2 * c.z <= 2_000_000_000_000_000_000_000_000,
{
    lemma_mul_bound(w0, a.x as int, 4_000_000_000_000_000, 500_000_000);
    lemma_mul_bound(w0, a.y as int, 4_000_000_000_000_000, 500_000_000);
    lemma_mul_bound(w0, a.z as int, 4_000_000_000_000_000, 500_000_000);
    lemma_mul_bound(w1, b.x as int, 4_000_000_000_000_000, 500_000_000);
    lemma_mul_bound(w1, b.y as int, 4_000_000_000_000_000, 500_000_000);
    lemma_mul_bound(w1, b.z as int, 4_000_000_000_000_000, 500_000_000);
    lemma_mul_bound(w2, c.x as int, 4_000_000_000_000_000, 500_000_000);
    lemma_mul_bound(w2, c.y as int, 4_000_000_000_000_000, 500_000_000);
    lemma_mul_bound(w2, c.z as int, 4_000_000_000_000_000, 500_000_000);
}

/// Products of Cramer numerators with scene coordinates stay within
/// the `i128` range.
proof fn lemma_interp_wide_products_bounded(nu: int, nv: int, nw: int, a: Vec3, b: Vec3, c: Vec3)
    requires
        -900_000_000_000_000_000_000_000_000 <= nu <= 900_000_000_000_000_000_000_000_000,
        -300_000_000_000_000_000_000_000_000 <= nv <= 300_000_000_000_000_000_000_000_000,
        -300_000_000_000_000_000_000_000_000 <= nw <= 300_000_000_000_000_000_000_000_000,
        a.ok(),
        b.ok(),
        c.ok(),
    ensures
        t3_prod_bounded(nu, a),
        t3_prod_bounded(nv, b),
        t3_prod_bounded(nw, c),
{
    lemma_mul_bound(nu, a.x as int, 900_000_000_000_000_000_000_000_000, 500_000_000);
    lemma_mul_bound(nu, a.y as int, 900_000_000_000_000_000_000_000_000, 500_000_000);
    lemma_mul_bound(nu, a.z as int, 900_000_000_000_000_000_000_000_000, 500_000_000);
    lemma_mul_bound(nv, b.x as int, 900_000_000_000_000_000_000_000_000, 500_000_000);
    lemma_mul_bound(nv, b.y as int, 900_000_000_000_000_000_000_000_000, 500_000_000);
    lemma_mul_bound(nv, b.z as int, 900_000_000_000_000_000_000_000_000, 500_000_000);
    lemma_mul_bound(nw, c.x as int, 900_000_000_000_000_000_000_000_000, 500_000_000);
    lemma_mul_bound(nw, c.y as int, 900_000_000_000_000_000_000_000_000, 500_000_000);
    lemma_mul_bound(nw, c.z as int, 900_000_000_000_000_000_000_000_000, 500_000_000);
}

/// The weight-coordinate products of one vertex, bounded.
pub open spec fn t3_prod_bounded(n: int, v: Vec3) -> bool {
    &&& -450_000_000_000_000_000_000_000_000_000_000_000 <= n * v.x
        <= 450_000_000_000_000_000_000_000_000_000_000_000
    &&& -450_000_000_000_000_000_000_000_000_000_000_000 <= n * v.y
        <= 450_000_000_000_000_000_000_000_000_000_000_000
    &&& -450_000_000_000_000_000_000_000_000_000_000_000 <= n * v.z
        <= 450_000_000_000_000_000_000_000_000_000_000_000
}

/// Interpolating the position field at a point of the triangle's own
/// plane reproduces that point exactly. The point must lie in the
/// plane in the exact rational sense: scaled by the Gram determinant,
/// its offset from the first vertex is an integer combination of the
/// two edges. The rescaled Gram entries must also be exact (their raw
/// dot products divisible by `SCALE`); with inexact entries or a
/// point off the plane, the single rounding per component can move
/// the result by a fixed-point unit.
pub proof fn lemma_interpolate_at_plane_point_exact(t: Triangle, p: Vec3, xv: int, yv: int)
    requires
        t.wf(),
        p.ok(),
        dot3(t.e1(), t.e1()) % (SCALE as int) == 0,
        dot3(t.e1(), t.e2()) % (SCALE as int) == 0,
        dot3(t.e2(), t.e2()) % (SCALE as int) == 0,
        dot3(sub3(p, t.v0()), t.e1()) % (SCALE as int) == 0,
        dot3(sub3(p, t.v0()), t.e2()) % (SCALE as int) == 0,
        t.spec_bary_denom() != 0,
        t.spec_bary_denom() * (p.x - t.v0().x) == xv * t.e1().0 + yv * t.e2().0,
        t.spec_bary_denom() * (p.y - t.v0().y) == xv * t.e1().1 + yv * t.e2().1,
        t.spec_bary_denom() * (p.z - t.v0().z) == xv * t.e1().2 + yv * t.e2().2,
    ensures
        t.spec_interpolate_at(p) == p,
{
    let sc = SCALE as int;
    let e1 = t.e1();
    let e2 = t.e2();
    let s = sub3(p, t.v0());
    let d00 = dot3(e1, e1);
    let d01 = dot3(e1, e2);
    let d11 = dot3(e2, e2);
    let d20 = dot3(s, e1);
    let d21 = dot3(s, e2);
    let (dd00, dd01, dd11) = t.spec_dd();
    let dd20 = div_floor(d20, sc);
    let dd21 = div_floor(d21, sc);
    let den = t.spec_bary_denom();

    lemma_fundamental_div_mod(d00, sc);
    lemma_fundamental_div_mod(d01, sc);
    lemma_fundamental_div_mod(d11, sc);
    lemma_fundamental_div_mod(d20, sc);
    lemma_fundamental_div_mod(d21, sc);
    assert(d00 == sc * dd00);
    assert(d01 == sc * dd01);
    assert(d11 == sc * dd11);
    assert(d20 == sc * dd20);
    assert(d21 == sc * dd21);

    // dotting the span identity with each edge relates the Gram data,
    // built up product by product
    assert(den * (s.0 * e1.0) == (den * s.0) * e1.0) by (nonlinear_arith);
    assert(den * (s.1 * e1.1) == (den * s.1) * e1.1) by (nonlinear_arith);
    assert(den * (s.2 * e1.2) == (den * s.2) * e1.2) by (nonlinear_arith);
    assert((xv * e1.0 + yv * e2.0) * e1.0 == xv * (e1.0 * e1.0) + yv * (e1.0 * e2.0))
        by (nonlinear_arith);
    assert((xv * e1.1 + yv * e2.1) * e1.1 == xv * (e1.1 * e1.1) + yv * (e1.1 * e2.1))
        by (nonlinear_arith);
    assert((xv * e1.2 + yv * e2.2) * e1.2 == xv * (e1.2 * e1.2) + yv * (e1.2 * e2.2))
        by (nonlinear_arith);
    assert(den * d20 == den * (s.0 * e1.0) + den * (s.1 * e1.1) + den * (s.2 * e1.2))
        by (nonlinear_arith)
        requires
            d20 == s.0 * e1.0 + s.1 * e1.1 + s.2 * e1.2,
    ;
    assert(xv * d00 == xv * (e1.0 * e1.0) + xv * (e1.1 * e1.1) + xv * (e1.2 * e1.2))
        by (nonlinear_arith)
        requires
            d00 == e1.0 * e1.0 + e1.1 * e1.1 + e1.2 * e1.2,
    ;
    assert(yv * d01 == yv * (e1.0 * e2.0) + yv * (e1.1 * e2.1) + yv * (e1.2 * e2.2))
        by (nonlinear_arith)
        requires
            d01 == e1.0 * e2.0 + e1.1 * e2.1 + e1.2 * e2.2,
    ;
    assert(den * d20 == xv * d00 + yv * d01);
    assert(den * (s.0 * e2.0) == (den * s.0) * e2.0) by (nonlinear_arith);
    assert(den * (s.1 * e2.1) == (den * s.1) * e2.1) by (nonlinear_arith);
    assert(den * (s.2 * e2.2) == (den * s.2) * e2.2) by (nonlinear_arith);
    assert((xv * e1.0 + yv * e2.0) * e2.0 == xv * (e1.0 * e2.0) + yv * (e2.0 * e2.0))
        by (nonlinear_arith);
    assert((xv * e1.1 + yv * e2.1) * e2.1 == xv * (e1.1 * e2.1) + yv * (e2.1 * e2.1))
        by (nonlinear_arith);
    assert((xv * e1.2 + yv * e2.2) * e2.2 == xv * (e1.2 * e2.2) + yv * (e2.2 * e2.2))
        by (nonlinear_arith);
    assert(den * d21 == den * (s.0 * e2.0) + den * (s.1 * e2.1) + den * (s.2 * e2.2))
        by (nonlinear_arith)
        requires
            d21 == s.0 * e2.0 + s.1 * e2.1 + s.2 * e2.2,
    ;
    assert(xv * d01 == xv * (e1.0 * e2.0) + xv * (e1.1 * e2.1) + xv * (e1.2 * e2.2))
        by (nonlinear_arith)
        requires
            d01 == e1.0 * e2.0 + e1.1 * e2.1 + e1.2 * e2.2,
    ;
    assert(yv * d11 == yv * (e2.0 * e2.0) + yv * (e2.1 * e2.1) + yv * (e2.2 * e2.2))
        by (nonlinear_arith)
        requires
            d11 == e2.0 * e2.0 + e2.1 * e2.1 + e2.2 * e2.2,
    ;
    assert(den * d21 == xv * d01 + yv * d11);
    // the same relations hold of the exactly rescaled entries
    assert(den * (sc * dd20) == sc * (den * dd20)) by (nonlinear_arith);
    assert(xv * (sc * dd00) == sc * (xv * dd00)) by (nonlinear_arith);
    assert(yv * (sc * dd01) == sc * (yv * dd01)) by (nonlinear_arith);
    assert(sc * (den * dd20) == sc * (xv * dd00) + sc * (yv * dd01));
    assert(den * dd20 == xv * dd00 + yv * dd01);
    assert(den * (sc * dd21) == sc * (den * dd21)) by (nonlinear_arith);
    assert(xv * (sc * dd01) == sc * (xv * dd01)) by (nonlinear_arith);
    assert(yv * (sc * dd11) == sc * (yv * dd11)) by (nonlinear_arith);
    assert(sc * (den * dd21) == sc * (xv * dd01) + sc * (yv * dd11));
    assert(den * dd21 == xv * dd01 + yv * dd11);
    // Cramer: the numerators are exactly the span coefficients
    let (num_v, num_w) = t.spec_bary_nums(p);
    assert(dd11 * (den * dd20) - dd01 * (den * dd21) == den * num_v) by (nonlinear_arith)
        requires
            num_v == dd11 * dd20 - dd01 * dd21,
    ;
    assert(dd11 * (den * dd20) - dd01 * (den * dd21) == dd11 * (xv * dd00 + yv * dd01) - dd01 * (
    xv * dd01 + yv * dd11));
    assert(dd11 * (xv * dd00 + yv * dd01) - dd01 * (xv * dd01 + yv * dd11) == xv * den)
        by (nonlinear_arith)
        requires
            den == dd00 * dd11 - dd01 * dd01,
    ;
    assert(num_v == xv) by (nonlinear_arith)
        requires
            den * num_v == xv * den,
            den != 0,
    ;
    assert(dd00 * (den * dd21) - dd01 * (den * dd20) == den * num_w) by (nonlinear_arith)
        requires
            num_w == dd00 * dd21 - dd01 * dd20,
    ;
    assert(dd00 * (den * dd21) - dd01 * (den * dd20) == dd00 * (xv * dd01 + yv * dd11) - dd01 * (
    xv * dd00 + yv * dd01));
    assert(dd00 * (xv * dd01 + yv * dd11) - dd01 * (xv * dd00 + yv * dd01) == yv * den)
        by (nonlinear_arith)
        requires
            den == dd00 * dd11 - dd01 * dd01,
    ;
    assert(num_w == yv) by (nonlinear_arith)
        requires
            den * num_w == yv * den,
            den != 0,
    ;
    // each interpolation numerator is the determinant times the point
    let num_u = den - num_v - num_w;
    lemma_interp_numerator(num_u, num_v, num_w, den, t.v0().x as int, t.v1().x as int, t.v2().x as int, p.x as int);
    lemma_interp_numerator(num_u, num_v, num_w, den, t.v0().y as int, t.v1().y as int, t.v2().y as int, p.y as int);
    lemma_interp_numerator(num_u, num_v, num_w, den, t.v0().z as int, t.v1().z as int, t.v2().z as int, p.z as int);
    lemma_div_floor_cancel(p.x as int, den);
    lemma_div_floor_cancel(p.y as int, den);
    lemma_div_floor_cancel(p.z as int, den);
    assert(t.spec_interpolate_at(p) == p);
}

/// Splitting a triangle at its three edge midpoints yields four
/// sub-triangles that each carry exactly a sixteenth of the original
/// squared cross-product measure; since area is half the square root
/// of that measure, each sub-triangle has a quarter of the exact
/// area and the four together restore it. Stated for triangles with
/// even coordinates, where the midpoints are exact; with odd
/// coordinates the midpoints round and the floored areas can differ
/// by a few fixed-point units.
pub proof fn lemma_split_preserves_area_measure(t: Triangle)
    requires
        t.wf(),
        t.v0().x % 2 == 0 && t.v0().y % 2 == 0 && t.v0().z % 2 == 0,
        t.v1().x % 2 == 0 && t.v1().y % 2 == 0 && t.v1().z % 2 == 0,
        t.v2().x % 2 == 0 && t.v2().y % 2 == 0 && t.v2().z % 2 == 0,
    ensures
        forall|k: int|
            0 <= k < 4 ==> 16 * (#[trigger] t.spec_split()[k]).spec_cross_mag2()
                == t.spec_cross_mag2(),
{
    let a = t.v0();
    let b = t.v1();
    let c = t.v2();
    lemma_midpoint_coord(a.x as int, b.x as int);
    lemma_midpoint_coord(a.y as int, b.y as int);
    lemma_midpoint_coord(a.z as int, b.z as int);
    lemma_midpoint_coord(b.x as int, c.x as int);
    lemma_midpoint_coord(b.y as int, c.y as int);
    lemma_midpoint_coord(b.z as int, c.z as int);
    lemma_midpoint_coord(a.x as int, c.x as int);
    lemma_midpoint_coord(a.y as int, c.y as int);
    lemma_midpoint_coord(a.z as int, c.z as int);
    let m0 = t.spec_interp_bary(500_000, 500_000, 0);
    let m1 = t.spec_interp_bary(0, 500_000, 500_000);
    let m2 = t.spec_interp_bary(500_000, 0, 500_000);
    assert(2 * m0.x == a.x + b.x && 2 * m0.y == a.y + b.y && 2 * m0.z == a.z + b.z);
    assert(2 * m1.x == b.x + c.x && 2 * m1.y == b.y + c.y && 2 * m1.z == b.z + c.z);
    assert(2 * m2.x == a.x + c.x && 2 * m2.y == a.y + c.y && 2 * m2.z == a.z + c.z);
    let s = t.spec_split();
    lemma_quarter_cross(s[0], t);
    lemma_quarter_cross(s[1], t);
    lemma_quarter_cross(s[2], t);
    lemma_quarter_cross(s[3], t);
}

/// One exact midpoint coordinate: the blend under half weights is
/// the average when the sum is even.
proof fn lemma_midpoint_coord(a: int, b: int)
    requires
        a % 2 == 0,
        b % 2 == 0,
    ensures
        2 * div_floor(500_000 * a + 500_000 * b + 0, SCALE as int) == a + b,
{
    lemma_fundamental_div_mod(a, 2);
    lemma_fundamental_div_mod(b, 2);
    let k = a / 2 + b / 2;
    assert(500_000 * a + 500_000 * b + 0 == 1_000_000 * k);
    lemma_div_floor_cancel(k, 1_000_000);
    assert(div_floor(1_000_000 * k, 1_000_000) == k);
}

/// A sub-triangle whose doubled edges are integer combinations of the
/// parent's edges with determinant one half carries a sixteenth of
/// the parent's squared cross measure.
proof fn lemma_quarter_cross(sub: Triangle, t: Triangle)
    requires
        ({
            let f1 = sub.e1();
            let f2 = sub.e2();
            let e1 = t.e1();
            let e2 = t.e2();
            // each doubled sub-edge is one of the parent-edge
            // combinations that arise from the midpoint split
            ||| (2 * f1.0 == e2.0 && 2 * f1.1 == e2.1 && 2 * f1.2 == e2.2 && 2 * f2.0 == e2.0
                - e1.0 && 2 * f2.1 == e2.1 - e1.1 && 2 * f2.2 == e2.2 - e1.2)
            ||| (2 * f1.0 == e1.0 && 2 * f1.1 == e1.1 && 2 * f1.2 == e1.2 && 2 * f2.0 == e2.0
                && 2 * f2.1 == e2.1 && 2 * f2.2 == e2.2)
            ||| (2 * f1.0 == e2.0 - e1.0 && 2 * f1.1 == e2.1 - e1.1 && 2 * f1.2 == e2.2 - e1.2
                && 2 * f2.0 == -e1.0 && 2 * f2.1 == -e1.1 && 2 * f2.2 == -e1.2)
            ||| (2 * f1.0 == -e2.0 && 2 * f1.1 == -e2.1 && 2 * f1.2 == -e2.2 && 2 * f2.0 == e1.0
                - e2.0 && 2 * f2.1 == e1.1 - e2.1 && 2 * f2.2 == e1.2 - e2.2)
        }),
    ensures
        16 * sub.spec_cross_mag2() == t.spec_cross_mag2(),
{
    let f1 = sub.e1();
    let f2 = sub.e2();
    let e1 = t.e1();
    let e2 = t.e2();
    let cs = cross3(f1, f2);
    let ct = cross3(e1, e2);
    assert((2 * f1.1) * (2 * f2.2) - (2 * f1.2) * (2 * f2.1) == 4 * cs.0) by (nonlinear_arith)
        requires
            cs.0 == f1.1 * f2.2 - f1.2 * f2.1,
    ;
    assert((2 * f1.2) * (2 * f2.0) - (2 * f1.0) * (2 * f2.2) == 4 * cs.1) by (nonlinear_arith)
        requires
            cs.1 == f1.2 * f2.0 - f1.0 * f2.2,
    ;
    assert((2 * f1.0) * (2 * f2.1) - (2 * f1.1) * (2 * f2.0) == 4 * cs.2) by (nonlinear_arith)
        requires
            cs.2 == f1.0 * f2.1 - f1.1 * f2.0,
    ;
    assert(e2.1 * (e2.2 - e1.2) - e2.2 * (e2.1 - e1.1) == ct.0) by (nonlinear_arith)
        requires
            ct.0 == e1.1 * e2.2 - e1.2 * e2.1,
    ;
    assert(e2.2 * (e2.0 - e1.0) - e2.0 * (e2.2 - e1.2) == ct.1) by (nonlinear_arith)
        requires
            ct.1 == e1.2 * e2.0 - e1.0 * e2.2,
    ;
    assert(e2.0 * (e2.1 - e1.1) - e2.1 * (e2.0 - e1.0) == ct.2) by (nonlinear_arith)
        requires
            ct.2 == e1.0 * e2.1 - e1.1 * e2.0,
    ;
    assert((e2.1 - e1.1) * (-e1.2) - (e2.2 - e1.2) * (-e1.1) == ct.0) by (nonlinear_arith)
        requires
            ct.0 == e1.1 * e2.2 - e1.2 * e2.1,
    ;
    assert((e2.2 - e1.2) * (-e1.0) - (e2.0 - e1.0) * (-e1.2) == ct.1) by (nonlinear_arith)
        requires
            ct.1 == e1.2 * e2.0 - e1.0 * e2.2,
    ;
    assert((e2.0 - e1.0) * (-e1.1) - (e2.1 - e1.1) * (-e1.0) == ct.2) by (nonlinear_arith)
        requires
            ct.2 == e1.0 * e2.1 - e1.1 * e2.0,
    ;
    assert((-e2.1) * (e1.2 - e2.2) - (-e2.2) * (e1.1 - e2.1) == ct.0) by (nonlinear_arith)
        requires
            ct.0 == e1.1 * e2.2 - e1.2 * e2.1,
    ;
    assert((-e2.2) * (e1.0 - e2.0) - (-e2.0) * (e1.2 - e2.2) == ct.1) by (nonlinear_arith)
        requires
            ct.1 == e1.2 * e2.0 - e1.0 * e2.2,
    ;
    assert((-e2.0) * (e1.1 - e2.1) - (-e2.1) * (e1.0 - e2.0) == ct.2) by (nonlinear_arith)
        requires
            ct.2 == e1.0 * e2.1 - e1.1 * e2.0,
    ;
    assert(4 * cs.0 == ct.0 && 4 * cs.1 == ct.1 && 4 * cs.2 == ct.2);
    assert(16 * (cs.0 * cs.0) == (4 * cs.0) * (4 * cs.0)) by (nonlinear_arith);
    assert(16 * (cs.1 * cs.1) == (4 * cs.1) * (4 * cs.1)) by (nonlinear_arith);
    assert(16 * (cs.2 * cs.2) == (4 * cs.2) * (4 * cs.2)) by (nonlinear_arith);
    assert((4 * cs.0) * (4 * cs.0) == ct.0 * ct.0);
    assert((4 * cs.1) * (4 * cs.1) == ct.1 * ct.1);
    assert((4 * cs.2) * (4 * cs.2) == ct.2 * ct.2);
}

/// One coordinate of the interpolation numerator identity: with the
/// first weight the determinant's remainder and the other two solving
/// the edge span, the blend numerator is the determinant times the
/// point coordinate.
proof fn lemma_interp_numerator(
    nu: int,
    nv: int,
    nw: int,
    den: int,
    a: int,
    b: int,
    c: int,
    p: int,
)
    requires
        nu == den - nv - nw,
        nv * (b - a) + nw * (c - a) == den * (p - a),
    ensures
        nu * a + nv * b + nw * c == den * p,
{
    assert((den - nv - nw) * a == den * a - nv * a - nw * a) by (nonlinear_arith);
    assert(nv * b - nv * a == nv * (b - a)) by (nonlinear_arith);
    assert(nw * c - nw * a == nw * (c - a)) by (nonlinear_arith);
    assert(den * (p - a) == den * p - den * a) by (nonlinear_arith);
}

/// `floor(den * k / den) == k` for any nonzero `den`.
proof fn lemma_div_floor_cancel(k: int, den: int)
    requires
        den != 0,
    ensures
        div_floor(den * k, den) == k,
{
    if den > 0 {
        assert(den * k == k * den + 0) by (nonlinear_arith);
        vstd::arithmetic::div_mod::lemma_fundamental_div_mod_converse(den * k, den, k, 0);
    } else {
        assert(-(den * k) == k * (-den) + 0) by (nonlinear_arith);
        vstd::arithmetic::div_mod::lemma_fundamental_div_mod_converse(-(den * k), -den, k, 0);
    }
}

/// Products of a rescaled cross product with edge vectors stay within
/// range for the circumcenter computation.
proof fn lemma_cross_c1_products_bounded(c1: T3, ab: T3, ac: T3)
    requires
        crate::vec3::t3_bounded(c1, 8_000_000_000_000),
        crate::vec3::t3_bounded(ab, 1_000_000_000),
        crate::vec3::t3_bounded(ac, 1_000_000_000),
    ensures
        crate::vec3::t3_bounded(cross3(c1, ab), 16_000_000_000_000_000_000_000int),
        crate::vec3::t3_bounded(cross3(ac, c1), 16_000_000_000_000_000_000_000int),
{
    lemma_mul_bound(c1.1, ab.2, 8_000_000_000_000, 1_000_000_000);
    lemma_mul_bound(c1.2, ab.1, 8_000_000_000_000, 1_000_000_000);
    lemma_mul_bound(c1.2, ab.0, 8_000_000_000_000, 1_000_000_000);
    lemma_mul_bound(c1.0, ab.2, 8_000_000_000_000, 1_000_000_000);
    lemma_mul_bound(c1.0, ab.1, 8_000_000_000_000, 1_000_000_000);
    lemma_mul_bound(c1.1, ab.0, 8_000_000_000_000, 1_000_000_000);
    lemma_mul_bound(ac.1, c1.2, 1_000_000_000, 8_000_000_000_000);
    lemma_mul_bound(ac.2, c1.1, 1_000_000_000, 8_000_000_000_000);
    lemma_mul_bound(ac.2, c1.0, 1_000_000_000, 8_000_000_000_000);
    lemma_mul_bound(ac.0, c1.2, 1_000_000_000, 8_000_000_000_000);
    lemma_mul_bound(ac.0, c1.1, 1_000_000_000, 8_000_000_000_000);
    lemma_mul_bound(ac.1, c1.0, 1_000_000_000, 8_000_000_000_000);
}

/// The cross product of two edge-sized triples stays within
/// cross-entry range.
pub(crate) proof fn lemma_cross_of_edges_bounded(a: T3, b: T3)
    requires
        crate::vec3::t3_bounded(a, 1_000_000_000),
        crate::vec3::t3_bounded(b, 1_000_000_000),
    ensures
        crate::vec3::t3_bounded(cross3(a, b), 2_000_000_000_000_000_000),
{
    lemma_mul_bound(a.1, b.2, 1_000_000_000, 1_000_000_000);
    lemma_mul_bound(a.2, b.1, 1_000_000_000, 1_000_000_000);
    lemma_mul_bound(a.2, b.0, 1_000_000_000, 1_000_000_000);
    lemma_mul_bound(a.0, b.2, 1_000_000_000, 1_000_000_000);
    lemma_mul_bound(a.0, b.1, 1_000_000_000, 1_000_000_000);
    lemma_mul_bound(a.1, b.0, 1_000_000_000, 1_000_000_000);
}

} // verus!
