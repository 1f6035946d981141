//! The point-sampled surface model: surfels with material state, and
//! the spherical range query the tracing engine interacts through.

use vstd::prelude::*;
use crate::fx::{SCALE, div_floor, coord_ok};
use crate::vec3::{Vec3, dot3, sub3, dotw};
use crate::tri::{Triangle, spec_dist2};
use crate::rng;

verus! {

/// Substance concentrations are kept within `[0, SUB_CAP]`; by
/// convention they live in `[0, 1]` (`SCALE`), but transport only
/// saturates at this far larger bound.
pub const SUB_CAP: i64 = 1_000_000_000_000;

/// Deterioration rates are nonnegative and at most this.
pub const DELTA_CAP: i64 = 1_000_000_000_000;

/// An element of the point-sampled surface of an object.
pub struct Surfel {
    pub position: Vec3,
    pub normal: Vec3,
    /// Deterioration rate of the probability of a gammaton moving
    /// further in a straight line.
    pub delta_straight: i64,
    /// Deterioration rate of the probability of a gammaton moving in
    /// a piecewise approximated parabolic path.
    pub delta_parabolic: i64,
    /// Deterioration rate of the probability of a gammaton flowing in
    /// a tangent direction.
    pub delta_flow: i64,
    /// The amount of each tracked substance, in `[0, 1]` by
    /// convention.
    pub substances: Vec<i64>,
}

impl Surfel {
    /// In-range position and direction, rates and substances within
    /// their caps, and the expected number of substance channels.
    pub open spec fn wf(self, n: int) -> bool {
        &&& self.position.ok()
        &&& crate::vec3::t3_bounded(self.normal.t3(), SCALE as int)
        &&& 0 <= self.delta_straight <= DELTA_CAP
        &&& 0 <= self.delta_parabolic <= DELTA_CAP
        &&& 0 <= self.delta_flow <= DELTA_CAP
        &&& self.substances@.len() == n
        &&& forall|k: int| 0 <= k < n ==> 0 <= #[trigger] self.substances@[k] <= SUB_CAP
    }
}

impl crate::vtx::Position for Surfel {
    open spec fn spec_position(&self) -> Vec3 {
        self.position
    }

    fn position(&self) -> (p: Vec3)
        ensures
            p == self.spec_position(),
    {
        self.position
    }
}

impl crate::vtx::Normal for Surfel {
    open spec fn spec_normal(&self) -> Vec3 {
        self.normal
    }

    fn normal(&self) -> (n: Vec3)
        ensures
            n == self.spec_normal(),
    {
        self.normal
    }
}

/// The `k`-th indexed triangle of a flat mesh: vertex `j` of triangle
/// `k` starts at `3 * indices[3k + j]` in the coordinate array.
pub open spec fn mesh_triangle(positions: Seq<i64>, indices: Seq<u32>, k: int) -> Triangle {
    let a = indices[3 * k] as int;
    let b = indices[3 * k + 1] as int;
    let c = indices[3 * k + 2] as int;
    Triangle {
        vertices: [
            Vec3 { x: positions[3 * a], y: positions[3 * a + 1], z: positions[3 * a + 2] },
            Vec3 { x: positions[3 * b], y: positions[3 * b + 1], z: positions[3 * b + 2] },
            Vec3 { x: positions[3 * c], y: positions[3 * c + 1], z: positions[3 * c + 2] },
        ],
    }
}

/// How many surfels one triangle receives: the ceiling of density
/// times area.
pub open spec fn spec_surfel_count(t: Triangle, density: int) -> int {
    div_floor(density * t.spec_area() + SCALE - 1, SCALE as int)
}

/// The total surfel count of the first `k` mesh triangles.
pub open spec fn spec_total_count(
    positions: Seq<i64>,
    indices: Seq<u32>,
    density: int,
    k: int,
) -> int
    decreases k,
{
    if k <= 0 {
        0
    } else {
        spec_total_count(positions, indices, density, k - 1) + spec_surfel_count(
            mesh_triangle(positions, indices, k - 1),
            density,
        )
    }
}

/// Every surfel is the square-root-mapped barycentric blend of one
/// of the mesh triangles under some pair of unit draws — the
/// area-uniform, not vertex-biased sampling — and carries that
/// triangle's geometric normal.
pub open spec fn sampled_from_mesh(
    samples: Seq<Surfel>,
    positions: Seq<i64>,
    indices: Seq<u32>,
) -> bool {
    forall|i: int|
        0 <= i < samples.len() ==> ({
            let s = #[trigger] samples[i];
            exists|k: int, u: int, v: int|
                #![trigger crate::tri::spec_bary_of(u, v), mesh_triangle(positions, indices, k)]
                {
                    let w = crate::tri::spec_bary_of(u, v);
                    {
                        &&& 0 <= k < indices.len() as int / 3
                        &&& 0 <= u < SCALE && 0 <= v < SCALE
                        &&& s.position == mesh_triangle(positions, indices, k).spec_interp_bary(
                            w.0,
                            w.1,
                            w.2,
                        )
                        &&& s.normal == mesh_triangle(positions, indices, k).spec_normal()
                    }
                }
        })
}

/// Appending one freshly sampled surfel keeps the whole sequence
/// sampled from the mesh.
proof fn lemma_sampled_from_mesh_push(
    pre: Seq<Surfel>,
    post: Seq<Surfel>,
    positions: Seq<i64>,
    indices: Seq<u32>,
    k: int,
    u: int,
    v: int,
)
    requires
        sampled_from_mesh(pre, positions, indices),
        post == pre.push(post.last()),
        post.len() == pre.len() + 1,
        0 <= k < indices.len() as int / 3,
        0 <= u < SCALE,
        0 <= v < SCALE,
        post.last().position == mesh_triangle(positions, indices, k).spec_interp_bary(
            crate::tri::spec_bary_of(u, v).0,
            crate::tri::spec_bary_of(u, v).1,
            crate::tri::spec_bary_of(u, v).2,
        ),
        post.last().normal == mesh_triangle(positions, indices, k).spec_normal(),
    ensures
        sampled_from_mesh(post, positions, indices),
{
    assert forall|i: int| 0 <= i < post.len() implies ({
        let s = #[trigger] post[i];
        exists|k2: int, u2: int, v2: int|
            #![trigger crate::tri::spec_bary_of(u2, v2), mesh_triangle(positions, indices, k2)]
            {
                let w = crate::tri::spec_bary_of(u2, v2);
                {
                    &&& 0 <= k2 < indices.len() as int / 3
                    &&& 0 <= u2 < SCALE && 0 <= v2 < SCALE
                    &&& s.position == mesh_triangle(positions, indices, k2).spec_interp_bary(
                        w.0,
                        w.1,
                        w.2,
                    )
                    &&& s.normal == mesh_triangle(positions, indices, k2).spec_normal()
                }
            }
    }) by {
        if i < pre.len() {
            assert(post[i] == pre[i]);
            assert(0 <= i < pre.len());
        } else {
            assert(post[i] == post.last());
        }
    }
}

/// A fixed-point blend under nonnegative weights summing to one
/// cannot leave the coordinate range of its vertices.
proof fn lemma_blend_in_bounds(t: Triangle, w0: int, w1: int, w2: int)
    requires
        t.wf(),
        0 <= w0,
        0 <= w1,
        0 <= w2,
        w0 + w1 + w2 == SCALE,
    ensures
        t.spec_interp_bary(w0, w1, w2).ok(),
{
    let m = crate::fx::MAX_COORD as int;
    crate::fx::lemma_mul_bound(w0, t.v0().x as int, w0, m);
    crate::fx::lemma_mul_bound(w1, t.v1().x as int, w1, m);
    crate::fx::lemma_mul_bound(w2, t.v2().x as int, w2, m);
    crate::fx::lemma_mul_bound(w0, t.v0().y as int, w0, m);
    crate::fx::lemma_mul_bound(w1, t.v1().y as int, w1, m);
    crate::fx::lemma_mul_bound(w2, t.v2().y as int, w2, m);
    crate::fx::lemma_mul_bound(w0, t.v0().z as int, w0, m);
    crate::fx::lemma_mul_bound(w1, t.v1().z as int, w1, m);
    crate::fx::lemma_mul_bound(w2, t.v2().z as int, w2, m);
    crate::fx::lemma_div_bound_by(
        w0 * t.v0().x + w1 * t.v1().x + w2 * t.v2().x,
        SCALE as int,
        m,
    );
    crate::fx::lemma_div_bound_by(
        w0 * t.v0().y + w1 * t.v1().y + w2 * t.v2().y,
        SCALE as int,
        m,
    );
    crate::fx::lemma_div_bound_by(
        w0 * t.v0().z + w1 * t.v1().z + w2 * t.v2().z,
        SCALE as int,
        m,
    );
}

/// The surface of a mesh as a point-based model.
pub struct Surface {
    pub samples: Vec<Surfel>,
}

impl Surface {
    /// Every surfel is well-formed over `n` substance channels.
    pub open spec fn wf(self, n: int) -> bool {
        forall|i: int| 0 <= i < self.samples@.len() ==> (#[trigger] self.samples@[i]).wf(n)
    }

    /// One surfel per given point, carrying the shared initial rates
    /// and substances, the up direction as its normal.
    pub fn from_points(
        points: &Vec<Vec3>,
        delta_straight: i64,
        delta_parabolic: i64,
        delta_flow: i64,
        initial_material_composition: &Vec<i64>,
    ) -> (r: Surface)
        requires
            forall|i: int| 0 <= i < points@.len() ==> (#[trigger] points@[i]).ok(),
            0 <= delta_straight <= DELTA_CAP,
            0 <= delta_parabolic <= DELTA_CAP,
            0 <= delta_flow <= DELTA_CAP,
            forall|k: int|
                0 <= k < initial_material_composition@.len() ==> 0 <= #[trigger]
                initial_material_composition@[k] <= SUB_CAP,
        ensures
            r.wf(initial_material_composition@.len() as int),
            r.samples@.len() == points@.len(),
            forall|i: int|
                0 <= i < points@.len() ==> {
                    let s = #[trigger] r.samples@[i];
                    {
                        &&& s.position == points@[i]
                        &&& s.normal == (Vec3 { x: 0, y: 0, z: SCALE })
                        &&& s.delta_straight == delta_straight
                        &&& s.delta_parabolic == delta_parabolic
                        &&& s.delta_flow == delta_flow
                        &&& s.substances@ == initial_material_composition@
                    }
                },
    {
        let mut samples: Vec<Surfel> = Vec::new();
        let mut i: usize = 0;
        while i < points.len()
            invariant
                i <= points@.len(),
                samples@.len() == i,
                forall|j: int| 0 <= j < points@.len() ==> (#[trigger] points@[j]).ok(),
                forall|j: int|
                    0 <= j < i ==> {
                        let s = #[trigger] samples@[j];
                        {
                            &&& s.position == points@[j]
                            &&& s.normal == (Vec3 { x: 0, y: 0, z: SCALE })
                            &&& s.delta_straight == delta_straight
                            &&& s.delta_parabolic == delta_parabolic
                            &&& s.delta_flow == delta_flow
                            &&& s.substances@ == initial_material_composition@
                        }
                    },
            decreases points@.len() - i,
        {
            let mut subs: Vec<i64> = Vec::new();
            let mut k: usize = 0;
            while k < initial_material_composition.len()
                invariant
                    k <= initial_material_composition@.len(),
                    subs@ == initial_material_composition@.take(k as int),
                decreases initial_material_composition@.len() - k,
            {
                subs.push(initial_material_composition[k]);
                proof {
                    assert(initial_material_composition@.take(k + 1int).drop_last()
                        == initial_material_composition@.take(k as int));
                    assert(initial_material_composition@.take(k + 1int).last()
                        == initial_material_composition@[k as int]);
                }
                k = k + 1;
            }
            proof {
                assert(initial_material_composition@.take(
                    initial_material_composition@.len() as int,
                ) == initial_material_composition@);
            }
            samples.push(
                Surfel {
                    position: points[i],
                    normal: Vec3 { x: 0, y: 0, z: SCALE },
                    delta_straight,
                    delta_parabolic,
                    delta_flow,
                    substances: subs,
                },
            );
            i = i + 1;
        }
        Surface { samples }
    }

    /// Samples each indexed triangle of the mesh with a surfel count
    /// proportional to its area (the ceiling of density times area),
    /// each point drawn area-uniformly; the surfels carry the
    /// triangle's geometric normal and the shared initial state.
    pub fn from_triangles(
        positions: &Vec<i64>,
        indices: &Vec<u32>,
        surfels_per_sqr_unit: i64,
        delta_straight: i64,
        delta_parabolic: i64,
        delta_flow: i64,
        initial_material_composition: &Vec<i64>,
        rng: &mut rand::rngs::ThreadRng,
    ) -> (r: Surface)
        requires
            indices@.len() % 3 == 0,
            forall|k: int|
                0 <= k < indices@.len() ==> 3 * (#[trigger] indices@[k]) + 3 <= positions@.len(),
            forall|k: int| 0 <= k < positions@.len() ==> coord_ok(#[trigger] positions@[k] as int),
            0 <= surfels_per_sqr_unit <= SCALE,
            0 <= delta_straight <= DELTA_CAP,
            0 <= delta_parabolic <= DELTA_CAP,
            0 <= delta_flow <= DELTA_CAP,
            forall|k: int|
                0 <= k < initial_material_composition@.len() ==> 0 <= #[trigger]
                initial_material_composition@[k] <= SUB_CAP,
        ensures
            r.wf(initial_material_composition@.len() as int),
            r.samples@.len() == spec_total_count(
                positions@,
                indices@,
                surfels_per_sqr_unit as int,
                indices@.len() as int / 3,
            ),
            forall|i: int|
                0 <= i < r.samples@.len() ==> {
                    let s = #[trigger] r.samples@[i];
                    {
                        &&& s.delta_straight == delta_straight
                        &&& s.delta_parabolic == delta_parabolic
                        &&& s.delta_flow == delta_flow
                        &&& s.substances@ == initial_material_composition@
                    }
                },
            sampled_from_mesh(r.samples@, positions@, indices@),
    {
        let mut samples: Vec<Surfel> = Vec::new();
        let plen = positions.len();
        let ilen = indices.len();
        let n_tris = indices.len() / 3;
        proof {
            vstd::arithmetic::div_mod::lemma_fundamental_div_mod(indices@.len() as int, 3);
            assert((indices@.len() as int) % 3 == 0);
        }
        let mut t: usize = 0;
        while t < n_tris
            invariant
                plen == positions@.len(),
                ilen == indices@.len(),
                n_tris as int == indices@.len() as int / 3,
                3 * (indices@.len() as int / 3) == indices@.len() as int,
                t <= n_tris,
                indices@.len() % 3 == 0,
                forall|k: int|
                    0 <= k < indices@.len() ==> 3 * (#[trigger] indices@[k]) + 3
                        <= positions@.len(),
                forall|k: int|
                    0 <= k < positions@.len() ==> coord_ok(#[trigger] positions@[k] as int),
                0 <= surfels_per_sqr_unit <= SCALE,
                0 <= delta_straight <= DELTA_CAP,
                0 <= delta_parabolic <= DELTA_CAP,
                0 <= delta_flow <= DELTA_CAP,
                forall|k: int|
                    0 <= k < initial_material_composition@.len() ==> 0 <= #[trigger]
                    initial_material_composition@[k] <= SUB_CAP,
                samples@.len() == spec_total_count(
                    positions@,
                    indices@,
                    surfels_per_sqr_unit as int,
                    t as int,
                ),
                forall|i: int|
                    0 <= i < samples@.len() ==> {
                        let s = #[trigger] samples@[i];
                        {
                            &&& s.wf(initial_material_composition@.len() as int)
                            &&& s.delta_straight == delta_straight
                            &&& s.delta_parabolic == delta_parabolic
                            &&& s.delta_flow == delta_flow
                            &&& s.substances@ == initial_material_composition@
                        }
                    },
                sampled_from_mesh(samples@, positions@, indices@),
            decreases n_tris - t,
        {
            proof {
                assert(3 * (t as int) + 2 < ilen as int);
            }
            let i0 = indices[3 * t] as usize;
            let i1 = indices[3 * t + 1] as usize;
            let i2 = indices[3 * t + 2] as usize;
            proof {
                assert(3 * (i0 as int) + 3 <= plen as int);
                assert(3 * (i1 as int) + 3 <= plen as int);
                assert(3 * (i2 as int) + 3 <= plen as int);
            }
            let tri = Triangle::new(
                Vec3 { x: positions[3 * i0], y: positions[3 * i0 + 1], z: positions[3 * i0 + 2] },
                Vec3 { x: positions[3 * i1], y: positions[3 * i1 + 1], z: positions[3 * i1 + 2] },
                Vec3 { x: positions[3 * i2], y: positions[3 * i2 + 1], z: positions[3 * i2 + 2] },
            );
            proof {
                assert(tri =~= mesh_triangle(positions@, indices@, t as int));
            }
            let area = tri.area();
            let normal = tri.normal();
            proof {
                crate::fx::lemma_mul_bound(
                    surfels_per_sqr_unit as int,
                    area as int,
                    1_000_000,
                    9_300_000_000_000_000_000,
                );
                assert(surfels_per_sqr_unit as int * area as int >= 0) by (nonlinear_arith)
                    requires
                        surfels_per_sqr_unit >= 0,
                        area >= 0,
                ;
            }
            let raw = (surfels_per_sqr_unit as i128) * (area as i128);
            let count = crate::fx::divi(raw + (SCALE as i128) - 1, SCALE as i128);
            proof {
                crate::vec3::lemma_div_floor_small(raw as int + SCALE - 1, SCALE as int);
                vstd::arithmetic::div_mod::lemma_div_pos_is_pos(
                    raw as int + SCALE - 1,
                    SCALE as int,
                );
                assert(count == spec_surfel_count(
                    mesh_triangle(positions@, indices@, t as int),
                    surfels_per_sqr_unit as int,
                ));
            }
            let ghost len_before = samples@.len();
            let mut e: i128 = 0;
            while e < count
                invariant
                    0 <= e <= count,
                    samples@.len() == len_before + e,
                    t < n_tris,
                    n_tris as int == indices@.len() as int / 3,
                    tri == mesh_triangle(positions@, indices@, t as int),
                    tri.wf(),
                    normal == tri.spec_normal(),
                    forall|k: int|
                        0 <= k < initial_material_composition@.len() ==> 0 <= #[trigger]
                        initial_material_composition@[k] <= SUB_CAP,
                    0 <= delta_straight <= DELTA_CAP,
                    0 <= delta_parabolic <= DELTA_CAP,
                    0 <= delta_flow <= DELTA_CAP,
                    crate::vec3::t3_bounded(normal.t3(), SCALE as int),
                    forall|i: int|
                        0 <= i < samples@.len() ==> {
                            let s = #[trigger] samples@[i];
                            {
                                &&& s.wf(initial_material_composition@.len() as int)
                                &&& s.delta_straight == delta_straight
                                &&& s.delta_parabolic == delta_parabolic
                                &&& s.delta_flow == delta_flow
                                &&& s.substances@ == initial_material_composition@
                            }
                        },
                    sampled_from_mesh(samples@, positions@, indices@),
                decreases count - e,
            {
                let w = crate::tri::random_bary(rng);
                let p = tri.interpolate_bary(w);
                proof {
                    lemma_blend_in_bounds(tri, w[0] as int, w[1] as int, w[2] as int);
                }
                let mut subs: Vec<i64> = Vec::new();
                let mut k: usize = 0;
                while k < initial_material_composition.len()
                    invariant
                        k <= initial_material_composition@.len(),
                        subs@ == initial_material_composition@.take(k as int),
                    decreases initial_material_composition@.len() - k,
                {
                    subs.push(initial_material_composition[k]);
                    proof {
                        assert(initial_material_composition@.take(k + 1int).drop_last()
                            == initial_material_composition@.take(k as int));
                        assert(initial_material_composition@.take(k + 1int).last()
                            == initial_material_composition@[k as int]);
                    }
                    k = k + 1;
                }
                proof {
                    assert(initial_material_composition@.take(
                        initial_material_composition@.len() as int,
                    ) == initial_material_composition@);
                }
                let ghost pre = samples@;
                samples.push(
                    Surfel {
                        position: p,
                        normal,
                        delta_straight,
                        delta_parabolic,
                        delta_flow,
                        substances: subs,
                    },
                );
                proof {
                    let (u, v) = choose|u: int, v: int|
                        0 <= u < SCALE && 0 <= v < SCALE && (
                        w[0] as int,
                        w[1] as int,
                        w[2] as int,
                        ) == #[trigger] crate::tri::spec_bary_of(u, v);
                    assert(w[0] as int == crate::tri::spec_bary_of(u, v).0);
                    assert(w[1] as int == crate::tri::spec_bary_of(u, v).1);
                    assert(w[2] as int == crate::tri::spec_bary_of(u, v).2);
                    lemma_sampled_from_mesh_push(
                        pre,
                        samples@,
                        positions@,
                        indices@,
                        t as int,
                        u,
                        v,
                    );
                }
                e = e + 1;
            }
            proof {
                assert(spec_total_count(
                    positions@,
                    indices@,
                    surfels_per_sqr_unit as int,
                    t as int + 1,
                ) == spec_total_count(positions@, indices@, surfels_per_sqr_unit as int, t as int)
                    + spec_surfel_count(
                    mesh_triangle(positions@, indices@, t as int),
                    surfels_per_sqr_unit as int,
                ));
            }
            t = t + 1;
        }
        proof {
            assert(t as int == indices@.len() as int / 3);
        }
        Surface { samples }
    }

    /// The indices, in increasing order, of exactly those surfels
    /// whose position lies strictly within `radius` of `p`.
    pub fn find_within_sphere_indexes(&self, p: Vec3, radius: i64) -> (r: Vec<usize>)
        requires
            p.ok(),
            0 <= radius <= 2_000_000_000,
            forall|i: int|
                0 <= i < self.samples@.len() ==> (#[trigger] self.samples@[i]).position.ok(),
        ensures
            forall|m: int|
                0 <= m < r@.len() ==> (#[trigger] r@[m]) < self.samples@.len() && spec_dist2(
                    self.samples@[r@[m] as int].position,
                    p,
                ) < radius * radius,
            forall|m: int, m2: int| 0 <= m < m2 < r@.len() ==> r@[m] < r@[m2],
            forall|i: usize|
                i < self.samples@.len() && spec_dist2(
                    (#[trigger] self.samples@[i as int]).position,
                    p,
                ) < radius * radius ==> r@.contains(i),
    {
        proof {
            crate::fx::lemma_mul_bound(radius as int, radius as int, 2_000_000_000, 2_000_000_000);
            broadcast use vstd::seq_lib::lemma_seq_contains_after_push;
        }
        let r2 = (radius as i128) * (radius as i128);
        let mut out: Vec<usize> = Vec::new();
        let mut i: usize = 0;
        while i < self.samples.len()
            invariant
                i <= self.samples@.len(),
                p.ok(),
                -4_000_000_000_000_000_000 <= r2 <= 4_000_000_000_000_000_000,
                r2 == radius * radius,
                forall|j: int|
                    0 <= j < self.samples@.len() ==> (#[trigger] self.samples@[j]).position.ok(),
                forall|m: int|
                    0 <= m < out@.len() ==> (#[trigger] out@[m]) < i && spec_dist2(
                        self.samples@[out@[m] as int].position,
                        p,
                    ) < radius * radius,
                forall|m: int, m2: int| 0 <= m < m2 < out@.len() ==> out@[m] < out@[m2],
                forall|j: usize|
                    j < i && spec_dist2((#[trigger] self.samples@[j as int]).position, p) < radius
                        * radius ==> out@.contains(j),
            decreases self.samples@.len() - i,
        {
            proof {
                broadcast use vstd::seq_lib::lemma_seq_contains_after_push;
            }
            let d = self.samples[i].position.sub(p);
            let d2 = dotw(&d, &d);
            if d2 < r2 {
                out.push(i);
            }
            i = i + 1;
        }
        out
    }

    /// The indices, in increasing order, of exactly those surfels
    /// whose first substance channel is strictly positive: the
    /// subset that traced particles have deposited into.
    pub fn hit_map_indexes(&self) -> (r: Vec<usize>)
        requires
            forall|i: int|
                0 <= i < self.samples@.len() ==> (#[trigger] self.samples@[i]).substances@.len()
                    > 0,
        ensures
            forall|m: int|
                0 <= m < r@.len() ==> (#[trigger] r@[m]) < self.samples@.len()
                    && self.samples@[r@[m] as int].substances@[0] > 0,
            forall|m: int, m2: int| 0 <= m < m2 < r@.len() ==> r@[m] < r@[m2],
            forall|i: usize|
                i < self.samples@.len() && (#[trigger] self.samples@[i as int]).substances@[0] > 0
                    ==> r@.contains(i),
    {
        proof {
            broadcast use vstd::seq_lib::lemma_seq_contains_after_push;
        }
        let mut out: Vec<usize> = Vec::new();
        let mut i: usize = 0;
        while i < self.samples.len()
            invariant
                i <= self.samples@.len(),
                forall|j: int|
                    0 <= j < self.samples@.len() ==> (#[trigger] self.samples@[j]).substances@.len()
                        > 0,
                forall|m: int|
                    0 <= m < out@.len() ==> (#[trigger] out@[m]) < i
                        && self.samples@[out@[m] as int].substances@[0] > 0,
                forall|m: int, m2: int| 0 <= m < m2 < out@.len() ==> out@[m] < out@[m2],
                forall|j: usize|
                    j < i && (#[trigger] self.samples@[j as int]).substances@[0] > 0
                        ==> out@.contains(j),
            decreases self.samples@.len() - i,
        {
            proof {
                broadcast use vstd::seq_lib::lemma_seq_contains_after_push;
            }
            if self.samples[i].substances[0] > 0 {
                out.push(i);
            }
            i = i + 1;
        }
        out
    }

    /// The surfel positions in order, for point-cloud export.
    pub fn positions(&self) -> (r: Vec<Vec3>)
        ensures
            r@.len() == self.samples@.len(),
            forall|i: int|
                0 <= i < r@.len() ==> (#[trigger] r@[i]) == self.samples@[i].position,
    {
        let mut out: Vec<Vec3> = Vec::new();
        let mut i: usize = 0;
        while i < self.samples.len()
            invariant
                i <= self.samples@.len(),
                out@.len() == i,
                forall|j: int| 0 <= j < i ==> (#[trigger] out@[j]) == self.samples@[j].position,
            decreases self.samples@.len() - i,
        {
            out.push(self.samples[i].position);
            i = i + 1;
        }
        out
    }
}

impl Vec3 {
    /// Runtime test for [`Vec3::ok`].
    pub fn ok_check(self) -> (r: bool)
        ensures
            r == self.ok(),
    {
        -crate::fx::MAX_COORD <= self.x && self.x <= crate::fx::MAX_COORD
            && -crate::fx::MAX_COORD <= self.y && self.y <= crate::fx::MAX_COORD
            && -crate::fx::MAX_COORD <= self.z && self.z <= crate::fx::MAX_COORD
    }
}

} // verus!
