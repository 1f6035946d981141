//! The particle-tracing engine: gammatons are emitted from sources,
//! bounce through the scene via the octree, and exchange substances
//! with the surfels near each hit point. Motion probabilities only
//! ever deteriorate, substance stocks never go negative, and picking
//! material up conserves it exactly between surfel and particle.

use vstd::prelude::*;
use crate::fx::{SCALE, div_floor, divi, clampi, clamp_i, lemma_mul_bound, lemma_div_bound_by};
use crate::vec3::Vec3;
use crate::aabb::min2;
use crate::octree::Octree;
use crate::surf::{Surface, Surfel, SUB_CAP, DELTA_CAP};
use crate::tri::{Triangle, spec_dist2};
use crate::rng::random_unit;

verus! {

/// The number of bounces a trace may take; the reference behavior is
/// unbounded, so exceeding this budget is treated as a forced settle:
/// the particle deposits at its last interaction set and stops.
pub const MAX_BOUNCES: u32 = 64;

/// The ray meets none of the triangles.
pub open spec fn ray_misses_all(tris: Seq<Triangle>, o: Vec3, d: Vec3) -> bool {
    forall|i: usize| i < tris.len() ==> (#[trigger] tris[i as int].spec_ray_hit(o, d)) is None
}

/// `t` is the smallest parameter at which the ray meets any triangle.
pub open spec fn is_nearest_hit(tris: Seq<Triangle>, o: Vec3, d: Vec3, t: int) -> bool {
    &&& exists|i: usize|
        i < tris.len() && (#[trigger] tris[i as int].spec_ray_hit(o, d)) == Some(t)
    &&& forall|i: usize|
        i < tris.len() && (#[trigger] tris[i as int].spec_ray_hit(o, d)) is Some ==> t
            <= tris[i as int].spec_ray_hit(o, d)->Some_0
}

/// The point the ray reaches at parameter `t`, each component
/// saturated into working range like the per-triangle hit point.
pub open spec fn spec_point_at(o: Vec3, d: Vec3, t: int) -> Vec3 {
    Vec3 {
        x: (o.x + clamp_i(
            div_floor(d.x * t, SCALE as int),
            -1_000_000_000_000_000,
            1_000_000_000_000_000,
        )) as i64,
        y: (o.y + clamp_i(
            div_floor(d.y * t, SCALE as int),
            -1_000_000_000_000_000,
            1_000_000_000_000_000,
        )) as i64,
        z: (o.z + clamp_i(
            div_floor(d.z * t, SCALE as int),
            -1_000_000_000_000_000,
            1_000_000_000_000_000,
        )) as i64,
    }
}

/// Wherever the ray first strikes the scene, no surfel lies within
/// the interaction radius of that point (vacuously true when the ray
/// strikes nothing).
pub open spec fn no_surfel_in_reach(
    s: Surface,
    tris: Seq<Triangle>,
    o: Vec3,
    d: Vec3,
    radius: int,
) -> bool {
    forall|t: int|
        #[trigger] is_nearest_hit(tris, o, d, t) ==> forall|i: int|
            0 <= i < s.samples@.len() ==> spec_dist2(
                (#[trigger] s.samples@[i]).position,
                spec_point_at(o, d, t),
            ) >= radius * radius
}

/// The frame relation chains: if only substances changed from `a` to
/// `b` and from `b` to `c`, only substances changed from `a` to `c`.
pub proof fn lemma_frame_trans(a: Surface, b: Surface, c: Surface)
    requires
        surfels_frame(a, b),
        surfels_frame(b, c),
    ensures
        surfels_frame(a, c),
{
    assert forall|i: int| 0 <= i < a.samples@.len() implies ({
        let x = a.samples@[i];
        let y = #[trigger] c.samples@[i];
        {
            &&& y.position == x.position
            &&& y.normal == x.normal
            &&& y.delta_straight == x.delta_straight
            &&& y.delta_parabolic == x.delta_parabolic
            &&& y.delta_flow == x.delta_flow
            &&& y.substances@.len() == x.substances@.len()
        }
    }) by {
        assert(b.samples@[i].position == a.samples@[i].position);
    }
}

/// Surfel `i` lies strictly within `radius` of the point `hp`.
pub open spec fn in_reach(s: Surface, hp: Vec3, radius: int, i: int) -> bool {
    0 <= i < s.samples@.len() && spec_dist2(s.samples@[i].position, hp) < radius * radius
}

/// `i` is the first surfel index within `radius` of `hp`.
pub open spec fn first_in_reach(s: Surface, hp: Vec3, radius: int, i: int) -> bool {
    in_reach(s, hp, radius, i) && forall|j: int| 0 <= j < i ==> !in_reach(s, hp, radius, j)
}

/// The settle deposit happened at `hp`: every surfel within `radius`
/// grew by the weighted ton stock on each channel (saturating), and
/// every other surfel is exactly as before.
pub open spec fn settle_deposited(
    s0: Surface,
    s1: Surface,
    stock: Seq<i64>,
    weight: int,
    hp: Vec3,
    radius: int,
) -> bool {
    &&& s1.samples@.len() == s0.samples@.len()
    &&& forall|i: int|
        0 <= i < s0.samples@.len() ==> {
            let a = s0.samples@[i];
            let b = #[trigger] s1.samples@[i];
            if spec_dist2(a.position, hp) < radius * radius {
                b.substances@.len() == a.substances@.len() && forall|ch: int|
                    0 <= ch < a.substances@.len() ==> #[trigger] b.substances@[ch] == min2(
                        a.substances@[ch] + div_floor(weight * stock[ch], SCALE as int),
                        SUB_CAP as int,
                    )
            } else {
                b == a
            }
        }
}

/// The combined motion probability of a ton.
pub open spec fn motion_sum(t: Ton) -> int {
    t.p_straight + t.p_parabolic + t.p_flow
}

/// A particle with no motion probability left settles at its first
/// strike: wherever the ray first hits, if the hit point is
/// representable and some surfel is in reach, the settle deposit of
/// the particle's (unchanged) stock landed exactly on the surfels in
/// reach.
pub open spec fn exhausted_settles_at_first_strike(
    s0: Surface,
    s1: Surface,
    tris: Seq<Triangle>,
    origin: Vec3,
    direction: Vec3,
    stock: Seq<i64>,
    radius: int,
    weight: int,
) -> bool {
    forall|t: int|
        #[trigger] is_nearest_hit(tris, origin, direction, t) ==> {
            let hp = spec_point_at(origin, direction, t);
            (hp.ok() && exists|i: int| #[trigger] in_reach(s0, hp, radius, i))
                ==> settle_deposited(s0, s1, stock, weight, hp, radius)
        }
}

/// A particle certain to keep moving deteriorates at its first
/// strike: wherever the ray first hits, if the hit point is
/// representable, its probabilities end at or below one deterioration
/// step by the rates of the first surfel in reach.
pub open spec fn first_strike_deteriorated(
    s0: Surface,
    tris: Seq<Triangle>,
    origin: Vec3,
    direction: Vec3,
    p0s: int,
    p0p: int,
    p0f: int,
    radius: int,
    ps: int,
    pp: int,
    pf: int,
) -> bool {
    forall|t: int|
        #[trigger] is_nearest_hit(tris, origin, direction, t) ==> {
            let hp = spec_point_at(origin, direction, t);
            hp.ok() ==> forall|i: int|
                #[trigger] first_in_reach(s0, hp, radius, i) ==> {
                    let f = s0.samples@[i];
                    {
                        &&& ps <= spec_deteriorate(p0s, f.delta_straight as int)
                        &&& pp <= spec_deteriorate(p0p, f.delta_parabolic as int)
                        &&& pf <= spec_deteriorate(p0f, f.delta_flow as int)
                    }
                }
        }
}

/// The trace touched nothing: the surface and the ton's substances
/// and probabilities read exactly as before.
pub open spec fn trace_unchanged(s0: Surface, s1: Surface, t0: Ton, t1: Ton) -> bool {
    &&& s1.samples@ == s0.samples@
    &&& t1.substances@ == t0.substances@
    &&& t1.p_straight == t0.p_straight
    &&& t1.p_parabolic == t0.p_parabolic
    &&& t1.p_flow == t0.p_flow
}

/// Only the substance stocks of surfels differ between the two
/// surface states: the count, and every surfel's position, normal and
/// deterioration rates, are the same.
pub open spec fn surfels_frame(s0: Surface, s1: Surface) -> bool {
    &&& s1.samples@.len() == s0.samples@.len()
    &&& forall|i: int|
        0 <= i < s0.samples@.len() ==> {
            let a = s0.samples@[i];
            let b = #[trigger] s1.samples@[i];
            {
                &&& b.position == a.position
                &&& b.normal == a.normal
                &&& b.delta_straight == a.delta_straight
                &&& b.delta_parabolic == a.delta_parabolic
                &&& b.delta_flow == a.delta_flow
                &&& b.substances@.len() == a.substances@.len()
            }
        }
}

/// A traveling particle: its motion probabilities, interaction
/// radius, and carried substances.
pub struct Ton {
    /// Probability of moving further in a straight line.
    pub p_straight: i64,
    /// Probability of moving in a parabolic path.
    pub p_parabolic: i64,
    /// Probability of flowing in a tangent direction.
    pub p_flow: i64,
    /// Surfels within this radius of a hit interact with the ton.
    pub interaction_radius: i64,
    /// The amounts of substances the ton carries.
    pub substances: Vec<i64>,
}

impl Ton {
    pub open spec fn wf(self, n: int) -> bool {
        &&& 0 <= self.p_straight <= SCALE
        &&& 0 <= self.p_parabolic <= SCALE
        &&& 0 <= self.p_flow <= SCALE
        &&& 0 <= self.interaction_radius <= 2_000_000_000
        &&& self.substances@.len() == n
        &&& forall|k: int| 0 <= k < n ==> 0 <= #[trigger] self.substances@[k] <= SUB_CAP
    }
}

/// A point-shaped particle source: emits a configured number of tons
/// from a fixed origin in a fixed direction, each carrying the
/// configured initial probabilities and substances.
pub struct TonSource {
    pub emission_count: u32,
    pub origin: Vec3,
    pub direction: Vec3,
    pub p_straight: i64,
    pub p_parabolic: i64,
    pub p_flow: i64,
    pub interaction_radius: i64,
    pub substances: Vec<i64>,
}

impl TonSource {
    pub open spec fn wf(self, n: int) -> bool {
        &&& 0 <= self.p_straight <= SCALE
        &&& 0 <= self.p_parabolic <= SCALE
        &&& 0 <= self.p_flow <= SCALE
        &&& 0 <= self.interaction_radius <= 2_000_000_000
        &&& self.origin.ok()
        &&& crate::vec3::t3_bounded(self.direction.t3(), 2 * SCALE)
        &&& self.substances@.len() == n
        &&& forall|k: int| 0 <= k < n ==> 0 <= #[trigger] self.substances@[k] <= SUB_CAP
    }

    /// One emission: a fresh ton and the ray it starts on.
    pub fn emit_ton(&self) -> (r: (Ton, Vec3, Vec3))
        ensures
            r.0.p_straight == self.p_straight,
            r.0.p_parabolic == self.p_parabolic,
            r.0.p_flow == self.p_flow,
            r.0.interaction_radius == self.interaction_radius,
            r.0.substances@ == self.substances@,
            r.1 == self.origin,
            r.2 == self.direction,
    {
        let mut subs: Vec<i64> = Vec::new();
        let mut k: usize = 0;
        while k < self.substances.len()
            invariant
                k <= self.substances@.len(),
                subs@ == self.substances@.take(k as int),
            decreases self.substances@.len() - k,
        {
            subs.push(self.substances[k]);
            proof {
                assert(self.substances@.take(k + 1int).drop_last() == self.substances@.take(
                    k as int,
                ));
                assert(self.substances@.take(k + 1int).last() == self.substances@[k as int]);
            }
            k = k + 1;
        }
        proof {
            assert(self.substances@.take(self.substances@.len() as int) == self.substances@);
        }
        let ton = Ton {
            p_straight: self.p_straight,
            p_parabolic: self.p_parabolic,
            p_flow: self.p_flow,
            interaction_radius: self.interaction_radius,
            substances: subs,
        };
        (ton, self.origin, self.direction)
    }

    /// How many particles this source emits per iteration.
    pub fn emission_count(&self) -> (r: u32)
        ensures
            r == self.emission_count,
    {
        self.emission_count
    }
}

/// One deterioration step: the probability drops by the rate, floored
/// at zero so it never becomes negative.
pub open spec fn spec_deteriorate(p: int, delta: int) -> int {
    if p - delta < 0 {
        0
    } else {
        p - delta
    }
}

/// Maintains a simulation over a triangle scene with an associated
/// surface model.
pub struct Simulation {
    /// The surface model, mutated by every traced particle.
    pub surface: Surface,
    /// The spatial index over the scene's triangles, read-only during
    /// tracing.
    pub octree: Octree,
    /// Ton sources that emit particles at the start of each iteration.
    pub sources: Vec<TonSource>,
    /// The number of iterations to perform.
    pub iterations: u32,
    /// How much of a substance a settling ton hands to each
    /// interacted surfel.
    pub ton_to_surface_interaction_weight: i64,
}

impl Simulation {
    /// The number of substance channels everything must agree on.
    pub open spec fn n_subs(self) -> int {
        if self.sources@.len() > 0 {
            self.sources@[0].substances@.len() as int
        } else {
            0
        }
    }

    pub open spec fn wf(self) -> bool {
        &&& self.octree.wf()
        &&& self.surface.wf(self.n_subs())
        &&& forall|j: int|
            0 <= j < self.sources@.len() ==> (#[trigger] self.sources@[j]).wf(self.n_subs())
        &&& 0 <= self.ton_to_surface_interaction_weight <= SCALE
    }

    /// Creates a new simulation: builds the spatial index over the
    /// scene triangles and takes ownership of the surface and sources.
    pub fn new(
        triangles: Vec<Triangle>,
        surface: Surface,
        ton_to_surface_interaction_weight: i64,
        iterations: u32,
        sources: Vec<TonSource>,
    ) -> (r: Simulation)
        requires
            forall|i: int| 0 <= i < triangles@.len() ==> (#[trigger] triangles@[i]).wf(),
            ({
                let n = if sources@.len() > 0 {
                    sources@[0].substances@.len() as int
                } else {
                    0
                };
                surface.wf(n) && forall|j: int|
                    0 <= j < sources@.len() ==> (#[trigger] sources@[j]).wf(n)
            }),
            0 <= ton_to_surface_interaction_weight <= SCALE,
        ensures
            r.wf(),
            r.surface == surface,
            r.sources == sources,
            r.iterations == iterations,
            r.ton_to_surface_interaction_weight == ton_to_surface_interaction_weight,
            r.octree.triangles == triangles,
    {
        let octree = Octree::build(triangles);
        Simulation { surface, octree, sources, iterations, ton_to_surface_interaction_weight }
    }

    /// Runs the simulation for the configured number of iterations,
    /// each tracing every source's emissions through the scene and
    /// mutating the surface. The surface keeps its surfel count and
    /// stays well-formed; effects and sinks are the caller's concern.
    pub fn run(&mut self, rng: &mut rand::rngs::ThreadRng)
        requires
            old(self).wf(),
        ensures
            final(self).wf(),
            surfels_frame(old(self).surface, final(self).surface),
            final(self).octree == old(self).octree,
            final(self).sources == old(self).sources,
            final(self).iterations == old(self).iterations,
            final(self).ton_to_surface_interaction_weight == old(
                self,
            ).ton_to_surface_interaction_weight,
            ({
                &&& old(self).iterations == 1
                &&& old(self).sources@.len() == 1
                &&& old(self).sources@[0].emission_count == 1
                &&& old(self).sources@[0].p_straight + old(self).sources@[0].p_parabolic + old(
                    self,
                ).sources@[0].p_flow == 0
            }) ==> exhausted_settles_at_first_strike(
                old(self).surface,
                final(self).surface,
                old(self).octree.triangles@,
                old(self).sources@[0].origin,
                old(self).sources@[0].direction,
                old(self).sources@[0].substances@,
                old(self).sources@[0].interaction_radius as int,
                old(self).ton_to_surface_interaction_weight as int,
            ),
    {
        let ghost one_shot = old(self).iterations == 1 && old(self).sources@.len() == 1 && old(
            self,
        ).sources@[0].emission_count == 1 && old(self).sources@[0].p_straight + old(
            self,
        ).sources@[0].p_parabolic + old(self).sources@[0].p_flow == 0;
        let mut it: u32 = 0;
        while it < self.iterations
            invariant
                self.wf(),
                surfels_frame(old(self).surface, self.surface),
                self.octree == old(self).octree,
                self.sources == old(self).sources,
                self.iterations == old(self).iterations,
                self.ton_to_surface_interaction_weight == old(
                    self,
                ).ton_to_surface_interaction_weight,
                it <= self.iterations,
                one_shot == (old(self).iterations == 1 && old(self).sources@.len() == 1 && old(
                    self,
                ).sources@[0].emission_count == 1 && old(self).sources@[0].p_straight + old(
                    self,
                ).sources@[0].p_parabolic + old(self).sources@[0].p_flow == 0),
                one_shot ==> ((it == 0 && self.surface == old(self).surface) || (it > 0
                    && exhausted_settles_at_first_strike(
                    old(self).surface,
                    self.surface,
                    old(self).octree.triangles@,
                    old(self).sources@[0].origin,
                    old(self).sources@[0].direction,
                    old(self).sources@[0].substances@,
                    old(self).sources@[0].interaction_radius as int,
                    old(self).ton_to_surface_interaction_weight as int,
                ))),
            decreases self.iterations - it,
        {
            let ghost pre = *self;
            self.trace_particles(rng);
            proof {
                lemma_frame_trans(old(self).surface, pre.surface, self.surface);
                if one_shot {
                    assert(pre.surface == old(self).surface);
                    assert(exhausted_settles_at_first_strike(
                        old(self).surface,
                        self.surface,
                        old(self).octree.triangles@,
                        old(self).sources@[0].origin,
                        old(self).sources@[0].direction,
                        old(self).sources@[0].substances@,
                        old(self).sources@[0].interaction_radius as int,
                        old(self).ton_to_surface_interaction_weight as int,
                    ));
                }
            }
            it = it + 1;
        }
    }

    /// Emits every source's particles and traces each to completion.
    pub fn trace_particles(&mut self, rng: &mut rand::rngs::ThreadRng)
        requires
            old(self).wf(),
        ensures
            final(self).wf(),
            surfels_frame(old(self).surface, final(self).surface),
            final(self).octree == old(self).octree,
            final(self).sources == old(self).sources,
            final(self).iterations == old(self).iterations,
            final(self).ton_to_surface_interaction_weight == old(
                self,
            ).ton_to_surface_interaction_weight,
            ({
                &&& old(self).sources@.len() == 1
                &&& old(self).sources@[0].emission_count == 1
                &&& old(self).sources@[0].p_straight + old(self).sources@[0].p_parabolic + old(
                    self,
                ).sources@[0].p_flow == 0
            }) ==> exhausted_settles_at_first_strike(
                old(self).surface,
                final(self).surface,
                old(self).octree.triangles@,
                old(self).sources@[0].origin,
                old(self).sources@[0].direction,
                old(self).sources@[0].substances@,
                old(self).sources@[0].interaction_radius as int,
                old(self).ton_to_surface_interaction_weight as int,
            ),
    {
        let ghost single_exhausted_source = old(self).sources@.len() == 1 && old(
            self,
        ).sources@[0].emission_count == 1 && old(self).sources@[0].p_straight + old(
            self,
        ).sources@[0].p_parabolic + old(self).sources@[0].p_flow == 0;
        let weight = self.ton_to_surface_interaction_weight;
        let mut s: usize = 0;
        while s < self.sources.len()
            invariant
                self.wf(),
                s <= self.sources@.len(),
                weight == self.ton_to_surface_interaction_weight,
                surfels_frame(old(self).surface, self.surface),
                self.octree == old(self).octree,
                self.sources == old(self).sources,
                self.iterations == old(self).iterations,
                self.ton_to_surface_interaction_weight == old(
                    self,
                ).ton_to_surface_interaction_weight,
                single_exhausted_source == (old(self).sources@.len() == 1 && old(
                    self,
                ).sources@[0].emission_count == 1 && old(self).sources@[0].p_straight + old(
                    self,
                ).sources@[0].p_parabolic + old(self).sources@[0].p_flow == 0),
                single_exhausted_source ==> ((s == 0 && self.surface == old(self).surface) || (s
                    > 0 && exhausted_settles_at_first_strike(
                    old(self).surface,
                    self.surface,
                    old(self).octree.triangles@,
                    old(self).sources@[0].origin,
                    old(self).sources@[0].direction,
                    old(self).sources@[0].substances@,
                    old(self).sources@[0].interaction_radius as int,
                    old(self).ton_to_surface_interaction_weight as int,
                ))),
            decreases self.sources@.len() - s,
        {
            let count = self.sources[s].emission_count;
            let mut e: u32 = 0;
            while e < count
                invariant
                    self.wf(),
                    s < self.sources@.len(),
                    count == self.sources@[s as int].emission_count,
                    weight == self.ton_to_surface_interaction_weight,
                    surfels_frame(old(self).surface, self.surface),
                    self.octree == old(self).octree,
                    self.sources == old(self).sources,
                    self.iterations == old(self).iterations,
                    self.ton_to_surface_interaction_weight == old(
                        self,
                    ).ton_to_surface_interaction_weight,
                    single_exhausted_source == (old(self).sources@.len() == 1 && old(
                        self,
                    ).sources@[0].emission_count == 1 && old(self).sources@[0].p_straight + old(
                        self,
                    ).sources@[0].p_parabolic + old(self).sources@[0].p_flow == 0),
                    single_exhausted_source ==> s == 0,
                    single_exhausted_source ==> ((e == 0 && self.surface == old(self).surface)
                        || (e > 0 && exhausted_settles_at_first_strike(
                        old(self).surface,
                        self.surface,
                        old(self).octree.triangles@,
                        old(self).sources@[0].origin,
                        old(self).sources@[0].direction,
                        old(self).sources@[0].substances@,
                        old(self).sources@[0].interaction_radius as int,
                        old(self).ton_to_surface_interaction_weight as int,
                    ))),
                decreases count - e,
            {
                let (mut ton, origin, direction) = self.sources[s].emit_ton();
                proof {
                    assert(self.sources@[s as int].wf(self.n_subs()));
                }
                let ghost pre = self.surface;
                let _touched = Self::trace_straight(
                    &mut self.surface,
                    &self.octree,
                    &mut ton,
                    origin,
                    direction,
                    weight,
                    rng,
                );
                proof {
                    lemma_frame_trans(old(self).surface, pre, self.surface);
                    if single_exhausted_source {
                        assert(old(self).sources@[0].wf(old(self).n_subs()));
                        assert(origin == old(self).sources@[0].origin);
                        assert(direction == old(self).sources@[0].direction);
                        assert(origin.ok());
                        assert(direction.ok());
                        assert(pre == old(self).surface);
                        assert(exhausted_settles_at_first_strike(
                            old(self).surface,
                            self.surface,
                            old(self).octree.triangles@,
                            old(self).sources@[0].origin,
                            old(self).sources@[0].direction,
                            old(self).sources@[0].substances@,
                            old(self).sources@[0].interaction_radius as int,
                            old(self).ton_to_surface_interaction_weight as int,
                        ));
                    }
                }
                e = e + 1;
            }
            s = s + 1;
        }
    }

    /// Traces one particle: bounce by bounce it queries the octree
    /// for the nearest hit, finds the surfels within the interaction
    /// radius, deteriorates its motion probabilities, picks material
    /// up unless it settles, and either reflects, stops (parabolic
    /// placeholder), flows along the tangent plane, or settles and
    /// deposits. The trace ends when the ray escapes the scene or
    /// leaves the representable volume, no surfel is near, or the
    /// particle settles; spending the bounce budget forces a settle
    /// at the last interaction set. Whatever the random draws, only
    /// surfel substances change and only at surfels within the
    /// interaction radius of the trace's hit points (returned as a
    /// ghost log), the surface keeps its size and well-formedness,
    /// the ton's probabilities never increase, and a trace whose ray
    /// strikes nothing, or strikes where no surfel is in reach,
    /// changes nothing at all. A particle whose motion probabilities
    /// are spent settles at its first strike, and one certain to keep
    /// moving deteriorates there by the first in-reach surfel's
    /// rates.
    pub fn trace_straight(
        surface: &mut Surface,
        octree: &Octree,
        ton: &mut Ton,
        origin: Vec3,
        direction: Vec3,
        ton_to_surface_interaction_weight: i64,
        rng: &mut rand::rngs::ThreadRng,
    ) -> (touched: Ghost<Seq<Vec3>>)
        requires
            octree.wf(),
            old(surface).wf(old(ton).substances@.len() as int),
            old(ton).wf(old(ton).substances@.len() as int),
            0 <= ton_to_surface_interaction_weight <= SCALE,
        ensures
            final(surface).wf(old(ton).substances@.len() as int),
            surfels_frame(*old(surface), *final(surface)),
            final(ton).wf(old(ton).substances@.len() as int),
            final(ton).substances@.len() == old(ton).substances@.len(),
            final(ton).p_straight <= old(ton).p_straight,
            final(ton).p_parabolic <= old(ton).p_parabolic,
            final(ton).p_flow <= old(ton).p_flow,
            final(ton).interaction_radius == old(ton).interaction_radius,
            ray_misses_all(octree.triangles@, origin, direction) || no_surfel_in_reach(
                *old(surface),
                octree.triangles@,
                origin,
                direction,
                old(ton).interaction_radius as int,
            ) ==> trace_unchanged(*old(surface), *final(surface), *old(ton), *final(ton)),
            forall|i: int|
                0 <= i < old(surface).samples@.len() && (#[trigger] final(surface).samples@[i])
                    != old(surface).samples@[i] ==> exists|pj: int|
                    0 <= pj < touched@.len() && spec_dist2(
                        old(surface).samples@[i].position,
                        #[trigger] touched@[pj],
                    ) < old(ton).interaction_radius * old(ton).interaction_radius,
            origin.ok() && direction.ok() && motion_sum(*old(ton)) == 0
                ==> exhausted_settles_at_first_strike(
                *old(surface),
                *final(surface),
                octree.triangles@,
                origin,
                direction,
                old(ton).substances@,
                old(ton).interaction_radius as int,
                ton_to_surface_interaction_weight as int,
            ),
            origin.ok() && direction.ok() && motion_sum(*old(ton)) == SCALE
                ==> first_strike_deteriorated(
                *old(surface),
                octree.triangles@,
                origin,
                direction,
                old(ton).p_straight as int,
                old(ton).p_parabolic as int,
                old(ton).p_flow as int,
                old(ton).interaction_radius as int,
                final(ton).p_straight as int,
                final(ton).p_parabolic as int,
                final(ton).p_flow as int,
            ),
    {
        let ghost n = old(ton).substances@.len() as int;
        let ghost mut trace_points: Seq<Vec3> = Seq::empty();
        let mut o = origin;
        let mut d = direction;
        let mut bounce: u32 = 0;
        while bounce < MAX_BOUNCES
            invariant
                forall|i: int|
                    0 <= i < old(surface).samples@.len() && (#[trigger] surface.samples@[i])
                        != old(surface).samples@[i] ==> exists|pj: int|
                        0 <= pj < trace_points.len() && spec_dist2(
                            old(surface).samples@[i].position,
                            #[trigger] trace_points[pj],
                        ) < old(ton).interaction_radius * old(ton).interaction_radius,
                n == old(ton).substances@.len() as int,
                octree.wf(),
                surface.wf(n),
                surfels_frame(*old(surface), *surface),
                ton.wf(n),
                ton.substances@.len() == n,
                ton.p_straight <= old(ton).p_straight,
                ton.p_parabolic <= old(ton).p_parabolic,
                ton.p_flow <= old(ton).p_flow,
                ton.interaction_radius == old(ton).interaction_radius,
                0 <= ton_to_surface_interaction_weight <= SCALE,
                bounce == 0 ==> o == origin && d == direction && surface.samples@ == old(
                    surface,
                ).samples@ && ton.substances@ == old(ton).substances@ && ton.p_straight == old(
                    ton,
                ).p_straight && ton.p_parabolic == old(ton).p_parabolic && ton.p_flow == old(
                    ton,
                ).p_flow,
                bounce > 0 ==> !ray_misses_all(octree.triangles@, origin, direction)
                    && !no_surfel_in_reach(
                    *old(surface),
                    octree.triangles@,
                    origin,
                    direction,
                    old(ton).interaction_radius as int,
                ),
                bounce > 0 ==> motion_sum(*old(ton)) > 0,
                origin.ok() && direction.ok() && motion_sum(*old(ton)) == SCALE && bounce > 0
                    ==> first_strike_deteriorated(
                    *old(surface),
                    octree.triangles@,
                    origin,
                    direction,
                    old(ton).p_straight as int,
                    old(ton).p_parabolic as int,
                    old(ton).p_flow as int,
                    old(ton).interaction_radius as int,
                    ton.p_straight as int,
                    ton.p_parabolic as int,
                    ton.p_flow as int,
                ),
            decreases MAX_BOUNCES - bounce,
        {
            let ghost ton_at_top = *ton;
            let ghost points_at_top = trace_points;
            if !o.ok_check() || !d.ok_check() {
                return Ghost(trace_points);
            }
            let hit = octree.ray_intersection_target_and_parameter(o, d);
            let (tri_idx, t) = match hit {
                None => { return Ghost(trace_points); },
                Some(h) => h,
            };
            proof {
                lemma_mul_bound(d.x as int, t as int, 500_000_000, 0x7fff_ffff_ffff_ffff);
                lemma_mul_bound(d.y as int, t as int, 500_000_000, 0x7fff_ffff_ffff_ffff);
                lemma_mul_bound(d.z as int, t as int, 500_000_000, 0x7fff_ffff_ffff_ffff);
            }
            let hp = Vec3 {
                x: o.x + clampi(
                    divi((d.x as i128) * (t as i128), SCALE as i128),
                    1_000_000_000_000_000,
                ),
                y: o.y + clampi(
                    divi((d.y as i128) * (t as i128), SCALE as i128),
                    1_000_000_000_000_000,
                ),
                z: o.z + clampi(
                    divi((d.z as i128) * (t as i128), SCALE as i128),
                    1_000_000_000_000_000,
                ),
            };
            proof {
                assert(hp == spec_point_at(o, d, t as int));
                if bounce == 0 {
                    lemma_nearest_hit_is_query_param(
                        octree.triangles@,
                        origin,
                        direction,
                        tri_idx,
                        t,
                    );
                }
            }
            if !hp.ok_check() {
                return Ghost(trace_points);
            }
            let scount = surface.samples.len();
            let idxs = surface.find_within_sphere_indexes(hp, ton.interaction_radius);
            if idxs.len() == 0 {
                // hit geometry without any surfel to interact with:
                // the particle ends here, the run goes on
                proof {
                    if bounce == 0 {
                        assert(scount as int == old(surface).samples@.len());
                        assert forall|i2: int|
                            0 <= i2 < old(surface).samples@.len() implies !in_reach(
                            *old(surface),
                            hp,
                            old(ton).interaction_radius as int,
                            i2,
                        ) by {
                            if spec_dist2(old(surface).samples@[i2].position, hp) < old(
                                ton,
                            ).interaction_radius * old(ton).interaction_radius {
                                let iu: usize = i2 as usize;
                                assert(spec_dist2(surface.samples@[iu as int].position, hp)
                                    < ton.interaction_radius * ton.interaction_radius);
                                assert(idxs@.contains(iu));
                            }
                        }
                    }
                }
                return Ghost(trace_points);
            }
            proof {
                if bounce == 0 {
                    // the first strike found an interacting surfel,
                    // so neither deterministic early-out applies
                    assert(idxs@[0] < surface.samples@.len() && spec_dist2(
                        surface.samples@[idxs@[0] as int].position,
                        hp,
                    ) < ton.interaction_radius * ton.interaction_radius);
                    assert(!no_surfel_in_reach(
                        *old(surface),
                        octree.triangles@,
                        origin,
                        direction,
                        old(ton).interaction_radius as int,
                    )) by {
                        assert(is_nearest_hit(octree.triangles@, origin, direction, t as int));
                        assert(spec_dist2(
                            old(surface).samples@[idxs@[0] as int].position,
                            spec_point_at(origin, direction, t as int),
                        ) < old(ton).interaction_radius * old(ton).interaction_radius);
                    }
                }
            }
            proof {
                assert forall|m: int| 0 <= m < idxs@.len() implies spec_dist2(
                    old(surface).samples@[#[trigger] idxs@[m] as int].position,
                    hp,
                ) < old(ton).interaction_radius * old(ton).interaction_radius by {
                    assert(surface.samples@[idxs@[m] as int].position == old(
                        surface,
                    ).samples@[idxs@[m] as int].position);
                }
                trace_points = trace_points.push(hp);
            }
            let rnd = random_unit(rng);
            let first = idxs[0];
            if rnd < ton.p_straight + ton.p_parabolic + ton.p_flow {
                // not settling yet: deteriorate by the first surfel's
                // rates, then pick material up from all of them
                Self::deteriorate_motion_probabilities(ton, &surface.samples[first]);
                let ghost pre = *surface;
                Self::pickup_from_all(
                    surface,
                    &idxs,
                    ton,
                    ton_to_surface_interaction_weight,
                    Ghost(n),
                );
                proof {
                    lemma_frame_trans(*old(surface), pre, *surface);
                    assert forall|i: int|
                        0 <= i < old(surface).samples@.len() && (#[trigger] surface.samples@[i])
                            != old(surface).samples@[i] implies exists|pj: int|
                            0 <= pj < trace_points.len() && spec_dist2(
                                old(surface).samples@[i].position,
                                #[trigger] trace_points[pj],
                            ) < old(ton).interaction_radius * old(ton).interaction_radius by {
                        if surface.samples@[i] != pre.samples@[i] {
                            let iu: usize = i as usize;
                            assert(idxs@.contains(iu));
                            let m = choose|m: int| 0 <= m < idxs@.len() && idxs@[m] == iu;
                            assert(spec_dist2(
                                old(surface).samples@[idxs@[m] as int].position,
                                hp,
                            ) < old(ton).interaction_radius * old(ton).interaction_radius);
                            assert(trace_points[trace_points.len() - 1] == hp);
                        } else {
                            // changed at an earlier interaction; the
                            // log only grew since, so the earlier
                            // witness still stands
                            if exists|pj: int|
                                0 <= pj < points_at_top.len() && spec_dist2(
                                    old(surface).samples@[i].position,
                                    #[trigger] points_at_top[pj],
                                ) < old(ton).interaction_radius * old(ton).interaction_radius {
                                let pj = choose|pj: int|
                                    0 <= pj < points_at_top.len() && spec_dist2(
                                        old(surface).samples@[i].position,
                                        #[trigger] points_at_top[pj],
                                    ) < old(ton).interaction_radius * old(
                                        ton,
                                    ).interaction_radius;
                                assert(trace_points[pj] == points_at_top[pj]);
                            }
                        }
                    }
                }
            }
            proof {
                if origin.ok() && direction.ok() && motion_sum(*old(ton)) == SCALE {
                    if bounce == 0 {
                        lemma_first_in_reach_is_head(
                            *old(surface),
                            hp,
                            old(ton).interaction_radius as int,
                            idxs@,
                        );
                        assert forall|t2: int|
                            #[trigger] is_nearest_hit(
                                octree.triangles@,
                                origin,
                                direction,
                                t2,
                            ) implies ({
                            let hp2 = spec_point_at(origin, direction, t2);
                            hp2.ok() ==> forall|i2: int|
                                #[trigger] first_in_reach(
                                    *old(surface),
                                    hp2,
                                    old(ton).interaction_radius as int,
                                    i2,
                                ) ==> {
                                    let f = old(surface).samples@[i2];
                                    {
                                        &&& ton.p_straight <= spec_deteriorate(
                                            old(ton).p_straight as int,
                                            f.delta_straight as int,
                                        )
                                        &&& ton.p_parabolic <= spec_deteriorate(
                                            old(ton).p_parabolic as int,
                                            f.delta_parabolic as int,
                                        )
                                        &&& ton.p_flow <= spec_deteriorate(
                                            old(ton).p_flow as int,
                                            f.delta_flow as int,
                                        )
                                    }
                                }
                        }) by {
                            assert(t2 == t as int);
                        }
                        assert(first_strike_deteriorated(
                            *old(surface),
                            octree.triangles@,
                            origin,
                            direction,
                            old(ton).p_straight as int,
                            old(ton).p_parabolic as int,
                            old(ton).p_flow as int,
                            old(ton).interaction_radius as int,
                            ton.p_straight as int,
                            ton.p_parabolic as int,
                            ton.p_flow as int,
                        ));
                    } else {
                        assert forall|t2: int|
                            #[trigger] is_nearest_hit(
                                octree.triangles@,
                                origin,
                                direction,
                                t2,
                            ) implies ({
                            let hp2 = spec_point_at(origin, direction, t2);
                            hp2.ok() ==> forall|i2: int|
                                #[trigger] first_in_reach(
                                    *old(surface),
                                    hp2,
                                    old(ton).interaction_radius as int,
                                    i2,
                                ) ==> {
                                    let f = old(surface).samples@[i2];
                                    {
                                        &&& ton.p_straight <= spec_deteriorate(
                                            old(ton).p_straight as int,
                                            f.delta_straight as int,
                                        )
                                        &&& ton.p_parabolic <= spec_deteriorate(
                                            old(ton).p_parabolic as int,
                                            f.delta_parabolic as int,
                                        )
                                        &&& ton.p_flow <= spec_deteriorate(
                                            old(ton).p_flow as int,
                                            f.delta_flow as int,
                                        )
                                    }
                                }
                        }) by {
                            if spec_point_at(origin, direction, t2).ok() {
                                assert forall|i2: int|
                                    #[trigger] first_in_reach(
                                        *old(surface),
                                        spec_point_at(origin, direction, t2),
                                        old(ton).interaction_radius as int,
                                        i2,
                                    ) implies ({
                                    let f = old(surface).samples@[i2];
                                    {
                                        &&& ton.p_straight <= spec_deteriorate(
                                            old(ton).p_straight as int,
                                            f.delta_straight as int,
                                        )
                                        &&& ton.p_parabolic <= spec_deteriorate(
                                            old(ton).p_parabolic as int,
                                            f.delta_parabolic as int,
                                        )
                                        &&& ton.p_flow <= spec_deteriorate(
                                            old(ton).p_flow as int,
                                            f.delta_flow as int,
                                        )
                                    }
                                }) by {
                                    assert(ton_at_top.p_straight <= spec_deteriorate(
                                        old(ton).p_straight as int,
                                        old(surface).samples@[i2].delta_straight as int,
                                    ));
                                    assert(ton_at_top.p_parabolic <= spec_deteriorate(
                                        old(ton).p_parabolic as int,
                                        old(surface).samples@[i2].delta_parabolic as int,
                                    ));
                                    assert(ton_at_top.p_flow <= spec_deteriorate(
                                        old(ton).p_flow as int,
                                        old(surface).samples@[i2].delta_flow as int,
                                    ));
                                }
                            }
                        }
                        assert(first_strike_deteriorated(
                            *old(surface),
                            octree.triangles@,
                            origin,
                            direction,
                            old(ton).p_straight as int,
                            old(ton).p_parabolic as int,
                            old(ton).p_flow as int,
                            old(ton).interaction_radius as int,
                            ton.p_straight as int,
                            ton.p_parabolic as int,
                            ton.p_flow as int,
                        ));
                    }
                }
            }
            // within the bounce budget the updated probabilities pick
            // the next motion; once the budget is spent the particle
            // is forced into the settled state instead
            let budget_left = bounce + 1 < MAX_BOUNCES;
            if budget_left && rnd < ton.p_straight {
                // reflect into the hemisphere around the surfel normal
                let rv = Vec3 {
                    x: random_unit(rng),
                    y: random_unit(rng),
                    z: random_unit(rng),
                };
                let normal = surface.samples[first].normal;
                let (no, nd) = Self::reflect_step(normal, hp, rv);
                o = no;
                d = nd;
            } else if budget_left && rnd < ton.p_straight + ton.p_parabolic {
                // parabolic motion is a placeholder: the trace ends
                return Ghost(trace_points);
            } else if budget_left && rnd < ton.p_straight + ton.p_parabolic + ton.p_flow {
                let (no, nd) = Self::trace_flow_step(octree, tri_idx, hp, d);
                o = no;
                d = nd;
            } else {
                // settled (by draw, or forced by the spent budget):
                // deposit into every interacting surfel
                let ghost pre = *surface;
                Self::deposit_to_all(
                    surface,
                    &idxs,
                    ton,
                    ton_to_surface_interaction_weight,
                    Ghost(n),
                );
                proof {
                    lemma_frame_trans(*old(surface), pre, *surface);
                    assert forall|i: int|
                        0 <= i < old(surface).samples@.len() && (#[trigger] surface.samples@[i])
                            != old(surface).samples@[i] implies exists|pj: int|
                            0 <= pj < trace_points.len() && spec_dist2(
                                old(surface).samples@[i].position,
                                #[trigger] trace_points[pj],
                            ) < old(ton).interaction_radius * old(ton).interaction_radius by {
                        if surface.samples@[i] != pre.samples@[i] {
                            let iu: usize = i as usize;
                            assert(idxs@.contains(iu));
                            let m = choose|m: int| 0 <= m < idxs@.len() && idxs@[m] == iu;
                            assert(spec_dist2(
                                old(surface).samples@[idxs@[m] as int].position,
                                hp,
                            ) < old(ton).interaction_radius * old(ton).interaction_radius);
                            assert(trace_points[trace_points.len() - 1] == hp);
                        } else {
                            // changed at an earlier interaction; the
                            // log only grew since, so the earlier
                            // witness still stands
                            if exists|pj: int|
                                0 <= pj < points_at_top.len() && spec_dist2(
                                    old(surface).samples@[i].position,
                                    #[trigger] points_at_top[pj],
                                ) < old(ton).interaction_radius * old(ton).interaction_radius {
                                let pj = choose|pj: int|
                                    0 <= pj < points_at_top.len() && spec_dist2(
                                        old(surface).samples@[i].position,
                                        #[trigger] points_at_top[pj],
                                    ) < old(ton).interaction_radius * old(
                                        ton,
                                    ).interaction_radius;
                                assert(trace_points[pj] == points_at_top[pj]);
                            }
                        }
                    }
                    if bounce == 0 && origin.ok() && direction.ok() && motion_sum(*old(ton))
                        == 0 {
                        assert(pre.samples@ == old(surface).samples@);
                        assert(ton.substances@ == old(ton).substances@);
                        lemma_deposit_is_settle(
                            *old(surface),
                            *surface,
                            old(ton).substances@,
                            ton_to_surface_interaction_weight as int,
                            hp,
                            old(ton).interaction_radius as int,
                            idxs@,
                        );
                        assert forall|t2: int|
                            #[trigger] is_nearest_hit(
                                octree.triangles@,
                                origin,
                                direction,
                                t2,
                            ) implies ({
                            let hp2 = spec_point_at(origin, direction, t2);
                            (hp2.ok() && exists|i2: int|
                                #[trigger] in_reach(
                                    *old(surface),
                                    hp2,
                                    old(ton).interaction_radius as int,
                                    i2,
                                )) ==> settle_deposited(
                                *old(surface),
                                *surface,
                                old(ton).substances@,
                                ton_to_surface_interaction_weight as int,
                                hp2,
                                old(ton).interaction_radius as int,
                            )
                        }) by {
                            assert(t2 == t as int);
                        }
                        assert(exhausted_settles_at_first_strike(
                            *old(surface),
                            *surface,
                            octree.triangles@,
                            origin,
                            direction,
                            old(ton).substances@,
                            old(ton).interaction_radius as int,
                            ton_to_surface_interaction_weight as int,
                        ));
                    }
                }
                return Ghost(trace_points);
            }
            proof {
                if bounce == 0 {
                    // the branch taken keeps moving, so some motion
                    // probability was still positive
                    assert(motion_sum(*old(ton)) > 0);
                }
            }
            bounce = bounce + 1;
        }
        Ghost(trace_points)
    }

    /// One reflection step: a direction drawn uniformly in the unit
    /// cube is normalized, biased toward the surfel normal and
    /// normalized again; the new origin sits one fixed-point unit off
    /// the surface along the normal.
    pub fn reflect_step(normal: Vec3, hit_point: Vec3, rv: Vec3) -> (r: (Vec3, Vec3))
        requires
            crate::vec3::t3_bounded(normal.t3(), SCALE as int),
            hit_point.ok(),
            crate::vec3::t3_bounded(rv.t3(), SCALE as int),
        ensures
            r == spec_reflect_step(normal, hit_point, rv),
    {
        let outgoing = rv.normalized().add(normal).normalized();
        let new_origin = hit_point.add(normal.scale_fx(1));
        proof {
            assert(outgoing == spec_reflect_step(normal, hit_point, rv).1);
            assert(new_origin == spec_reflect_step(normal, hit_point, rv).0);
        }
        (new_origin, outgoing)
    }

    /// One flow step: the incoming direction is projected onto the
    /// hit triangle's tangent plane (falling back to an edge when the
    /// projection vanishes), pulled slightly downward along the
    /// negative normal, renormalized, and the origin lifted off the
    /// surface; straight tracing then continues with the biased ray.
    pub fn trace_flow_step(octree: &Octree, tri_idx: usize, hit_point: Vec3, incoming: Vec3) -> (r:
        (Vec3, Vec3))
        requires
            octree.wf(),
            tri_idx < octree.triangles@.len(),
            hit_point.ok(),
            incoming.ok(),
        ensures
            r == spec_flow_step(octree.triangles@[tri_idx as int], hit_point, incoming),
    {
        let tri = &octree.triangles[tri_idx];
        let normal = tri.normal();
        let new_origin = hit_point.add(normal.scale_fx(2_000));
        let incoming_unit = incoming.normalized();
        let projected = tri.project_onto_tangential_plane(incoming_unit);
        let flow_direction = if projected.is_zero() {
            // the incoming direction was orthogonal to the plane: use
            // an edge of the triangle as the flow direction
            tri.vertices[2].sub(tri.vertices[1]).normalized()
        } else {
            projected
        };
        let new_direction = flow_direction.sub(normal.scale_fx(10_000)).normalized();
        proof {
            let t = octree.triangles@[tri_idx as int];
            assert(new_origin == spec_flow_step(t, hit_point, incoming).0);
            assert(projected == t.spec_project_tangent(incoming.spec_normalized()));
            if projected == (Vec3 { x: 0, y: 0, z: 0 }) {
                assert(flow_direction == (Vec3 {
                    x: (t.v2().x - t.v1().x) as i64,
                    y: (t.v2().y - t.v1().y) as i64,
                    z: (t.v2().z - t.v1().z) as i64,
                }).spec_normalized());
            }
            assert(new_direction == spec_flow_step(t, hit_point, incoming).1);
        }
        (new_origin, new_direction)
    }

    /// The ton's stocks after picking up from the first `m` listed
    /// surfels in order: each step adds the weighted share of that
    /// surfel's prior stock per channel, saturating at the cap.
    pub open spec fn spec_pickup_fold(
        samples: Seq<Surfel>,
        idxs: Seq<usize>,
        stock: Seq<i64>,
        weight: int,
        m: int,
    ) -> Seq<i64>
        decreases m,
    {
        if m <= 0 {
            stock
        } else {
            let prev = Self::spec_pickup_fold(samples, idxs, stock, weight, m - 1);
            Seq::new(
                stock.len(),
                |ch: int|
                    min2(
                        prev[ch] + div_floor(
                            weight * samples[idxs[m - 1] as int].substances@[ch],
                            SCALE as int,
                        ),
                        SUB_CAP as int,
                    ) as i64,
            )
        }
    }

    /// Picks material up from every listed surfel, in order:
    /// deterioration has already happened, so each listed surfel
    /// hands the exact weighted share of its own prior stock to the
    /// ton, no other surfel changes, and the ton's probabilities are
    /// untouched while its stocks never shrink.
    pub fn pickup_from_all(
        surface: &mut Surface,
        idxs: &Vec<usize>,
        ton: &mut Ton,
        weight: i64,
        Ghost(n): Ghost<int>,
    )
        requires
            old(surface).wf(n),
            old(ton).wf(n),
            0 <= weight <= SCALE,
            forall|m: int|
                0 <= m < idxs@.len() ==> (#[trigger] idxs@[m]) < old(surface).samples@.len(),
            forall|m: int, m2: int| 0 <= m < m2 < idxs@.len() ==> idxs@[m] < idxs@[m2],
        ensures
            final(surface).wf(n),
            surfels_frame(*old(surface), *final(surface)),
            final(ton).wf(n),
            final(ton).p_straight == old(ton).p_straight,
            final(ton).p_parabolic == old(ton).p_parabolic,
            final(ton).p_flow == old(ton).p_flow,
            final(ton).interaction_radius == old(ton).interaction_radius,
            final(ton).substances@.len() == old(ton).substances@.len(),
            forall|ch: int|
                0 <= ch < n ==> old(ton).substances@[ch]
                    <= #[trigger] final(ton).substances@[ch] <= SUB_CAP,
            final(ton).substances@ == Self::spec_pickup_fold(
                old(surface).samples@,
                idxs@,
                old(ton).substances@,
                weight as int,
                idxs@.len() as int,
            ),
            forall|i: usize|
                i < old(surface).samples@.len() && !idxs@.contains(i)
                    ==> #[trigger] final(surface).samples@[i as int]
                        == old(surface).samples@[i as int],
            forall|m: int|
                0 <= m < idxs@.len() ==> {
                    let before = old(surface).samples@[#[trigger] idxs@[m] as int];
                    let after = final(surface).samples@[idxs@[m] as int];
                    forall|ch: int|
                        0 <= ch < n ==> #[trigger] after.substances@[ch] == before.substances@[ch]
                            - div_floor(weight * before.substances@[ch], SCALE as int)
                },
    {
        let mut q: usize = 0;
        while q < idxs.len()
            invariant
                q <= idxs@.len(),
                surface.samples@.len() == old(surface).samples@.len(),
                surface.wf(n),
                surfels_frame(*old(surface), *surface),
                ton.wf(n),
                ton.p_straight == old(ton).p_straight,
                ton.p_parabolic == old(ton).p_parabolic,
                ton.p_flow == old(ton).p_flow,
                ton.interaction_radius == old(ton).interaction_radius,
                ton.substances@.len() == old(ton).substances@.len(),
                0 <= weight <= SCALE,
                forall|ch: int|
                    0 <= ch < n ==> old(ton).substances@[ch] <= #[trigger] ton.substances@[ch]
                        <= SUB_CAP,
                ton.substances@ == Self::spec_pickup_fold(
                    old(surface).samples@,
                    idxs@,
                    old(ton).substances@,
                    weight as int,
                    q as int,
                ),
                forall|m: int|
                    0 <= m < idxs@.len() ==> (#[trigger] idxs@[m]) < old(surface).samples@.len(),
                forall|m: int, m2: int| 0 <= m < m2 < idxs@.len() ==> idxs@[m] < idxs@[m2],
                forall|i: usize|
                    i < old(surface).samples@.len() && !idxs@.contains(i)
                        ==> #[trigger] surface.samples@[i as int]
                            == old(surface).samples@[i as int],
                forall|m: int|
                    q <= m < idxs@.len() ==> #[trigger] surface.samples@[idxs@[m] as int] == old(
                        surface,
                    ).samples@[idxs@[m] as int],
                forall|m: int|
                    0 <= m < q ==> {
                        let before = old(surface).samples@[#[trigger] idxs@[m] as int];
                        let after = surface.samples@[idxs@[m] as int];
                        forall|ch: int|
                            0 <= ch < n ==> #[trigger] after.substances@[ch]
                                == before.substances@[ch] - div_floor(
                                weight * before.substances@[ch],
                                SCALE as int,
                            )
                    },
            decreases idxs@.len() - q,
        {
            let idx = idxs[q];
            let ghost pre_s = surface.samples@[idx as int];
            let ghost pre_t = ton.substances@;
            let ns = Self::transport_material_to_ton(&surface.samples[idx], ton, weight);
            surface.samples.set(idx, ns);
            proof {
                assert forall|ch: int| 0 <= ch < n implies pre_t[ch]
                    <= #[trigger] ton.substances@[ch] <= SUB_CAP by {
                    assert(ns.substances@[ch] == pre_s.substances@[ch] - div_floor(
                        weight * pre_s.substances@[ch],
                        SCALE as int,
                    ));
                    lemma_pickup_conserves_mass(
                        pre_s.substances@[ch] as int,
                        pre_t[ch] as int,
                        weight as int,
                    );
                }
                // the unprocessed surfel still held its original
                // stock, so this step is exactly the next fold step
                assert(pre_s == old(surface).samples@[idxs@[q as int] as int]);
                assert(ton.substances@ =~= Self::spec_pickup_fold(
                    old(surface).samples@,
                    idxs@,
                    old(ton).substances@,
                    weight as int,
                    q as int + 1,
                )) by {
                    assert forall|ch: int| 0 <= ch < n implies ton.substances@[ch]
                        == Self::spec_pickup_fold(
                        old(surface).samples@,
                        idxs@,
                        old(ton).substances@,
                        weight as int,
                        q as int + 1,
                    )[ch] by {
                        assert(ns.substances@[ch] == pre_s.substances@[ch] - div_floor(
                            weight * pre_s.substances@[ch],
                            SCALE as int,
                        ));
                    }
                }
            }
            q = q + 1;
        }
    }

    /// Deposits the settling ton's stock into every listed surfel:
    /// each listed surfel's channels grow by the weighted ton amount
    /// (saturating at the cap), no other surfel changes, and the ton
    /// itself is untouched — the final deposit is deliberately
    /// one-way.
    pub fn deposit_to_all(
        surface: &mut Surface,
        idxs: &Vec<usize>,
        ton: &Ton,
        weight: i64,
        Ghost(n): Ghost<int>,
    )
        requires
            old(surface).wf(n),
            ton.wf(n),
            0 <= weight <= SCALE,
            forall|m: int|
                0 <= m < idxs@.len() ==> (#[trigger] idxs@[m]) < old(surface).samples@.len(),
            forall|m: int, m2: int| 0 <= m < m2 < idxs@.len() ==> idxs@[m] < idxs@[m2],
        ensures
            final(surface).wf(n),
            surfels_frame(*old(surface), *final(surface)),
            forall|i: usize|
                i < old(surface).samples@.len() && !idxs@.contains(i)
                    ==> #[trigger] final(surface).samples@[i as int]
                        == old(surface).samples@[i as int],
            forall|m: int|
                0 <= m < idxs@.len() ==> {
                    let before = old(surface).samples@[#[trigger] idxs@[m] as int];
                    let after = final(surface).samples@[idxs@[m] as int];
                    forall|ch: int|
                        0 <= ch < n ==> #[trigger] after.substances@[ch] == min2(
                            before.substances@[ch] + div_floor(
                                weight * ton.substances@[ch],
                                SCALE as int,
                            ),
                            SUB_CAP as int,
                        )
                },
    {
        let mut q: usize = 0;
        while q < idxs.len()
            invariant
                q <= idxs@.len(),
                surface.samples@.len() == old(surface).samples@.len(),
                surface.wf(n),
                surfels_frame(*old(surface), *surface),
                ton.wf(n),
                0 <= weight <= SCALE,
                forall|m: int|
                    0 <= m < idxs@.len() ==> (#[trigger] idxs@[m]) < old(surface).samples@.len(),
                forall|m: int, m2: int| 0 <= m < m2 < idxs@.len() ==> idxs@[m] < idxs@[m2],
                forall|i: usize|
                    i < old(surface).samples@.len() && !idxs@.contains(i)
                        ==> #[trigger] surface.samples@[i as int]
                            == old(surface).samples@[i as int],
                forall|m: int|
                    q <= m < idxs@.len() ==> #[trigger] surface.samples@[idxs@[m] as int] == old(
                        surface,
                    ).samples@[idxs@[m] as int],
                forall|m: int|
                    0 <= m < q ==> {
                        let before = old(surface).samples@[#[trigger] idxs@[m] as int];
                        let after = surface.samples@[idxs@[m] as int];
                        forall|ch: int|
                            0 <= ch < n ==> #[trigger] after.substances@[ch] == min2(
                                before.substances@[ch] + div_floor(
                                    weight * ton.substances@[ch],
                                    SCALE as int,
                                ),
                                SUB_CAP as int,
                            )
                    },
            decreases idxs@.len() - q,
        {
            let idx = idxs[q];
            let ns = Self::transport_material_to_surf(ton, &surface.samples[idx], weight);
            surface.samples.set(idx, ns);
            q = q + 1;
        }
    }

    /// Settling deposit: every substance channel of the surfel grows
    /// by the weighted amount of the ton's stock (saturating at the
    /// cap); the ton keeps its own stock, so the final deposit is
    /// deliberately not mass-conserving.
    pub fn transport_material_to_surf(ton: &Ton, interacting_surfel: &Surfel, weight: i64) -> (r:
        Surfel)
        requires
            interacting_surfel.substances@.len() == ton.substances@.len(),
            interacting_surfel.wf(interacting_surfel.substances@.len() as int),
            forall|k: int|
                0 <= k < ton.substances@.len() ==> 0 <= #[trigger] ton.substances@[k] <= SUB_CAP,
            0 <= weight <= SCALE,
        ensures
            r.position == interacting_surfel.position,
            r.normal == interacting_surfel.normal,
            r.delta_straight == interacting_surfel.delta_straight,
            r.delta_parabolic == interacting_surfel.delta_parabolic,
            r.delta_flow == interacting_surfel.delta_flow,
            r.substances@.len() == interacting_surfel.substances@.len(),
            forall|ch: int|
                0 <= ch < r.substances@.len() ==> (#[trigger] r.substances@[ch]) == min2(
                    interacting_surfel.substances@[ch] + div_floor(
                        weight * ton.substances@[ch],
                        SCALE as int,
                    ),
                    SUB_CAP as int,
                ),
            r.wf(r.substances@.len() as int),
    {
        let mut subs: Vec<i64> = Vec::new();
        let mut ch: usize = 0;
        while ch < interacting_surfel.substances.len()
            invariant
                ch <= interacting_surfel.substances@.len(),
                interacting_surfel.substances@.len() == ton.substances@.len(),
                interacting_surfel.wf(interacting_surfel.substances@.len() as int),
                forall|k: int|
                    0 <= k < ton.substances@.len() ==> 0 <= #[trigger] ton.substances@[k]
                        <= SUB_CAP,
                0 <= weight <= SCALE,
                subs@.len() == ch,
                forall|k: int|
                    0 <= k < ch ==> (#[trigger] subs@[k]) == min2(
                        interacting_surfel.substances@[k] + div_floor(
                            weight * ton.substances@[k],
                            SCALE as int,
                        ),
                        SUB_CAP as int,
                    ),
                forall|k: int| 0 <= k < ch ==> 0 <= #[trigger] subs@[k] <= SUB_CAP,
            decreases interacting_surfel.substances@.len() - ch,
        {
            let s = interacting_surfel.substances[ch];
            let tn = ton.substances[ch];
            proof {
                lemma_mul_bound(weight as int, tn as int, 1_000_000, SUB_CAP as int);
                lemma_div_bound_by(weight * tn, SCALE as int, SUB_CAP as int);
                vstd::arithmetic::div_mod::lemma_div_pos_is_pos(weight * tn, SCALE as int);
                assert(weight * tn >= 0) by (nonlinear_arith)
                    requires
                        weight >= 0,
                        tn >= 0,
                ;
            }
            let amount = divi((weight as i128) * (tn as i128), SCALE as i128) as i64;
            let grown = s + amount;
            let capped = if grown > SUB_CAP {
                SUB_CAP
            } else {
                grown
            };
            subs.push(capped);
            ch = ch + 1;
        }
        Surfel {
            position: interacting_surfel.position,
            normal: interacting_surfel.normal,
            delta_straight: interacting_surfel.delta_straight,
            delta_parabolic: interacting_surfel.delta_parabolic,
            delta_flow: interacting_surfel.delta_flow,
            substances: subs,
        }
    }

    /// Pick-up transfer: per channel the amount `weight * stock` (one
    /// rounding) moves from the surfel to the ton, exactly, so that
    /// whenever the ton's side does not saturate, surfel plus ton
    /// hold the same total as before.
    pub fn transport_material_to_ton(interacting_surfel: &Surfel, ton: &mut Ton, weight: i64) -> (r:
        Surfel)
        requires
            interacting_surfel.substances@.len() == old(ton).substances@.len(),
            interacting_surfel.wf(interacting_surfel.substances@.len() as int),
            forall|k: int|
                0 <= k < old(ton).substances@.len() ==> 0 <= #[trigger] old(ton).substances@[k]
                    <= SUB_CAP,
            0 <= weight <= SCALE,
        ensures
            r.position == interacting_surfel.position,
            r.normal == interacting_surfel.normal,
            r.delta_straight == interacting_surfel.delta_straight,
            r.delta_parabolic == interacting_surfel.delta_parabolic,
            r.delta_flow == interacting_surfel.delta_flow,
            r.substances@.len() == interacting_surfel.substances@.len(),
            final(ton).substances@.len() == old(ton).substances@.len(),
            final(ton).p_straight == old(ton).p_straight,
            final(ton).p_parabolic == old(ton).p_parabolic,
            final(ton).p_flow == old(ton).p_flow,
            final(ton).interaction_radius == old(ton).interaction_radius,
            forall|ch: int|
                0 <= ch < r.substances@.len() ==> {
                    let amount = div_floor(
                        weight * interacting_surfel.substances@[ch],
                        SCALE as int,
                    );
                    {
                        &&& (#[trigger] r.substances@[ch]) == interacting_surfel.substances@[ch]
                            - amount
                        &&& final(ton).substances@[ch] == min2(
                            old(ton).substances@[ch] + amount,
                            SUB_CAP as int,
                        )
                        &&& (old(ton).substances@[ch] + amount <= SUB_CAP ==> r.substances@[ch]
                            + final(ton).substances@[ch] == interacting_surfel.substances@[ch]
                            + old(ton).substances@[ch])
                    }
                },
            r.wf(r.substances@.len() as int),
            forall|k: int|
                0 <= k < final(ton).substances@.len()
                    ==> 0 <= #[trigger] final(ton).substances@[k] <= SUB_CAP,
    {
        let mut subs: Vec<i64> = Vec::new();
        let mut tsubs: Vec<i64> = Vec::new();
        let mut ch: usize = 0;
        while ch < interacting_surfel.substances.len()
            invariant
                ch <= interacting_surfel.substances@.len(),
                interacting_surfel.substances@.len() == old(ton).substances@.len(),
                ton.substances@ == old(ton).substances@,
                ton.p_straight == old(ton).p_straight,
                ton.p_parabolic == old(ton).p_parabolic,
                ton.p_flow == old(ton).p_flow,
                ton.interaction_radius == old(ton).interaction_radius,
                interacting_surfel.wf(interacting_surfel.substances@.len() as int),
                forall|k: int|
                    0 <= k < old(ton).substances@.len() ==> 0 <= #[trigger] old(
                        ton,
                    ).substances@[k] <= SUB_CAP,
                0 <= weight <= SCALE,
                subs@.len() == ch,
                tsubs@.len() == ch,
                forall|k: int|
                    0 <= k < ch ==> {
                        let amount = div_floor(
                            weight * interacting_surfel.substances@[k],
                            SCALE as int,
                        );
                        {
                            &&& (#[trigger] subs@[k]) == interacting_surfel.substances@[k]
                                - amount
                            &&& tsubs@[k] == min2(
                                old(ton).substances@[k] + amount,
                                SUB_CAP as int,
                            )
                        }
                    },
                forall|k: int| 0 <= k < ch ==> 0 <= #[trigger] subs@[k] <= SUB_CAP,
                forall|k: int| 0 <= k < ch ==> 0 <= #[trigger] tsubs@[k] <= SUB_CAP,
            decreases interacting_surfel.substances@.len() - ch,
        {
            let s = interacting_surfel.substances[ch];
            let tn = ton.substances[ch];
            proof {
                lemma_mul_bound(weight as int, s as int, 1_000_000, SUB_CAP as int);
                assert(weight * s >= 0) by (nonlinear_arith)
                    requires
                        weight >= 0,
                        s >= 0,
                ;
                assert(weight * s <= 1_000_000 * s) by (nonlinear_arith)
                    requires
                        weight <= 1_000_000,
                        s >= 0,
                ;
                lemma_div_bound_by(weight * s, SCALE as int, s as int);
                vstd::arithmetic::div_mod::lemma_div_pos_is_pos(weight * s, SCALE as int);
            }
            let amount = divi((weight as i128) * (s as i128), SCALE as i128) as i64;
            subs.push(s - amount);
            let grown = tn + amount;
            let capped = if grown > SUB_CAP {
                SUB_CAP
            } else {
                grown
            };
            tsubs.push(capped);
            ch = ch + 1;
        }
        ton.substances = tsubs;
        Surfel {
            position: interacting_surfel.position,
            normal: interacting_surfel.normal,
            delta_straight: interacting_surfel.delta_straight,
            delta_parabolic: interacting_surfel.delta_parabolic,
            delta_flow: interacting_surfel.delta_flow,
            substances: subs,
        }
    }

    /// One deterioration step per motion probability: each drops by
    /// the surfel's rate for it, floored at zero, and nothing else of
    /// the ton changes.
    pub fn deteriorate_motion_probabilities(ton: &mut Ton, surfel: &Surfel)
        requires
            0 <= old(ton).p_straight <= SCALE,
            0 <= old(ton).p_parabolic <= SCALE,
            0 <= old(ton).p_flow <= SCALE,
            0 <= surfel.delta_straight <= DELTA_CAP,
            0 <= surfel.delta_parabolic <= DELTA_CAP,
            0 <= surfel.delta_flow <= DELTA_CAP,
        ensures
            final(ton).p_straight == spec_deteriorate(
                old(ton).p_straight as int,
                surfel.delta_straight as int,
            ),
            final(ton).p_parabolic == spec_deteriorate(
                old(ton).p_parabolic as int,
                surfel.delta_parabolic as int,
            ),
            final(ton).p_flow == spec_deteriorate(old(ton).p_flow as int, surfel.delta_flow as int),
            final(ton).p_straight <= old(ton).p_straight,
            final(ton).p_parabolic <= old(ton).p_parabolic,
            final(ton).p_flow <= old(ton).p_flow,
            final(ton).substances == old(ton).substances,
            final(ton).interaction_radius == old(ton).interaction_radius,
    {
        let ps = ton.p_straight - surfel.delta_straight;
        ton.p_straight = if ps < 0 {
            0
        } else {
            ps
        };
        let pp = ton.p_parabolic - surfel.delta_parabolic;
        ton.p_parabolic = if pp < 0 {
            0
        } else {
            pp
        };
        let pf = ton.p_flow - surfel.delta_flow;
        ton.p_flow = if pf < 0 {
            0
        } else {
            pf
        };
    }
}

/// The head of the sphere query's index list is the one first-in-
/// reach index: the list is sound, sorted and complete, so whatever
/// satisfies [`first_in_reach`] is its first element.
proof fn lemma_first_in_reach_is_head(s: Surface, hp: Vec3, radius: int, idxs: Seq<usize>)
    requires
        s.samples@.len() <= usize::MAX,
        forall|m: int|
            0 <= m < idxs.len() ==> (#[trigger] idxs[m]) < s.samples@.len() && spec_dist2(
                s.samples@[idxs[m] as int].position,
                hp,
            ) < radius * radius,
        forall|m: int, m2: int| 0 <= m < m2 < idxs.len() ==> idxs[m] < idxs[m2],
        forall|i: usize|
            i < s.samples@.len() && spec_dist2((#[trigger] s.samples@[i as int]).position, hp)
                < radius * radius ==> idxs.contains(i),
        idxs.len() > 0,
    ensures
        forall|i: int| #[trigger] first_in_reach(s, hp, radius, i) ==> i == idxs[0] as int,
{
    assert forall|i: int| #[trigger] first_in_reach(s, hp, radius, i) implies i == idxs[0] as int by {
        assert(in_reach(s, hp, radius, i));
        let iu: usize = i as usize;
        assert(spec_dist2(s.samples@[iu as int].position, hp) < radius * radius);
        assert(idxs.contains(iu));
        let m = choose|m: int| 0 <= m < idxs.len() && idxs[m] == iu;
        assert(in_reach(s, hp, radius, idxs[0] as int));
        if m > 0 {
            assert(idxs[0] < idxs[m]);
        }
        if (idxs[0] as int) < i {
            assert(!in_reach(s, hp, radius, idxs[0] as int));
        }
    }
}

/// A sound, sorted and complete index list that received the deposit
/// of [`Simulation::deposit_to_all`] is exactly a settle deposit.
proof fn lemma_deposit_is_settle(
    s0: Surface,
    s1: Surface,
    stock: Seq<i64>,
    weight: int,
    hp: Vec3,
    radius: int,
    idxs: Seq<usize>,
)
    requires
        s0.samples@.len() <= usize::MAX,
        s1.samples@.len() == s0.samples@.len(),
        forall|m: int|
            0 <= m < idxs.len() ==> (#[trigger] idxs[m]) < s0.samples@.len() && spec_dist2(
                s0.samples@[idxs[m] as int].position,
                hp,
            ) < radius * radius,
        forall|i: usize|
            i < s0.samples@.len() && spec_dist2((#[trigger] s0.samples@[i as int]).position, hp)
                < radius * radius ==> idxs.contains(i),
        forall|i: usize|
            i < s0.samples@.len() && !idxs.contains(i) ==> #[trigger] s1.samples@[i as int]
                == s0.samples@[i as int],
        forall|m: int|
            0 <= m < idxs.len() ==> {
                let before = s0.samples@[#[trigger] idxs[m] as int];
                let after = s1.samples@[idxs[m] as int];
                after.substances@.len() == before.substances@.len() && forall|ch: int|
                    0 <= ch < before.substances@.len() ==> #[trigger] after.substances@[ch]
                        == min2(
                        before.substances@[ch] + div_floor(weight * stock[ch], SCALE as int),
                        SUB_CAP as int,
                    )
            },
    ensures
        settle_deposited(s0, s1, stock, weight, hp, radius),
{
    assert forall|i: int| 0 <= i < s0.samples@.len() implies ({
        let a = s0.samples@[i];
        let b = #[trigger] s1.samples@[i];
        if spec_dist2(a.position, hp) < radius * radius {
            b.substances@.len() == a.substances@.len() && forall|ch: int|
                0 <= ch < a.substances@.len() ==> #[trigger] b.substances@[ch] == min2(
                    a.substances@[ch] + div_floor(weight * stock[ch], SCALE as int),
                    SUB_CAP as int,
                )
        } else {
            b == a
        }
    }) by {
        let iu: usize = i as usize;
        if spec_dist2(s0.samples@[i].position, hp) < radius * radius {
            assert(idxs.contains(iu));
            let m = choose|m: int| 0 <= m < idxs.len() && idxs[m] == iu;
        } else {
            if idxs.contains(iu) {
                let m = choose|m: int| 0 <= m < idxs.len() && idxs[m] == iu;
                assert(spec_dist2(s0.samples@[i].position, hp) < radius * radius);
            }
            assert(s1.samples@[i] == s0.samples@[i]);
        }
    }
}

/// If the query returned a hit, its parameter is the one value that
/// [`is_nearest_hit`] admits, and the ray does not miss everything.
proof fn lemma_nearest_hit_is_query_param(
    tris: Seq<Triangle>,
    o: Vec3,
    d: Vec3,
    j: usize,
    tq: i64,
)
    requires
        j < tris.len(),
        tris[j as int].spec_ray_hit(o, d) == Some(tq as int),
        forall|i: usize|
            i < tris.len() && (#[trigger] tris[i as int].spec_ray_hit(o, d)) is Some ==> tq as int
                <= tris[i as int].spec_ray_hit(o, d)->Some_0,
    ensures
        !ray_misses_all(tris, o, d),
        is_nearest_hit(tris, o, d, tq as int),
        forall|t: int| #[trigger] is_nearest_hit(tris, o, d, t) ==> t == tq as int,
{
    assert(!ray_misses_all(tris, o, d)) by {
        assert(tris[j as int].spec_ray_hit(o, d) is Some);
    }
    assert(is_nearest_hit(tris, o, d, tq as int)) by {
        assert(tris[j as int].spec_ray_hit(o, d) == Some(tq as int));
    }
    assert forall|t: int| #[trigger] is_nearest_hit(tris, o, d, t) implies t == tq as int by {
        let w = choose|i: usize|
            i < tris.len() && (#[trigger] tris[i as int].spec_ray_hit(o, d)) == Some(t);
        assert(tq as int <= t);
        assert(t <= tris[j as int].spec_ray_hit(o, d)->Some_0);
    }
}

/// One flow step as a mathematical function of the hit triangle, hit
/// point and incoming direction: the origin lifted off the surface by
/// `0.002` along the unit normal, and the normalized incoming
/// direction projected onto the tangent plane (one triangle edge when
/// the projection vanishes), pulled down by `0.01` along the negative
/// normal and renormalized.
pub open spec fn spec_flow_step(t: Triangle, hit_point: Vec3, incoming: Vec3) -> (Vec3, Vec3) {
    let n = t.spec_normal();
    let new_origin = Vec3 {
        x: (hit_point.x + div_floor(n.x * 2_000, SCALE as int)) as i64,
        y: (hit_point.y + div_floor(n.y * 2_000, SCALE as int)) as i64,
        z: (hit_point.z + div_floor(n.z * 2_000, SCALE as int)) as i64,
    };
    let projected = t.spec_project_tangent(incoming.spec_normalized());
    let flow_direction = if projected == (Vec3 { x: 0, y: 0, z: 0 }) {
        (Vec3 {
            x: (t.v2().x - t.v1().x) as i64,
            y: (t.v2().y - t.v1().y) as i64,
            z: (t.v2().z - t.v1().z) as i64,
        }).spec_normalized()
    } else {
        projected
    };
    let pulled = Vec3 {
        x: (flow_direction.x - div_floor(n.x * 10_000, SCALE as int)) as i64,
        y: (flow_direction.y - div_floor(n.y * 10_000, SCALE as int)) as i64,
        z: (flow_direction.z - div_floor(n.z * 10_000, SCALE as int)) as i64,
    };
    (new_origin, pulled.spec_normalized())
}

/// One reflection step as a mathematical function of the surfel
/// normal, the hit point and the three cube draws: the draw vector is
/// normalized, biased by adding the normal, and normalized again for
/// the outgoing direction, while the origin is lifted off the surface
/// by one fixed-point unit along the normal.
pub open spec fn spec_reflect_step(normal: Vec3, hit_point: Vec3, rv: Vec3) -> (Vec3, Vec3) {
    let unit = rv.spec_normalized();
    let outgoing = (Vec3 {
        x: (unit.x + normal.x) as i64,
        y: (unit.y + normal.y) as i64,
        z: (unit.z + normal.z) as i64,
    }).spec_normalized();
    let new_origin = Vec3 {
        x: (hit_point.x + div_floor(normal.x * 1, SCALE as int)) as i64,
        y: (hit_point.y + div_floor(normal.y * 1, SCALE as int)) as i64,
        z: (hit_point.z + div_floor(normal.z * 1, SCALE as int)) as i64,
    };
    (new_origin, outgoing)
}

/// Picking material up conserves mass exactly: for any surfel stock
/// `s`, ton stock `t` and weight `w`, the transferred amount
/// `floor(w * s / SCALE)` leaves surfel plus ton unchanged as long as
/// the ton side does not saturate, and the surfel never goes
/// negative.
pub proof fn lemma_pickup_conserves_mass(s: int, t: int, w: int)
    requires
        0 <= s <= SUB_CAP,
        0 <= t <= SUB_CAP,
        0 <= w <= SCALE,
    ensures
        ({
            let amount = div_floor(w * s, SCALE as int);
            {
                &&& 0 <= amount <= s
                &&& (s - amount) + (t + amount) == s + t
            }
        }),
{
    lemma_mul_bound(w, s, 1_000_000, SUB_CAP as int);
    assert(w * s >= 0) by (nonlinear_arith)
        requires
            w >= 0,
            s >= 0,
    ;
    assert(w * s <= 1_000_000 * s) by (nonlinear_arith)
        requires
            w <= 1_000_000,
            s >= 0,
    ;
    lemma_div_bound_by(w * s, SCALE as int, s);
    vstd::arithmetic::div_mod::lemma_div_pos_is_pos(w * s, SCALE as int);
}

/// Deterioration never drives a probability below zero and never
/// raises it: one step takes `p` to `max(p - delta, 0)`.
pub proof fn lemma_deterioration_floors_at_zero(p: int, delta: int)
    requires
        0 <= p,
        0 <= delta,
    ensures
        0 <= spec_deteriorate(p, delta) <= p,
        delta >= p ==> spec_deteriorate(p, delta) == 0,
{
}

} // verus!
