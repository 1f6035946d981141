use aitios::octree::Octree;
use aitios::sim::{Simulation, Ton, TonSource};
use aitios::surf::{Surface, Surfel};
use aitios::tri::Triangle;
use aitios::vec3::Vec3;

const S: i64 = 1_000_000;

fn v3(x: i64, y: i64, z: i64) -> Vec3 {
    Vec3 { x, y, z }
}

fn plain_surfel(position: Vec3, delta_straight: i64, substances: Vec<i64>) -> Surfel {
    Surfel {
        position,
        normal: v3(0, 0, S),
        delta_straight,
        delta_parabolic: 0,
        delta_flow: 0,
        substances,
    }
}

#[test]
fn deterioration_floors_at_zero() {
    // p_straight = 1.0, delta_straight = 1.5: one step gives 0.0
    let mut ton = Ton {
        p_straight: S,
        p_parabolic: 0,
        p_flow: 0,
        interaction_radius: S / 10,
        substances: vec![0],
    };
    let surfel = plain_surfel(v3(0, 0, 0), 1_500_000, vec![0]);
    Simulation::deteriorate_motion_probabilities(&mut ton, &surfel);
    assert_eq!(ton.p_straight, 0);
    assert_eq!(ton.p_parabolic, 0);
    assert_eq!(ton.p_flow, 0);
}

#[test]
fn material_transfer_to_particle_conserves_mass() {
    // surfel stock 0.4, weight 0.2: surfel keeps 0.32, particle gains 0.08
    let surfel = plain_surfel(v3(0, 0, 0), 0, vec![400_000]);
    let mut ton = Ton {
        p_straight: S,
        p_parabolic: 0,
        p_flow: 0,
        interaction_radius: S / 10,
        substances: vec![0],
    };
    let after = Simulation::transport_material_to_ton(&surfel, &mut ton, 200_000);
    assert_eq!(after.substances[0], 320_000);
    assert_eq!(ton.substances[0], 80_000);
    assert_eq!(after.substances[0] + ton.substances[0], 400_000);
}

#[test]
fn settling_deposit_leaves_particle_stock_untouched() {
    let surfel = plain_surfel(v3(0, 0, 0), 0, vec![100_000]);
    let ton = Ton {
        p_straight: 0,
        p_parabolic: 0,
        p_flow: 0,
        interaction_radius: S / 10,
        substances: vec![S],
    };
    let after = Simulation::transport_material_to_surf(&ton, &surfel, 200_000);
    assert_eq!(after.substances[0], 300_000);
    assert_eq!(ton.substances[0], S);
}

#[test]
fn nearest_hit_tiebreak_prefers_smaller_parameter() {
    let far = Triangle::new(v3(-S, -S, 100 * S), v3(S, -S, 100 * S), v3(0, S, 100 * S));
    let near = Triangle::new(v3(-S, -S, 50 * S), v3(S, -S, 50 * S), v3(0, S, 50 * S));
    let octree = Octree::build(vec![far, near]);
    let (idx, t) = octree
        .ray_intersection_target_and_parameter(v3(0, 0, 0), v3(0, 0, S))
        .unwrap();
    assert_eq!(idx, 1);
    assert_eq!(t, 50 * S);
}

#[test]
fn empty_octree_yields_no_hit() {
    let octree = Octree::build(vec![]);
    assert_eq!(
        octree.ray_intersection_target_and_parameter(v3(0, 0, 0), v3(0, 0, S)),
        None
    );
}

#[test]
fn within_sphere_returns_exactly_the_near_surfels() {
    let points = vec![v3(0, 0, 0), v3(S, 0, 0), v3(0, S / 100, 0), v3(0, 0, -3 * S)];
    let surface = Surface::from_points(&points, 0, 0, 0, &vec![0]);
    let idxs = surface.find_within_sphere_indexes(v3(0, 0, 0), S / 10);
    assert_eq!(idxs, vec![0, 2]);
}

#[test]
fn random_bary_weights_sum_to_one() {
    let mut rng = rand::thread_rng();
    for _ in 0..100 {
        let w = aitios::tri::random_bary(&mut rng);
        assert_eq!(w[0] + w[1] + w[2], S);
        assert!(w.iter().all(|&c| (0..=S).contains(&c)));
    }
}

#[test]
fn surface_sampling_tags_surfels_with_initial_state() {
    let mut rng = rand::thread_rng();
    // one triangle of area 2.0 in the plane z = 0
    let positions: Vec<i64> = vec![-S, -S, 0, S, -S, 0, 0, S, 0];
    let indices: Vec<u32> = vec![0, 1, 2];
    let surface = Surface::from_triangles(
        &positions,
        &indices,
        100,
        250_000,
        0,
        0,
        &vec![70_000, 30_000],
        &mut rng,
    );
    // ceil(100 * 2.0) = 200 points drawn inside the triangle
    assert_eq!(surface.samples.len(), 200);
    for s in &surface.samples {
        assert_eq!(s.delta_straight, 250_000);
        assert_eq!(s.substances, vec![70_000, 30_000]);
        assert_eq!(s.normal, v3(0, 0, S));
        assert_eq!(s.position.z, 0);
    }
}

#[test]
fn single_particle_deposits_at_the_aimed_surfel() {
    // a two-triangle plane at z = 10, one surfel at the aimed point
    let t1 = Triangle::new(
        v3(-2 * S, -2 * S, 10 * S),
        v3(2 * S, -2 * S, 10 * S),
        v3(2 * S, 2 * S, 10 * S),
    );
    let t2 = Triangle::new(
        v3(-2 * S, -2 * S, 10 * S),
        v3(2 * S, 2 * S, 10 * S),
        v3(-2 * S, 2 * S, 10 * S),
    );
    let surface = Surface::from_points(&vec![v3(0, -S, 10 * S)], S, 0, 0, &vec![0]);
    let source = TonSource {
        emission_count: 1,
        origin: v3(0, -S, 0),
        direction: v3(0, 0, S),
        p_straight: S,
        p_parabolic: 0,
        p_flow: 0,
        interaction_radius: S / 10,
        substances: vec![S],
    };
    let mut sim = Simulation::new(vec![t1, t2], surface, 200_000, 1, vec![source]);
    let mut rng = rand::thread_rng();
    sim.run(&mut rng);

    // the particle deteriorates to p_straight = 0 at its first hit and
    // settles there, depositing weight * stock = 0.2 into the surfel
    assert_eq!(sim.surface.samples[0].substances[0], 200_000);

    // the hit map holds exactly that surfel
    let hits = sim.surface.hit_map_indexes();
    assert_eq!(hits, vec![0]);
    let positions = sim.surface.positions();
    assert_eq!(positions[hits[0]], v3(0, -S, 10 * S));

    // the deposit is deliberately one-way: the ton kept its stock, so
    // surface gained without the source side being decremented
}

#[test]
fn no_deposit_leaves_hit_map_empty() {
    let surface = Surface::from_points(&vec![v3(0, 0, 0)], 0, 0, 0, &vec![0]);
    assert_eq!(surface.hit_map_indexes(), Vec::<usize>::new());
}

#[test]
fn sample_count_is_ceiling_of_density_times_area() {
    let mut rng = rand::thread_rng();
    // right triangle of area 0.5: a density of 3 per square unit
    // gives ceil(1.5) = 2 surfels
    let positions: Vec<i64> = vec![0, 0, 0, S, 0, 0, 0, S, 0];
    let indices: Vec<u32> = vec![0, 1, 2];
    let surface = Surface::from_triangles(&positions, &indices, 3, 0, 0, 0, &vec![0], &mut rng);
    assert_eq!(surface.samples.len(), 2);
}

#[test]
fn reflect_step_lifts_origin_and_biases_direction() {
    let normal = v3(0, 0, S);
    let hit = v3(0, 0, 0);
    // a draw pointing straight up folds onto the normal itself
    let (origin, direction) = Simulation::reflect_step(normal, hit, v3(0, 0, S / 2));
    assert_eq!(origin, v3(0, 0, 1));
    assert_eq!(direction, v3(0, 0, S));
}

#[test]
fn flow_step_runs_along_the_plane_with_downward_pull() {
    // a flat plane with the up normal
    let tri = Triangle::new(v3(-2 * S, -2 * S, 0), v3(2 * S, -2 * S, 0), v3(0, 2 * S, 0));
    let octree = Octree::build(vec![tri]);
    let hit = v3(0, 0, 0);
    let (origin, direction) = Simulation::trace_flow_step(&octree, 0, hit, v3(S, 0, -S));
    // lifted 0.002 off the surface along the normal
    assert_eq!(origin, v3(0, 0, 2_000));
    // the direction flows along +x with a slight downward component
    assert!(direction.x > 900_000);
    assert!(direction.z < 0);
    assert_eq!(direction.y, 0);
}

#[test]
fn exhausted_particle_settles_at_its_first_strike() {
    // a particle with no motion probability left must deposit at its
    // first hit, whatever the random draws
    let tri = Triangle::new(
        v3(-2 * S, -2 * S, 5 * S),
        v3(2 * S, -2 * S, 5 * S),
        v3(0, 2 * S, 5 * S),
    );
    let surface = Surface::from_points(&vec![v3(0, 0, 5 * S)], 0, 0, 0, &vec![0]);
    let source = TonSource {
        emission_count: 1,
        origin: v3(0, 0, 0),
        direction: v3(0, 0, S),
        p_straight: 0,
        p_parabolic: 0,
        p_flow: 0,
        interaction_radius: S / 10,
        substances: vec![S],
    };
    let mut sim = Simulation::new(vec![tri], surface, 500_000, 1, vec![source]);
    let mut rng = rand::thread_rng();
    sim.run(&mut rng);
    assert_eq!(sim.surface.samples[0].substances[0], 500_000);
    assert_eq!(sim.surface.hit_map_indexes(), vec![0]);
}
