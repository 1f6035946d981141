use aitios::aabb::Aabb;
use aitios::tri::Triangle;
use aitios::vec3::Vec3;

const S: i64 = 1_000_000;

fn v3(x: i64, y: i64, z: i64) -> Vec3 {
    Vec3 { x, y, z }
}

#[test]
fn intersect_ray_with_tri() {
    let ray_origin = v3(0, 0, 0);
    let ray_direction = v3(0, 0, S);

    let vertex0 = v3(-S, -S, 100 * S);
    let vertex1 = v3(S, -S, 100 * S);
    let vertex2 = v3(0, S, 200 * S);

    let tri = Triangle::new(vertex0, vertex1, vertex2);

    assert!(tri.ray_intersection_parameter(ray_origin, ray_direction).unwrap() > 0);
    assert_eq!(
        tri.ray_intersection_point(ray_origin, ray_direction),
        Some(v3(0, 0, 150 * S))
    );
}

#[test]
fn intersect_ray_with_tri_and_miss() {
    let ray_origin = v3(0, 0, 0);
    let ray_direction = v3(0, 0, -S);

    let vertex0 = v3(-S, -S, 100 * S);
    let vertex1 = v3(S, -S, 100 * S);
    let vertex2 = v3(0, S, 200 * S);

    let tri = Triangle::new(vertex0, vertex1, vertex2);

    assert_eq!(tri.ray_intersection_parameter(ray_origin, ray_direction), None);
    assert_eq!(tri.ray_intersection_point(ray_origin, ray_direction), None);
}

#[test]
fn interpolate_position() {
    let vertex0 = v3(-S, -S, 0);
    let vertex1 = v3(S, -S, 0);
    let vertex2 = v3(0, S, 0);
    let tri = Triangle::new(vertex0, vertex1, vertex2);

    let point_on_there = v3(0, S / 2, 0);

    assert_eq!(
        point_on_there,
        tri.interpolate_at(point_on_there),
        "Interpolating the position value should yield the same point"
    );
}

#[test]
fn test_splitting_at_edge_midpoints() {
    // A triangle around the origin
    let tri = Triangle::new(v3(-S, -S, 0), v3(S, -S, 0), v3(0, S, 0));

    let triangles = tri.split_at_edge_midpoints();
    assert_eq!(4, triangles.len());

    // Three triangles should contain each edge midpoint as a vertex
    assert_eq!(
        3,
        triangles
            .iter()
            .filter(|t| t.vertices.iter().any(|v| v.x == -S / 2 && v.y == 0))
            .count()
    );

    assert_eq!(
        3,
        triangles
            .iter()
            .filter(|t| t.vertices.iter().any(|v| v.x == S / 2 && v.y == 0))
            .count()
    );

    assert_eq!(
        3,
        triangles
            .iter()
            .filter(|t| t.vertices.iter().any(|v| v.x == 0 && v.y == -S))
            .count()
    );

    let subdivided_tris_area_sum: i64 = triangles.iter().map(Triangle::area).sum();
    let source_tri_area = tri.area();
    // (width * height) / 2, given width = 2, height = 2
    assert_eq!(source_tri_area, 2 * S);
    assert_eq!(subdivided_tris_area_sum, source_tri_area);
}

#[test]
fn empty_point_and_box_folds_yield_identity() {
    let no_points: Vec<Vec3> = vec![];
    let b = Aabb::from_points(&no_points);
    assert_eq!(b.min, v3(i64::MAX, i64::MAX, i64::MAX));
    assert_eq!(b.max, v3(i64::MIN, i64::MIN, i64::MIN));

    let no_boxes: Vec<Aabb> = vec![];
    let u = Aabb::union(&no_boxes);
    assert_eq!(u.min, v3(i64::MAX, i64::MAX, i64::MAX));
    assert_eq!(u.max, v3(i64::MIN, i64::MIN, i64::MIN));
}

#[test]
fn empty_box_absorbs_under_union() {
    let b = Aabb {
        min: v3(-S, -2 * S, 0),
        max: v3(S, 3 * S, 4 * S),
    };
    let folded = Aabb::union(&vec![Aabb::empty(), b]);
    assert_eq!(folded.min, b.min);
    assert_eq!(folded.max, b.max);
}

#[test]
fn bounds_enclose_vertices() {
    let tri = Triangle::new(v3(-S, 0, 2 * S), v3(S, -S, 0), v3(0, S, S));
    let b = tri.bounds();
    assert_eq!(b.min, v3(-S, -S, 0));
    assert_eq!(b.max, v3(S, S, 2 * S));
}

#[test]
fn center_is_vertex_average() {
    let tri = Triangle::new(v3(0, 0, 0), v3(3 * S, 0, 0), v3(0, 3 * S, 0));
    assert_eq!(tri.center(), v3(S, S, 0));
}

#[test]
fn barycentric_weights_of_interior_point() {
    let tri = Triangle::new(v3(-S, -S, 0), v3(S, -S, 0), v3(0, S, 0));
    let w = tri.barycentric_at(v3(0, S / 2, 0));
    assert_eq!(w, [125_000, 125_000, 750_000]);
}

#[test]
fn circumcenter_of_right_triangle() {
    let tri = Triangle::new(v3(0, 0, 0), v3(2 * S, 0, 0), v3(0, 2 * S, 0));
    assert_eq!(tri.circumcenter(), v3(S, S, 0));
}

#[test]
fn minimum_bounding_sphere_of_right_triangle() {
    let tri = Triangle::new(v3(0, 0, 0), v3(2 * S, 0, 0), v3(0, 2 * S, 0));
    let (center, radius_sqr) = tri.minimum_bounding_sphere_sqr();
    assert_eq!(center, v3(S, S, 0));
    assert_eq!(radius_sqr, 2 * (S as i128) * (S as i128));
    let (center2, radius) = tri.minimum_bounding_sphere();
    assert_eq!(center2, center);
    assert_eq!(radius, 1_414_213);
    assert_eq!(tri.minimum_bounding_sphere_center(), center);
}

#[test]
fn normal_of_flat_triangle_points_up() {
    let tri = Triangle::new(v3(-S, -S, 0), v3(S, -S, 0), v3(0, S, 0));
    assert_eq!(tri.normal(), v3(0, 0, S));
}

#[test]
fn is_inside_sphere_distinguishes() {
    let tri = Triangle::new(v3(0, 0, 0), v3(S, 0, 0), v3(0, S, 0));
    assert!(tri.is_inside_sphere(v3(0, 0, 0), 2 * S));
    assert!(!tri.is_inside_sphere(v3(0, 0, 0), S / 2));
}

#[test]
fn magnitude_of_pythagorean_vector() {
    let v = v3(3 * S, 4 * S, 0);
    assert_eq!(v.magnitude(), 5 * S);
    assert_eq!(v.normalized(), v3(600_000, 800_000, 0));
}
