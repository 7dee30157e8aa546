//! Rays, sphere intersection and the camera projection, on concrete scenes.

use raymath::{Camera, Intersection, Radians, Ray, Sphere, Vector, SCALE};

// pi/2 in fixed-point radians
const HALF_PI: i64 = 1_570_796_327;

fn v(x: i64, y: i64, z: i64) -> Vector {
    Vector { x, y, z }
}

#[test]
fn ray_forwarded_moves_origin_only() {
    let ray = Ray { pos: v(SCALE, 2 * SCALE, 3 * SCALE), dir: v(0, 0, SCALE) };
    let moved = ray.forwarded(2 * SCALE);
    assert!(moved.pos.almost_equal(&v(SCALE, 2 * SCALE, 5 * SCALE)));
    assert!(moved.dir.almost_equal(&ray.dir));
}

#[test]
fn ray_almost_equal_compares_both_parts() {
    let a = Ray { pos: v(0, 0, 0), dir: v(0, 0, SCALE) };
    let b = Ray { pos: v(0, 50, 0), dir: v(0, 0, SCALE + 50) };
    let c = Ray { pos: v(0, 0, 0), dir: v(0, SCALE, 0) };
    assert!(a.almost_equal(&b));
    assert!(!a.almost_equal(&c));
}

#[test]
fn sphere_hit_straight_ahead() {
    // sphere at (0, 0, 5) with radius 1, ray from the origin along +z
    let sphere = Sphere { center: v(0, 0, 5 * SCALE), radius: SCALE };
    let ray = Ray { pos: v(0, 0, 0), dir: v(0, 0, SCALE) };
    let hit = sphere.intersect_ray(&ray);
    assert!(hit.almost_equal(&Intersection::Hit(v(0, 0, 4 * SCALE))));
    match hit {
        Intersection::Hit(p) => {
            assert_eq!((p.x, p.y, p.z), (0, 0, 4 * SCALE));
        },
        Intersection::Miss => panic!("expected a hit"),
    }
}

#[test]
fn sphere_behind_ray_misses() {
    // same sphere, ray pointing the other way
    let sphere = Sphere { center: v(0, 0, 5 * SCALE), radius: SCALE };
    let ray = Ray { pos: v(0, 0, 0), dir: v(0, 0, -SCALE) };
    assert!(matches!(sphere.intersect_ray(&ray), Intersection::Miss));
}

#[test]
fn ray_from_inside_sphere_misses() {
    // origin at the center: unsupported, reported as a miss whatever the direction
    let sphere = Sphere { center: v(0, 0, 5 * SCALE), radius: SCALE };
    for dir in [v(0, 0, SCALE), v(0, 0, -SCALE), v(SCALE, 0, 0), v(0, -SCALE, 0)] {
        let ray = Ray { pos: v(0, 0, 5 * SCALE), dir };
        assert!(matches!(sphere.intersect_ray(&ray), Intersection::Miss));
    }
    // origin strictly inside but off-center
    let ray = Ray { pos: v(0, 0, 4_500_000_000), dir: v(0, 0, SCALE) };
    assert!(matches!(sphere.intersect_ray(&ray), Intersection::Miss));
}

#[test]
fn tangent_ray_reports_one_hit() {
    // perpendicular distance from the center to the ray line equals the radius
    let sphere = Sphere { center: v(SCALE, 0, 5 * SCALE), radius: SCALE };
    let ray = Ray { pos: v(0, 0, 0), dir: v(0, 0, SCALE) };
    match sphere.intersect_ray(&ray) {
        Intersection::Hit(p) => {
            // the single touching point is (0, 0, 5), up to rounding
            assert!(p.almost_equal_with_epsilon(&v(0, 0, 5 * SCALE), 10_000_000));
        },
        Intersection::Miss => panic!("tangency must yield the touching point"),
    }
}

#[test]
fn clear_miss_far_from_sphere() {
    let sphere = Sphere { center: v(10 * SCALE, 0, 5 * SCALE), radius: SCALE };
    let ray = Ray { pos: v(0, 0, 0), dir: v(0, 0, SCALE) };
    assert!(matches!(sphere.intersect_ray(&ray), Intersection::Miss));
}

#[test]
fn intersection_almost_equal_distinguishes_variants() {
    let miss = Intersection::Miss;
    let hit = Intersection::Hit(v(0, 0, SCALE));
    let near = Intersection::Hit(v(0, 50, SCALE));
    let far = Intersection::Hit(v(0, SCALE, SCALE));
    assert!(miss.almost_equal(&Intersection::Miss));
    assert!(!miss.almost_equal(&hit));
    assert!(!hit.almost_equal(&miss));
    assert!(hit.almost_equal(&near));
    assert!(!hit.almost_equal(&far));
}

fn test_camera() -> Camera {
    Camera {
        position: v(0, 0, 0),
        forward: v(0, 0, SCALE),
        up: v(0, SCALE, 0),
        aspect_ratio: SCALE,
        fovx: Radians(HALF_PI),
    }
}

#[test]
fn screen_center_looks_forward() {
    let ray = test_camera().screen_ray(SCALE / 2, SCALE / 2);
    assert!(ray.pos.almost_equal(&Vector::zero()));
    assert!(ray.dir.almost_equal(&Vector::unitz()));
}

#[test]
fn screen_corners_lean_left_up_and_right_down() {
    let cam = test_camera();
    // cross(forward, up) points along -x here, so the top-left corner
    // (xunit = -1) leans toward +x; y leans up
    let tl = cam.screen_ray(0, 0);
    assert!(tl.dir.x > 0 && tl.dir.y > 0 && tl.dir.z > 0);
    // the bottom-right corner leans the other way
    let br = cam.screen_ray(SCALE, SCALE);
    assert!(br.dir.x < 0 && br.dir.y < 0 && br.dir.z > 0);
    // with aspect ratio 1 and fovx pi/2 the tangent is nearly 1: the corner
    // leans about as far sideways as it points forward
    assert!(raymath::almost_equal_with_epsilon(tl.dir.x, tl.dir.z, 10_000_000));
}

#[test]
fn screen_ray_directions_are_unit_length() {
    let cam = test_camera();
    for (x, y) in [
        (0, 0),
        (SCALE, SCALE),
        (SCALE / 2, SCALE / 2),
        (300_000_000, 700_000_000),
        (0, SCALE),
        (999_999_999, 1),
    ] {
        let ray = cam.screen_ray(x, y);
        assert!(raymath::almost_equal(ray.dir.len(), SCALE));
    }
}

#[test]
fn screen_ray_checked_rejects_out_of_range_coordinates() {
    let cam = test_camera();
    assert!(cam.screen_ray_checked(2 * SCALE, 0).is_none());
    assert!(cam.screen_ray_checked(0, 2 * SCALE).is_none());
    assert!(cam.screen_ray_checked(-1, 0).is_none());
    assert!(cam.screen_ray_checked(0, -1).is_none());
    let ok = cam.screen_ray_checked(SCALE / 2, SCALE / 2);
    match ok {
        Some(ray) => assert!(ray.dir.almost_equal(&Vector::unitz())),
        None => panic!("coordinates in range must produce a ray"),
    }
}
