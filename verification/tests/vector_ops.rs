use boids::tools::{
    clamp_vector_mag, get_angle, get_components, get_distance_squared, get_magnitude,
    get_magnitude_squared, isqrt, limit_vector_mag, point_is_in_radius, rand_vector2,
    set_vector_mag, Vec2,
};

#[test]
fn magnitude_squared_of_3_4_is_25() {
    let v = Vec2 { x: 3, y: 4 };
    assert_eq!(get_magnitude_squared(&v), 25);
    assert_eq!(get_magnitude(&v), 5);
}

#[test]
fn magnitude_of_zero_vector_is_zero() {
    let v = Vec2 { x: 0, y: 0 };
    assert_eq!(get_magnitude_squared(&v), 0);
    assert_eq!(get_magnitude(&v), 0);
}

#[test]
fn magnitude_rounds_down() {
    // |(1,1)| = sqrt(2), floor 1
    assert_eq!(get_magnitude(&Vec2 { x: 1, y: 1 }), 1);
    // |(2,3)| = sqrt(13), floor 3
    assert_eq!(get_magnitude(&Vec2 { x: 2, y: -3 }), 3);
}

#[test]
fn isqrt_at_square_boundaries() {
    assert_eq!(isqrt(0), 0);
    assert_eq!(isqrt(1), 1);
    assert_eq!(isqrt(15), 3);
    assert_eq!(isqrt(16), 4);
    assert_eq!(isqrt(u64::MAX as u128 * u64::MAX as u128), u64::MAX);
}

#[test]
fn distance_squared_between_points() {
    let a = Vec2 { x: 1, y: 2 };
    let b = Vec2 { x: 4, y: 6 };
    assert_eq!(get_distance_squared(&a, &b), 25);
}

#[test]
fn set_magnitude_scales_exactly_on_clean_ratios() {
    // |(3,4)| = 5, rescaled to 10 -> (6,8)
    let r = set_vector_mag(Vec2 { x: 3, y: 4 }, 10);
    assert_eq!(r, Vec2 { x: 6, y: 8 });
    // negative components keep their direction
    let r = set_vector_mag(Vec2 { x: -3, y: 4 }, 10);
    assert_eq!(r, Vec2 { x: -6, y: 8 });
}

#[test]
fn set_magnitude_of_zero_vector_points_along_x() {
    // the zero vector has angle zero by convention, so it rescales to (m, 0)
    assert_eq!(set_vector_mag(Vec2 { x: 0, y: 0 }, 7), Vec2 { x: 7, y: 0 });
}

#[test]
fn set_magnitude_rounds_toward_zero() {
    // |(1,1)| = sqrt(2); ceiling divisor 2; 1*5/2 = 2 per component
    let r = set_vector_mag(Vec2 { x: 1, y: 1 }, 5);
    assert_eq!(r, Vec2 { x: 2, y: 2 });
    // the result never exceeds the requested magnitude
    assert!(get_magnitude_squared(&r) <= 25);
}

#[test]
fn clamp_reduces_an_overfast_vector_to_max() {
    let r = clamp_vector_mag(Vec2 { x: 30, y: 40 }, 10, 20);
    assert_eq!(r, Vec2 { x: 12, y: 16 });
    assert_eq!(get_magnitude_squared(&r), 400);
}

#[test]
fn clamp_raises_an_underslow_vector_to_min() {
    let r = clamp_vector_mag(Vec2 { x: 3, y: 4 }, 10, 20);
    assert_eq!(r, Vec2 { x: 6, y: 8 });
    assert_eq!(get_magnitude_squared(&r), 100);
}

#[test]
fn clamp_reaches_the_floor_even_on_coarse_vectors() {
    // a short diagonal raised to the floor lands at or above it
    let r = clamp_vector_mag(Vec2 { x: 1, y: 1 }, 1000, 2000);
    assert_eq!(r, Vec2 { x: 1000, y: 1000 });
    assert!(get_magnitude_squared(&r) >= 1000 * 1000);
    assert!(get_magnitude_squared(&r) <= 2000 * 2000);
}

#[test]
fn clamp_raises_a_vector_at_rest_along_x() {
    // the zero vector takes the angle-zero convention: raised to (min, 0)
    let r = clamp_vector_mag(Vec2 { x: 0, y: 0 }, 30, 100);
    assert_eq!(r, Vec2 { x: 30, y: 0 });
}

#[test]
fn clamp_is_idempotent_with_positive_floor() {
    for v in [
        Vec2 { x: 1, y: 1 },
        Vec2 { x: 0, y: 0 },
        Vec2 { x: 3, y: 4 },
        Vec2 { x: -700, y: 311 },
        Vec2 { x: 15, y: -9 },
    ] {
        let once = clamp_vector_mag(v, 10, 20);
        let twice = clamp_vector_mag(once, 10, 20);
        assert_eq!(once, twice);
    }
}

#[test]
fn clamp_leaves_a_vector_inside_the_band_unchanged() {
    let v = Vec2 { x: 9, y: 12 };
    assert_eq!(clamp_vector_mag(v, 10, 20), v);
}

#[test]
fn clamp_is_idempotent_with_zero_floor() {
    for v in [
        Vec2 { x: 30, y: 40 },
        Vec2 { x: 0, y: 0 },
        Vec2 { x: 7, y: 1 },
        Vec2 { x: -500, y: 311 },
    ] {
        let once = clamp_vector_mag(v, 0, 20);
        let twice = clamp_vector_mag(once, 0, 20);
        assert_eq!(once, twice);
    }
}

#[test]
fn limit_uses_the_squared_threshold_as_the_new_magnitude() {
    // |(30,40)|^2 = 2500 >= 100, and the vector is rescaled to magnitude
    // 100: the squared threshold itself becomes the new magnitude
    let r = limit_vector_mag(Vec2 { x: 30, y: 40 }, 100);
    assert_eq!(r, Vec2 { x: 60, y: 80 });
    // below the threshold nothing changes
    assert_eq!(limit_vector_mag(Vec2 { x: 3, y: 4 }, 100), Vec2 { x: 3, y: 4 });
}

#[test]
fn point_in_radius_excludes_the_boundary() {
    let c = Vec2 { x: 0, y: 0 };
    assert!(point_is_in_radius(&c, &Vec2 { x: 3, y: 4 }, 26));
    assert!(!point_is_in_radius(&c, &Vec2 { x: 3, y: 4 }, 25));
}

#[test]
fn components_at_the_axis_angles_are_exact() {
    assert_eq!(get_components(10, 0), Vec2 { x: 10, y: 0 });
    assert_eq!(get_components(10, 900), Vec2 { x: 0, y: 10 });
    assert_eq!(get_components(10, 1800), Vec2 { x: -10, y: 0 });
    assert_eq!(get_components(10, 2700), Vec2 { x: 0, y: -10 });
}

#[test]
fn components_at_intermediate_angles() {
    // 45 degrees: both components equal
    assert_eq!(get_components(1000, 450), Vec2 { x: 705, y: 705 });
    // 30 degrees: sine is exactly one half under the rational approximation
    assert_eq!(get_components(100, 300), Vec2 { x: 86, y: 50 });
}

#[test]
fn angle_of_the_axis_directions() {
    assert_eq!(get_angle(&Vec2 { x: 5, y: 0 }), 0);
    assert_eq!(get_angle(&Vec2 { x: 0, y: 5 }), 900);
    assert_eq!(get_angle(&Vec2 { x: -5, y: 0 }), 1800);
    assert_eq!(get_angle(&Vec2 { x: 0, y: -5 }), 2700);
    assert_eq!(get_angle(&Vec2 { x: 0, y: 0 }), 0);
}

#[test]
fn angle_of_the_diagonal_is_45_degrees() {
    assert_eq!(get_angle(&Vec2 { x: 7, y: 7 }), 450);
}

#[test]
fn polar_round_trip_at_axis_angles() {
    for a in [0, 900, 1800, 2700] {
        let v = get_components(10, a);
        assert_eq!(get_angle(&v), a);
        assert_eq!(get_magnitude(&v), 10);
    }
}

#[test]
fn random_vector_stays_within_the_magnitude_bound() {
    let mut rng = boids::rng::seed_rng(7);
    for _ in 0..100 {
        let v = rand_vector2(&mut rng, 30, 100, 0, 3600);
        assert!(v.x.abs() <= 100 && v.y.abs() <= 100);
        // magnitude never exceeds the upper bound
        assert!(get_magnitude_squared(&v) <= 100 * 100 * 2);
    }
}
