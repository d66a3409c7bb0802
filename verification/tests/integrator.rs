use skean_raytracer::integrator::{is_spent, ray_color, Met};
use std::cell::Cell;

fn blend(emitted: i64, attenuation: i64, incoming: i64) -> i64 {
    emitted + attenuation * incoming
}

/// A corridor of mirrors: every ray is scattered on, each surface emitting
/// 1 and passing on twice the light it gets.
fn mirrors(_ray: &u32) -> Met<i64, u32> {
    Met::Scattered { emitted: 1, attenuation: 2, ray: 0 }
}

#[test]
fn spent_budget_is_black_and_traces_nothing() {
    assert!(is_spent(0));
    assert!(!is_spent(1));
    let traced = Cell::new(0);
    let trace = |_ray: &u32| {
        traced.set(traced.get() + 1);
        Met::Miss { sky: 9 }
    };
    assert_eq!(ray_color(0u32, 0, -7i64, &trace, &blend), -7);
    assert_eq!(traced.get(), 0);
}

#[test]
fn miss_shows_the_sky() {
    let trace = |ray: &u32| Met::Miss { sky: 100 + *ray as i64 };
    assert_eq!(ray_color(5u32, 1, 0i64, &trace, &blend), 105);
    assert_eq!(ray_color(5u32, 50, 0i64, &trace, &blend), 105);
}

#[test]
fn absorbed_ray_leaves_the_emission_alone() {
    let trace = |_ray: &u32| Met::Absorbed { emitted: 42 };
    assert_eq!(ray_color(0u32, 3, 0i64, &trace, &blend), 42);
}

#[test]
fn scattered_ray_adds_the_attenuated_incoming_light() {
    // ray 0 scatters into ray 1, which scatters into ray 2, which misses
    let trace = |ray: &u32| match *ray {
        0 => Met::Scattered { emitted: 3, attenuation: 10, ray: 1 },
        1 => Met::Scattered { emitted: 4, attenuation: 100, ray: 2 },
        _ => Met::Miss { sky: 7 },
    };
    assert_eq!(ray_color(0u32, 5, 0i64, &trace, &blend), 3 + 10 * (4 + 100 * 7));
    assert_eq!(ray_color(0u32, 3, 0i64, &trace, &blend), 3 + 10 * (4 + 100 * 7));
    // with two bounces the third ray is not traced: black comes in
    assert_eq!(ray_color(0u32, 2, 0i64, &trace, &blend), 3 + 10 * (4 + 100 * 0));
    assert_eq!(ray_color(0u32, 1, 0i64, &trace, &blend), 3 + 10 * 0);
    assert_eq!(ray_color(1u32, 5, 0i64, &trace, &blend), 4 + 100 * 7);
}

#[test]
fn path_of_mirrors_ends_when_the_budget_is_spent() {
    for depth in 0..10u64 {
        let traced = Cell::new(0u64);
        let trace = |ray: &u32| {
            traced.set(traced.get() + 1);
            mirrors(ray)
        };
        let color = ray_color(0u32, depth, 0i64, &trace, &blend);
        assert_eq!(traced.get(), depth);
        assert_eq!(color, (1i64 << depth) - 1);
    }
}

#[test]
fn rays_are_traced_before_their_light_is_blended() {
    let log = std::cell::RefCell::new(Vec::new());
    let trace = |ray: &u32| {
        log.borrow_mut().push(format!("trace {}", ray));
        if *ray < 2 {
            Met::Scattered { emitted: 0, attenuation: 1, ray: ray + 1 }
        } else {
            Met::Absorbed { emitted: 5 }
        }
    };
    let blend_logged = |emitted: i64, attenuation: i64, incoming: i64| {
        log.borrow_mut().push(format!("blend {}", incoming));
        blend(emitted, attenuation, incoming)
    };
    assert_eq!(ray_color(0u32, 8, 0i64, &trace, &blend_logged), 5);
    assert_eq!(log.into_inner(), vec!["trace 0", "trace 1", "trace 2", "blend 5", "blend 5"]);
}

#[test]
fn floating_point_colours() {
    let trace = |ray: &u32| match *ray {
        0 => Met::Scattered { emitted: 0.25f64, attenuation: 0.5, ray: 1 },
        _ => Met::Miss { sky: 1.0 },
    };
    let blend = |emitted: f64, attenuation: f64, incoming: f64| emitted + attenuation * incoming;
    assert_eq!(ray_color(0u32, 5, 0.0f64, &trace, &blend), 0.75);
    assert_eq!(ray_color(0u32, 1, 0.0f64, &trace, &blend), 0.25);
    assert_eq!(ray_color(0u32, 0, 0.0f64, &trace, &blend), 0.0);
}
