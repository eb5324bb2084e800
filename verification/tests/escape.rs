use std::cell::Cell;

use julia_frames::escape::{escape_time, MAX_STEPS};
use num::Complex;

fn escape_radius(cx: f64, cy: f64) -> f64 {
    let c = (cx * cx + cy * cy).sqrt();
    (1.0 + (1.0 + 4.0 * c).sqrt()) / 2.0
}

fn julia(c: Complex<f64>, x: f64, y: f64, r: f64) -> u8 {
    escape_time(
        Complex::new(x, y),
        |z: &Complex<f64>| z.norm() > r,
        |z: Complex<f64>| z * z + c,
    )
}

#[test]
fn step_limit_is_255() {
    assert_eq!(MAX_STEPS, 255);
}

#[test]
fn escaping_at_once_is_white() {
    let shade = escape_time(5u32, |z: &u32| *z > 3, |z: u32| z + 1);
    assert_eq!(shade, 255);
}

#[test]
fn shade_counts_the_steps_before_escape() {
    let shade = escape_time(0u32, |z: &u32| *z > 10, |z: u32| z + 1);
    assert_eq!(shade, 244);
}

#[test]
fn escape_after_one_step_is_254() {
    let shade = escape_time(0u32, |z: &u32| *z >= 1, |z: u32| z + 1);
    assert_eq!(shade, 254);
}

#[test]
fn escape_at_the_last_test_is_one() {
    let shade = escape_time(0u32, |z: &u32| *z >= 254, |z: u32| z + 1);
    assert_eq!(shade, 1);
}

#[test]
fn escape_after_the_last_test_is_black() {
    let shade = escape_time(0u32, |z: &u32| *z >= 255, |z: u32| z + 1);
    assert_eq!(shade, 0);
}

#[test]
fn bounded_orbit_is_black() {
    let shade = escape_time(0u32, |_z: &u32| false, |z: u32| z);
    assert_eq!(shade, 0);
}

#[test]
fn bounded_orbit_is_tested_and_advanced_255_times() {
    let tests = Cell::new(0u32);
    let steps = Cell::new(0u32);
    let shade = escape_time(
        0u32,
        |_z: &u32| {
            tests.set(tests.get() + 1);
            false
        },
        |z: u32| {
            steps.set(steps.get() + 1);
            z + 1
        },
    );
    assert_eq!(shade, 0);
    assert_eq!(tests.get(), 255);
    assert_eq!(steps.get(), 255);
}

#[test]
fn escaped_orbit_is_not_advanced_again() {
    let tests = Cell::new(0u32);
    let steps = Cell::new(0u32);
    let shade = escape_time(
        0u32,
        |z: &u32| {
            tests.set(tests.get() + 1);
            *z >= 3
        },
        |z: u32| {
            steps.set(steps.get() + 1);
            z + 1
        },
    );
    assert_eq!(shade, 252);
    assert_eq!(tests.get(), 4);
    assert_eq!(steps.get(), 3);
}

#[test]
fn same_orbit_same_shade() {
    let first = escape_time(7u64, |z: &u64| *z > 1_000_000, |z: u64| z * 3 + 1);
    let second = escape_time(7u64, |z: &u64| *z > 1_000_000, |z: u64| z * 3 + 1);
    assert_eq!(first, second);
    assert_eq!(first, 244);
}

#[test]
fn escape_radius_of_origin_is_one() {
    assert_eq!(escape_radius(0.0, 0.0), 1.0);
}

#[test]
fn origin_does_not_escape_at_step_zero() {
    let c = Complex::new(-0.87, 0.1);
    let r = escape_radius(-0.87, 0.1);
    let shade = julia(c, 0.0, 0.0, r);
    assert!(shade < 255);
}

#[test]
fn origin_stays_bounded_for_a_parameter_of_the_period_two_bulb() {
    let c = Complex::new(-0.87, 0.1);
    let r = escape_radius(-0.87, 0.1);
    assert_eq!(julia(c, 0.0, 0.0, r), 0);
}

#[test]
fn viewport_corner_escapes_at_once() {
    let c = Complex::new(-0.87, 0.1);
    let r = escape_radius(-0.87, 0.1);
    assert_eq!(julia(c, -1.5, -1.5, r), 255);
}

#[test]
fn point_on_the_escape_radius_has_not_escaped() {
    let c = Complex::new(0.0, 0.0);
    let r = escape_radius(0.0, 0.0);
    assert_eq!(julia(c, 1.0, 0.0, r), 0);
}

#[test]
fn point_outside_the_unit_circle_escapes_for_c_zero() {
    let c = Complex::new(0.0, 0.0);
    let r = escape_radius(0.0, 0.0);
    assert_eq!(julia(c, 1.25, 0.0, r), 255);
    assert_eq!(julia(c, 0.5, 0.0, r), 0);
}
