use cogito::fixed::{div_floor_i64, div_trunc_i64, isqrt64};
use cogito::resolve::{fragment_contribution, push_power};
use cogito::rng::SimRng;
use cogito::vec2::{clamp_len, norm_sq, unit_dir, Vec2i};

#[test]
fn isqrt_small_values() {
    assert_eq!(isqrt64(0), 0);
    assert_eq!(isqrt64(1), 1);
    assert_eq!(isqrt64(2), 1);
    assert_eq!(isqrt64(3), 1);
    assert_eq!(isqrt64(4), 2);
    assert_eq!(isqrt64(99), 9);
    assert_eq!(isqrt64(100), 10);
}

#[test]
fn isqrt_large_values() {
    assert_eq!(isqrt64(999_999), 999);
    assert_eq!(isqrt64(1_000_000), 1000);
    assert_eq!(isqrt64(100_000_000), 10_000);
    assert_eq!(isqrt64(u64::MAX), 0xFFFF_FFFF);
}

#[test]
fn trunc_division_rounds_toward_zero() {
    assert_eq!(div_trunc_i64(7, 2), 3);
    assert_eq!(div_trunc_i64(-7, 2), -3);
    assert_eq!(div_trunc_i64(0, 5), 0);
    assert_eq!(div_trunc_i64(-200, 1000), 0);
}

#[test]
fn floor_division_rounds_down() {
    assert_eq!(div_floor_i64(7, 2), 3);
    assert_eq!(div_floor_i64(-7, 2), -4);
    assert_eq!(div_floor_i64(-200, 1000), -1);
    assert_eq!(div_floor_i64(200, 1000), 0);
    assert_eq!(div_floor_i64(-1000, 1000), -1);
    assert_eq!(div_floor_i64(-1001, 1000), -2);
}

#[test]
fn contribution_formula_exact_values() {
    // radius 3.0 -> floor(2.5) = 2; radius 4.0 -> floor(3.5) = 3
    assert_eq!(fragment_contribution(3000, 1), 2);
    assert_eq!(fragment_contribution(4000, 1), 3);
    // radius 0.3 -> floor(-0.2) = -1, clamped to the floor of 1
    assert_eq!(fragment_contribution(300, 1), 1);
    assert_eq!(fragment_contribution(500, 1), 1);
    assert_eq!(fragment_contribution(999, 1), 1);
    assert_eq!(fragment_contribution(1500, 1), 1);
    assert_eq!(fragment_contribution(2499, 1), 1);
    assert_eq!(fragment_contribution(2500, 2), 2);
    assert_eq!(fragment_contribution(2500, 1), 2);
    // a higher configured floor wins over a small radius
    assert_eq!(fragment_contribution(300, 3), 3);
    assert_eq!(fragment_contribution(1_000_000, 1), 999);
}

#[test]
fn push_power_follows_falloff_law() {
    // d = 10 units: d2 = 1e8 micro-units; 10000 / 100 = 100 units/s
    assert_eq!(push_power(100_000_000, 10_000), 100_000);
    // below the 0.01 cap the law divides by the cap
    assert_eq!(push_power(0, 10_000), 1_000_000_000);
    assert_eq!(push_power(9_999, 10_000), 1_000_000_000);
    assert_eq!(push_power(10_000, 10_000), 1_000_000_000);
    assert_eq!(push_power(20_000, 10_000), 500_000_000);
    // power never grows with distance
    let mut last = push_power(0, 10_000);
    for d2 in [10_000u64, 1_000_000, 100_000_000, 10_000_000_000] {
        let p = push_power(d2, 10_000);
        assert!(p <= last);
        last = p;
    }
}

#[test]
fn norm_and_unit_direction() {
    let v = Vec2i { x: 3000, y: 4000 };
    assert_eq!(norm_sq(v), 25_000_000);
    let d = unit_dir(v);
    assert_eq!(d, Vec2i { x: 600, y: 800 });
    assert_eq!(unit_dir(Vec2i { x: 0, y: 0 }), Vec2i { x: 0, y: 0 });
    assert_eq!(unit_dir(Vec2i { x: -5000, y: 0 }), Vec2i { x: -1000, y: 0 });
}

#[test]
fn clamp_keeps_short_vectors_and_rescales_long_ones() {
    let v = Vec2i { x: 600, y: 800 };
    assert_eq!(clamp_len(v, 1000), v);
    assert_eq!(clamp_len(v, 500), Vec2i { x: 300, y: 400 });
    assert_eq!(clamp_len(Vec2i { x: 0, y: 0 }, 50), Vec2i { x: 0, y: 0 });
}

#[test]
fn rng_is_deterministic_and_in_range() {
    let mut a = SimRng::new(42);
    let mut b = SimRng::new(42);
    for _ in 0..100 {
        let x = a.gen_range_i64(-1000, 1000);
        let y = b.gen_range_i64(-1000, 1000);
        assert_eq!(x, y);
        assert!(-1000 <= x && x <= 1000);
    }
    let mut c = SimRng::new(7);
    for _ in 0..100 {
        let sp = c.rand_speed(50_000);
        assert!(5_000 <= sp && sp <= 50_000);
        let d = c.rand_unit_dir();
        assert!(d.x.abs() <= 1000 && d.y.abs() <= 1000);
    }
}

#[test]
fn rand_velocity_respects_speed_cap() {
    let mut r = SimRng::new(99);
    for _ in 0..200 {
        let v = r.rand_velocity(50_000);
        assert!(v.x.abs() <= 50_000 && v.y.abs() <= 50_000);
    }
}
