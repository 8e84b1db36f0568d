//! Anchor mapping and sampling behavior.

use artcore::color::{map_circle, map_interval};
use artcore::fixed::FX_ONE;
use artcore::gradient::isqrt;
use artcore::halton::{halton, sample_points};
use artcore::rgb::{hsl_color, Rgba};

#[test]
fn map_hue_test() {
    let hues = vec![100_000i64, 500_000, 800_000];
    let a = map_circle(&hues, 50_000, 150_000);
    let b = map_circle(&hues, 50_000, 200_000);
    let c = map_circle(&hues, 50_000, 600_000);
    let d = map_circle(&hues, 50_000, 810_000);
    println!("{:?} {:?} {:?} {:?}", a, b, c, d);
}

#[test]
fn map_sat_test() {
    let hues = vec![100_000i64, 500_000, 800_000];
    let a = map_interval(&hues, 50_000, 150_000);
    let b = map_interval(&hues, 50_000, 200_000);
    let c = map_interval(&hues, 50_000, 600_000);
    let d = map_interval(&hues, 50_000, 810_000);
    println!("{:?} {:?} {:?} {:?}", a, b, c, d);
}

#[test]
fn halton_test() {
    for i in 100..120 {
        println!("{:?}", halton(i, 2));
    }
}

#[test]
fn map_circle_exact_value() {
    // Anchors 0.1 / 0.5 / 0.8, window 0.05, position 0.15: the lifted
    // position 2.15 falls in the wrap interval [1.95, 2.3) around the
    // shifted first anchor 2.1, and remaps to 0.107142.
    let xs = vec![100_000i64, 500_000, 800_000];
    assert_eq!(map_circle(&xs, 50_000, 150_000), 107_142);
}

#[test]
fn map_interval_exact_value() {
    // Position 0.15 lies in [0, 0.3) around anchor 0.1 and remaps to
    // exactly 0.1.
    let xs = vec![100_000i64, 500_000, 800_000];
    assert_eq!(map_interval(&xs, 50_000, 150_000), 100_000);
}

#[test]
fn mapping_stays_in_unit_range() {
    let xs = vec![0i64, 250_000, 600_000, 1_000_000];
    let mut x: i64 = 0;
    while x < FX_ONE {
        let c = map_circle(&xs, 50_000, x);
        let l = map_interval(&xs, 100_000, x);
        assert!(0 <= c && c < FX_ONE);
        assert!(0 <= l && l <= FX_ONE);
        x += 37_001;
    }
}

#[test]
fn map_interval_monotone_within_band() {
    // Both positions lie inside the first interval [0, 0.25); the map
    // must not decrease between them.
    let xs = vec![200_000i64, 300_000, 900_000];
    let lo = map_interval(&xs, 100_000, 100_000);
    let hi = map_interval(&xs, 100_000, 200_000);
    assert!(lo <= hi);
}

#[test]
fn halton_exact_fraction() {
    // Index five is 101 in binary; its radical inverse is 5/8.
    assert_eq!(halton(5, 2), (5, 8));
    assert_eq!(halton(0, 2), (0, 1));
}

#[test]
fn sample_points_deterministic_and_in_bounds() {
    let a = sample_points(100, 120, 40, 7);
    let b = sample_points(100, 120, 40, 7);
    assert_eq!(a, b);
    for &(x, y) in &a {
        assert!(0 <= x && x < 100 * FX_ONE);
        assert!(0 <= y && y < 120 * FX_ONE);
    }
}

#[test]
fn sample_points_seed_shifts_sequence() {
    let a = sample_points(64, 64, 8, 3);
    let b = sample_points(64, 64, 8, 4);
    // The seed shifts the window into the sequence by one index.
    assert_eq!(a[1..], b[..7]);
}

#[test]
fn isqrt_exact_values() {
    assert_eq!(isqrt(0), 0);
    assert_eq!(isqrt(10), 3);
    assert_eq!(isqrt(1_000_000), 1000);
    assert_eq!(isqrt(999_999), 999);
}

#[test]
fn hsl_pure_red() {
    let c = hsl_color(0, FX_ONE, FX_ONE / 2);
    assert_eq!(
        c,
        Rgba {
            r: 255,
            g: 0,
            b: 0,
            a: 255
        }
    );
}
