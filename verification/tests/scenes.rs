//! End-to-end rendering behavior.

use artcore::fixed::FX_ONE;
use artcore::flow::FlowParams;
use artcore::gradient::GradientParams;
use artcore::grid::OccupancyGrid;
use artcore::noise::NoiseParams;
use artcore::rgb::Rgba;
use artcore::scene::{render, ConfigError, SceneParams};
use artcore::trace::trace;
use artcore::wheel::WheelParams;

fn demo_wheel() -> WheelParams {
    WheelParams::new(
        200_000, 400_000, 600_000, 800_000, 250_000, 500_000, 750_000, 1_000_000, 250_000,
        500_000, 750_000, 0, 0,
    )
}

fn demo_flow() -> FlowParams {
    FlowParams {
        separation: 0,
        starts: 5,
        length: 10,
        step: FX_ONE,
        pearl_size: 2 * FX_ONE,
        stroke_weight: FX_ONE,
        noise_scale: 5_000,
        noise_factor: 10 * FX_ONE,
        octaves: 3,
        lacunarity: 2 * FX_ONE,
        persistence: 500_000,
    }
}

fn straight_noise() -> NoiseParams {
    // Zero gain: the angle field is constantly zero, so curves run
    // straight to the right.
    NoiseParams {
        octaves: 1,
        lacunarity: 2 * FX_ONE,
        persistence: 500_000,
        noise_scale: 5_000,
        noise_factor: 0,
    }
}

#[test]
fn wheel_columns_are_uniform() {
    let out = render(100, 100, FX_ONE, &SceneParams::Wheel(demo_wheel())).unwrap();
    assert_eq!(out.width, 100);
    assert_eq!(out.height, 100);
    for &x in &[0usize, 33, 99] {
        let top = out.get_pixel(x, 0);
        for y in 0..100 {
            assert_eq!(out.get_pixel(x, y), top);
        }
    }
}

#[test]
fn wheel_render_is_idempotent() {
    let a = render(60, 40, FX_ONE, &SceneParams::Wheel(demo_wheel())).unwrap();
    let b = render(60, 40, FX_ONE, &SceneParams::Wheel(demo_wheel())).unwrap();
    assert_eq!(a.to_bytes(), b.to_bytes());
}

#[test]
fn gradient_background_corners() {
    let out = render(
        200,
        200,
        FX_ONE,
        &SceneParams::Gradient(GradientParams {
            middle_stop: 500_000,
        }),
    )
    .unwrap();
    assert_eq!(out.width, 200);
    assert_eq!(out.height, 200);
    assert_eq!(
        out.get_pixel(0, 0),
        Rgba {
            r: 255,
            g: 255,
            b: 255,
            a: 255
        }
    );
    assert_eq!(
        out.get_pixel(0, 199),
        Rgba {
            r: 0,
            g: 0,
            b: 0,
            a: 255
        }
    );
}

#[test]
fn gradient_render_is_idempotent() {
    let p = SceneParams::Gradient(GradientParams {
        middle_stop: 300_000,
    });
    let a = render(50, 70, FX_ONE, &p).unwrap();
    let b = render(50, 70, FX_ONE, &p).unwrap();
    assert_eq!(a.to_bytes(), b.to_bytes());
}

#[test]
fn flow_render_is_idempotent() {
    let p = SceneParams::Flow(demo_flow());
    let a = render(40, 40, FX_ONE, &p).unwrap();
    let b = render(40, 40, FX_ONE, &p).unwrap();
    assert_eq!(a.to_bytes(), b.to_bytes());
}

#[test]
fn render_scales_the_canvas() {
    // Scale 1.5 on an 80 by 60 request gives a 120 by 90 buffer.
    let out = render(80, 60, 1_500_000, &SceneParams::Wheel(demo_wheel())).unwrap();
    assert_eq!(out.width, 120);
    assert_eq!(out.height, 90);
}

#[test]
fn trace_without_separation_runs_to_length_or_edge() {
    let np = straight_noise();
    let mut grid = OccupancyGrid::new(10 * FX_ONE, 10 * FX_ONE, 0);
    let full = trace(&np, &mut grid, 0, 0, FX_ONE, 5, 10 * FX_ONE, 10 * FX_ONE);
    assert_eq!(
        full,
        vec![
            (0, 0),
            (FX_ONE, 0),
            (2 * FX_ONE, 0),
            (3 * FX_ONE, 0),
            (4 * FX_ONE, 0)
        ]
    );
    let clipped = trace(
        &np,
        &mut grid,
        8 * FX_ONE,
        0,
        FX_ONE,
        5,
        10 * FX_ONE,
        10 * FX_ONE,
    );
    assert_eq!(clipped, vec![(8 * FX_ONE, 0), (9 * FX_ONE, 0)]);
}

#[test]
fn trace_collision_policy_blocks_close_curves() {
    let np = straight_noise();
    let mut grid = OccupancyGrid::new(10 * FX_ONE, 10 * FX_ONE, FX_ONE);
    let first = trace(
        &np,
        &mut grid,
        0,
        500_000,
        FX_ONE,
        5,
        10 * FX_ONE,
        10 * FX_ONE,
    );
    assert_eq!(first.len(), 5);
    // A second curve seeded within the separation of the first curve's
    // start lands in the same cell and is rejected at its first point.
    let second = trace(
        &np,
        &mut grid,
        100_000,
        500_000,
        FX_ONE,
        5,
        10 * FX_ONE,
        10 * FX_ONE,
    );
    assert_eq!(second.len(), 0);
}

#[test]
fn render_rejects_bad_canvas() {
    assert!(matches!(
        render(0, 100, FX_ONE, &SceneParams::Wheel(demo_wheel())),
        Err(ConfigError::CanvasOutOfRange)
    ));
    assert!(matches!(
        render(100, 100, 0, &SceneParams::Wheel(demo_wheel())),
        Err(ConfigError::CanvasOutOfRange)
    ));
    assert!(matches!(
        render(65_535, 65_535, 100 * FX_ONE, &SceneParams::Wheel(demo_wheel())),
        Err(ConfigError::CanvasOutOfRange)
    ));
}

#[test]
fn render_rejects_bad_parameters() {
    let mut unsorted = demo_wheel();
    unsorted.hue1 = 900_000;
    assert!(matches!(
        render(50, 50, FX_ONE, &SceneParams::Wheel(unsorted)),
        Err(ConfigError::NonMonotonicAnchors)
    ));
    let mut out_of_range = demo_wheel();
    out_of_range.sat_offset = 2 * FX_ONE;
    assert!(matches!(
        render(50, 50, FX_ONE, &SceneParams::Wheel(out_of_range)),
        Err(ConfigError::ValueOutOfRange)
    ));
    assert!(matches!(
        render(
            50,
            50,
            FX_ONE,
            &SceneParams::Gradient(GradientParams { middle_stop: -1 })
        ),
        Err(ConfigError::NonMonotonicStops)
    ));
    let mut bad_flow = demo_flow();
    bad_flow.octaves = 0;
    assert!(matches!(
        render(50, 50, FX_ONE, &SceneParams::Flow(bad_flow)),
        Err(ConfigError::ValueOutOfRange)
    ));
}
