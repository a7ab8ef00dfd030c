use archer::camera::center_steps;
use archer::config::{ConfigError, RenderParameters, Resolution};
use archer::integrator::{Found, Scattered};
use archer::keys::distance_key;
use archer::materials::{Material, PerfectMirror, SolidColor};
use archer::tracer::Tracer;
use std::cell::Cell;

type Direction = (f64, f64, f64);
type Colour = [f64; 3];

const BOTTOM: Colour = [255.0, 255.0, 255.0];
const TOP: Colour = [128.0, 178.0, 255.0];

fn direction(resolution: &Resolution, px: u16, py: u16) -> Direction {
    let viewport_height = 2.0;
    let focal_length = 2.0;
    let (right, up) = center_steps(resolution, px, py);
    let half_pixel = viewport_height / (2.0 * resolution.height() as f64);
    (right as f64 * half_pixel, up as f64 * half_pixel, focal_length)
}

fn gradient(d: &Direction) -> Colour {
    let norm = (d.0 * d.0 + d.1 * d.1 + d.2 * d.2).sqrt();
    let t = 0.5 * (d.1 / norm + 1.0);
    [
        BOTTOM[0] * (1.0 - t) + TOP[0] * t,
        BOTTOM[1] * (1.0 - t) + TOP[1] * t,
        BOTTOM[2] * (1.0 - t) + TOP[2] * t,
    ]
}

fn mean(samples: Vec<Colour>) -> Colour {
    let mut mean = [0.0; 3];
    for colour in &samples {
        for c in 0..3 {
            mean[c] += colour[c] / samples.len() as f64;
        }
    }
    mean
}

fn close(a: &Colour, b: &Colour) -> bool {
    (0..3).all(|c| (a[c] - b[c]).abs() < 1e-9)
}

/// A sphere on the camera's axis: how far its centre is, its radius, its colour.
struct Ball {
    depth: f64,
    radius: f64,
    colour: SolidColor<Colour>,
}

/// The distance at which a ray along the axis strikes the ball.
fn strike(ball: &Ball, d: &Direction) -> f64 {
    if d.0 == 0.0 && d.1 == 0.0 && d.2 > 0.0 {
        ball.depth - ball.radius
    } else {
        f64::NAN
    }
}

fn render(
    width: u16,
    height: u16,
    max_bounces: u32,
    samples: u32,
    tile_size: u16,
    balls: &[Ball],
) -> Result<Vec<Colour>, ConfigError> {
    let resolution = Resolution::new(width, height).unwrap();
    let parameters = RenderParameters::new(max_bounces, samples).unwrap();
    Tracer::new(resolution).render(
        &parameters,
        tile_size,
        [0.0; 3],
        &|px: u16, py: u16, _seed: u64| direction(&resolution, px, py),
        &|ray: &Direction| -> Vec<Option<Found<usize>>> {
            balls
                .iter()
                .enumerate()
                .map(|(index, ball)| {
                    let distance = distance_key(strike(ball, ray).to_bits())?;
                    Some(Found { distance, candidate: index })
                })
                .collect()
        },
        &|ray: &Direction, index: &usize| Scattered {
            record: *index,
            terminal: balls[*index].colour.is_terminal(),
            bounced: *ray,
        },
        &|ray: &Direction| gradient(ray),
        &|index: &usize, beneath: Colour| balls[*index].colour.add_color(&beneath),
        &|taken: Vec<Colour>| mean(taken),
    )
}

#[test]
fn an_empty_scene_shows_the_gradient_at_every_pixel() {
    let image = render(2, 2, 4, 1, 1, &[]).unwrap();
    let up = 0.5 * (0.5 / 4.5f64.sqrt() + 1.0);
    let down = 0.5 * (-0.5 / 4.5f64.sqrt() + 1.0);
    let upper = [255.0 - 127.0 * up, 255.0 - 77.0 * up, 255.0];
    let lower = [255.0 - 127.0 * down, 255.0 - 77.0 * down, 255.0];
    assert_eq!(image.len(), 4);
    assert!(close(&image[0], &upper));
    assert!(close(&image[1], &upper));
    assert!(close(&image[2], &lower));
    assert!(close(&image[3], &lower));
    assert_eq!(image[0], image[1]);
    assert_eq!(image[2], image[3]);
    assert!(image[0][0] < image[2][0]);
}

#[test]
fn an_empty_scene_looks_the_same_for_any_number_of_samples() {
    let once = render(2, 2, 4, 1, 1, &[]).unwrap();
    for samples in [2u32, 7, 64] {
        let often = render(2, 2, 4, samples, 2, &[]).unwrap();
        assert_eq!(once.len(), often.len());
        for (a, b) in once.iter().zip(&often) {
            assert!(close(a, b));
        }
    }
}

#[test]
fn a_ray_that_misses_every_ball_shows_the_background() {
    let balls = [Ball { depth: 5.0, radius: 1.0, colour: SolidColor { color: [255.0, 0.0, 0.0] } }];
    let resolution = Resolution::new(2, 2).unwrap();
    let image = render(2, 2, 4, 3, 1, &balls).unwrap();
    for py in 0..2u16 {
        for px in 0..2u16 {
            let expected = gradient(&direction(&resolution, px, py));
            assert!(close(&image[py as usize * 2 + px as usize], &expected));
        }
    }
}

#[test]
fn the_nearer_ball_colours_the_pixel_whatever_the_order() {
    let red = || Ball { depth: 5.0, radius: 1.0, colour: SolidColor { color: [255.0, 0.0, 0.0] } };
    let blue = || Ball { depth: 10.0, radius: 1.0, colour: SolidColor { color: [0.0, 0.0, 255.0] } };
    assert_eq!(render(1, 1, 1, 1, 1, &[blue(), red()]).unwrap(), vec![[255.0, 0.0, 0.0]]);
    assert_eq!(render(1, 1, 1, 1, 1, &[red(), blue()]).unwrap(), vec![[255.0, 0.0, 0.0]]);
}

#[test]
fn a_scene_of_solid_colours_has_no_variance() {
    let balls = [
        Ball { depth: 10.0, radius: 1.0, colour: SolidColor { color: [0.0, 0.0, 255.0] } },
        Ball { depth: 5.0, radius: 1.0, colour: SolidColor { color: [255.0, 0.0, 0.0] } },
    ];
    let once = render(1, 1, 8, 1, 1, &balls).unwrap();
    let often = render(1, 1, 8, 64, 1, &balls).unwrap();
    assert!(close(&once[0], &often[0]));
    assert!(close(&once[0], &[255.0, 0.0, 0.0]));
}

#[test]
fn a_degenerate_hit_is_passed_over_and_the_pixel_falls_back() {
    let broken = |depth: f64| Ball { depth, radius: 1.0, colour: SolidColor { color: [1.0, 1.0, 1.0] } };
    let red = Ball { depth: 5.0, radius: 1.0, colour: SolidColor { color: [255.0, 0.0, 0.0] } };
    let resolution = Resolution::new(1, 1).unwrap();
    let sky = gradient(&direction(&resolution, 0, 0));
    assert_eq!(render(1, 1, 2, 1, 1, &[broken(f64::NAN)]).unwrap(), vec![sky]);
    assert_eq!(render(1, 1, 2, 1, 1, &[broken(f64::INFINITY)]).unwrap(), vec![sky]);
    assert_eq!(render(1, 1, 2, 1, 1, &[broken(-3.0)]).unwrap(), vec![sky]);
    assert_eq!(
        render(1, 1, 2, 1, 1, &[broken(f64::NAN), red, broken(0.5)]).unwrap(),
        vec![[255.0, 0.0, 0.0]]
    );
}

#[test]
fn render_rejects_a_zero_tile_size() {
    assert_eq!(render(2, 2, 1, 1, 0, &[]), Err(ConfigError::ZeroTileSize));
}

#[test]
fn render_does_not_depend_on_the_tile_size() {
    let whole = render(7, 5, 2, 2, 64, &[]).unwrap();
    for tile_size in [1u16, 2, 3, 4] {
        assert_eq!(render(7, 5, 2, 2, tile_size, &[]).unwrap(), whole);
    }
}

#[test]
fn every_pixel_is_the_mean_of_its_samples_taken_by_their_seeds() {
    let resolution = Resolution::new(3, 2).unwrap();
    let parameters = RenderParameters::new(0, 4).unwrap();
    let image = Tracer::new(resolution)
        .render(
            &parameters,
            2,
            0u64,
            &|_px: u16, _py: u16, seed: u64| seed,
            &|_ray: &u64| -> Vec<Option<Found<()>>> { Vec::new() },
            &|_ray: &u64, _c: &()| -> Scattered<(), u64> { panic!("scattered") },
            &|ray: &u64| *ray,
            &|_hit: &(), _beneath: u64| -> u64 { panic!("shaded") },
            &|taken: Vec<u64>| taken.iter().sum::<u64>(),
        )
        .unwrap();
    let expected: Vec<u64> = (0..6u64).map(|slot| 4 * (4 * slot) + 6).collect();
    assert_eq!(image, expected);
}

#[test]
fn render_pixel_takes_the_samples_in_their_order() {
    let resolution = Resolution::new(3, 2).unwrap();
    let parameters = RenderParameters::new(0, 3).unwrap();
    let tracer = Tracer::new(resolution);
    let pixel = |px: u16, py: u16| {
        tracer.render_pixel(
            &parameters,
            px,
            py,
            &|_px: u16, _py: u16, seed: u64| seed,
            &|_ray: &u64| -> Vec<Option<Found<()>>> { Vec::new() },
            &|_ray: &u64, _c: &()| -> Scattered<(), u64> { panic!("scattered") },
            &|ray: &u64| format!("{ray}"),
            &|_hit: &(), _beneath: String| -> String { panic!("shaded") },
            &|taken: Vec<String>| taken.join(","),
        )
    };
    assert_eq!(pixel(0, 0), Some(String::from("0,1,2")));
    assert_eq!(pixel(2, 1), Some(String::from("15,16,17")));
    assert_eq!(pixel(3, 0), None);
    assert_eq!(pixel(0, 2), None);
}

#[test]
fn a_mirror_passes_the_background_on_and_is_shaded_last() {
    let resolution = Resolution::new(1, 1).unwrap();
    let parameters = RenderParameters::new(3, 1).unwrap();
    let casts = Cell::new(0u32);
    let image = Tracer::new(resolution)
        .render(
            &parameters,
            1,
            0.0f64,
            &|_px: u16, _py: u16, _seed: u64| 0u32,
            &|bounce: &u32| -> Vec<Option<Found<u32>>> {
                casts.set(casts.get() + 1);
                if *bounce < 2 {
                    vec![Some(Found { distance: 1, candidate: *bounce })]
                } else {
                    Vec::new()
                }
            },
            &|bounce: &u32, candidate: &u32| Scattered {
                record: *candidate,
                terminal: PerfectMirror.is_terminal(),
                bounced: bounce + 1,
            },
            &|bounce: &u32| 100.0 + *bounce as f64,
            &|_hit: &u32, beneath: f64| PerfectMirror.add_color(&beneath),
            &|taken: Vec<f64>| taken[0],
        )
        .unwrap();
    assert_eq!(image, vec![102.0]);
    assert_eq!(casts.get(), 3);
}
