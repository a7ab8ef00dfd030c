use archer::config::{RenderParameters, Resolution};
use archer::sampling::{sample_pixel, sample_seed};
use std::collections::HashSet;

#[test]
fn seeds_follow_the_slots_sample_by_sample() {
    let r = Resolution::new(4, 3).unwrap();
    let p = RenderParameters::new(2, 5).unwrap();
    assert_eq!(sample_seed(&r, &p, 0, 0, 0), Some(0));
    assert_eq!(sample_seed(&r, &p, 0, 0, 4), Some(4));
    assert_eq!(sample_seed(&r, &p, 1, 0, 0), Some(5));
    assert_eq!(sample_seed(&r, &p, 2, 1, 3), Some(33));
    assert_eq!(sample_seed(&r, &p, 3, 2, 4), Some(59));
}

#[test]
fn no_seed_outside_the_image_or_beyond_the_samples() {
    let r = Resolution::new(4, 3).unwrap();
    let p = RenderParameters::new(2, 5).unwrap();
    assert_eq!(sample_seed(&r, &p, 4, 0, 0), None);
    assert_eq!(sample_seed(&r, &p, 0, 3, 0), None);
    assert_eq!(sample_seed(&r, &p, 0, 0, 5), None);
    assert_eq!(sample_seed(&r, &p, 0, 0, u32::MAX), None);
}

#[test]
fn every_sample_of_every_pixel_has_its_own_seed() {
    let r = Resolution::new(6, 5).unwrap();
    let p = RenderParameters::new(0, 7).unwrap();
    let mut seen = HashSet::new();
    for py in 0..5u16 {
        for px in 0..6u16 {
            for s in 0..7u32 {
                assert!(seen.insert(sample_seed(&r, &p, px, py, s).unwrap()));
            }
        }
    }
    assert_eq!(seen.len(), 6 * 5 * 7);
    assert_eq!(seen.iter().max(), Some(&(6 * 5 * 7 - 1)));
}

#[test]
fn the_largest_render_has_a_last_seed() {
    let r = Resolution::new(u16::MAX, u16::MAX).unwrap();
    let p = RenderParameters::new(0, u32::MAX).unwrap();
    let pixels: u64 = 65535 * 65535;
    let samples: u64 = u32::MAX as u64;
    assert_eq!(
        sample_seed(&r, &p, 65534, 65534, u32::MAX - 1),
        Some(pixels * samples - 1)
    );
}

#[test]
fn sample_pixel_evaluates_each_sample_with_its_seed() {
    let r = Resolution::new(4, 3).unwrap();
    let p = RenderParameters::new(2, 3).unwrap();
    let samples = sample_pixel(&r, &p, 2, 1, &|seed: u64| seed).unwrap();
    assert_eq!(samples, vec![18, 19, 20]);
}

#[test]
fn sample_pixel_takes_as_many_samples_as_asked() {
    let r = Resolution::new(2, 2).unwrap();
    for count in [1u32, 2, 64] {
        let p = RenderParameters::new(0, count).unwrap();
        let samples = sample_pixel(&r, &p, 1, 1, &|seed: u64| seed).unwrap();
        assert_eq!(samples.len(), count as usize);
        let first = 3 * count as u64;
        assert_eq!(samples, (first..first + count as u64).collect::<Vec<u64>>());
    }
}

#[test]
fn samples_without_variance_have_the_same_mean_for_any_count() {
    let r = Resolution::new(2, 2).unwrap();
    let mean = |count: u32| -> f64 {
        let p = RenderParameters::new(0, count).unwrap();
        let samples = sample_pixel(&r, &p, 0, 1, &|_seed: u64| 0.3f64).unwrap();
        samples.iter().sum::<f64>() / count as f64
    };
    assert!((mean(1) - mean(64)).abs() < 1e-12);
    assert_eq!(mean(1), 0.3);
}

#[test]
fn sample_pixel_outside_the_image_evaluates_nothing() {
    let r = Resolution::new(2, 2).unwrap();
    let p = RenderParameters::new(0, 4).unwrap();
    let samples = sample_pixel(&r, &p, 2, 0, &|_seed: u64| -> u8 { panic!("evaluated") });
    assert_eq!(samples, None);
}
