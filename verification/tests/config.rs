use archer::config::{ConfigError, RenderParameters, Resolution};

#[test]
fn resolution_rejects_a_zero_axis() {
    assert_eq!(Resolution::new(0, 4), Err(ConfigError::ZeroResolution));
    assert_eq!(Resolution::new(4, 0), Err(ConfigError::ZeroResolution));
    assert_eq!(Resolution::new(0, 0), Err(ConfigError::ZeroResolution));
}

#[test]
fn resolution_keeps_its_axes() {
    let r = Resolution::new(640, 480).unwrap();
    assert_eq!(r.width(), 640);
    assert_eq!(r.height(), 480);
}

#[test]
fn parameters_reject_zero_samples() {
    assert_eq!(RenderParameters::new(3, 0), Err(ConfigError::ZeroSamples));
}

#[test]
fn parameters_accept_zero_bounces() {
    let p = RenderParameters::new(0, 1).unwrap();
    assert_eq!(p.max_bounces(), 0);
    assert_eq!(p.samples_per_pixel(), 1);
}
