//! Configuration that a render pass is set up with, validated before any ray is cast.

use vstd::prelude::*;

verus! {

/// Why a configuration was rejected.
#[derive(Clone, Copy, Debug, PartialEq, Eq, Structural)]
pub enum ConfigError {
    /// One axis of the resolution is zero, so the viewport has no area.
    ZeroResolution,
    /// A pixel would be the mean of no samples.
    ZeroSamples,
    /// The image cannot be cut into tiles with no extent.
    ZeroTileSize,
}

/// What a `Resolution` stands for: the number of pixel columns and rows.
pub struct ResolutionView {
    pub width: nat,
    pub height: nat,
}

/// The size of the image in pixels. Both axes are at least one.
#[derive(Clone, Copy, Debug, PartialEq, Eq, Structural)]
pub struct Resolution {
    width: u16,
    height: u16,
}

impl View for Resolution {
    type V = ResolutionView;

    closed spec fn view(&self) -> ResolutionView {
        ResolutionView { width: self.width as nat, height: self.height as nat }
    }
}

impl Resolution {
    /// Both axes are positive and fit the sixteen bits they are stored in.
    #[verifier::type_invariant]
    pub open spec fn wf(self) -> bool {
        &&& 0 < self@.width <= u16::MAX
        &&& 0 < self@.height <= u16::MAX
    }

    /// Accepts a resolution unless one of its axes is zero.
    pub fn new(width: u16, height: u16) -> (r: Result<Resolution, ConfigError>)
        ensures
            (width == 0 || height == 0) ==> r == Err::<Resolution, ConfigError>(ConfigError::ZeroResolution),
            (width > 0 && height > 0) ==> r is Ok && r->Ok_0@.width == width && r->Ok_0@.height == height,
    {
        if width == 0 || height == 0 {
            Err(ConfigError::ZeroResolution)
        } else {
            Ok(Resolution { width, height })
        }
    }

    /// Number of pixel columns.
    pub fn width(&self) -> (w: u16)
        ensures
            w == self@.width,
            w > 0,
    {
        proof {
            use_type_invariant(self);
        }
        self.width
    }

    /// Number of pixel rows.
    pub fn height(&self) -> (h: u16)
        ensures
            h == self@.height,
            h > 0,
    {
        proof {
            use_type_invariant(self);
        }
        self.height
    }
}

/// What `RenderParameters` stands for.
pub struct RenderParametersView {
    pub max_bounces: nat,
    pub samples_per_pixel: nat,
}

/// How a render pass samples: the longest path it follows and how many
/// independent samples it averages per pixel. At least one sample is taken.
#[derive(Clone, Copy, Debug, PartialEq, Eq, Structural)]
pub struct RenderParameters {
    max_bounces: u32,
    samples_per_pixel: u32,
}

impl View for RenderParameters {
    type V = RenderParametersView;

    closed spec fn view(&self) -> RenderParametersView {
        RenderParametersView {
            max_bounces: self.max_bounces as nat,
            samples_per_pixel: self.samples_per_pixel as nat,
        }
    }
}

impl RenderParameters {
    /// At least one sample per pixel; both numbers fit the thirty-two bits they are stored in.
    #[verifier::type_invariant]
    pub open spec fn wf(self) -> bool {
        &&& self@.max_bounces <= u32::MAX
        &&& 0 < self@.samples_per_pixel <= u32::MAX
    }

    /// Accepts any bounce limit, zero included, and any sample count but zero.
    pub fn new(max_bounces: u32, samples_per_pixel: u32) -> (r: Result<RenderParameters, ConfigError>)
        ensures
            samples_per_pixel == 0 ==> r == Err::<RenderParameters, ConfigError>(
                ConfigError::ZeroSamples,
            ),
            samples_per_pixel > 0 ==> r is Ok && r->Ok_0@.max_bounces == max_bounces
                && r->Ok_0@.samples_per_pixel == samples_per_pixel,
    {
        if samples_per_pixel == 0 {
            Err(ConfigError::ZeroSamples)
        } else {
            Ok(RenderParameters { max_bounces, samples_per_pixel })
        }
    }

    /// The most hits one path may record.
    pub fn max_bounces(&self) -> (n: u32)
        ensures
            n == self@.max_bounces,
    {
        self.max_bounces
    }

    /// The number of samples whose mean is a pixel's colour.
    pub fn samples_per_pixel(&self) -> (n: u32)
        ensures
            n == self@.samples_per_pixel,
            n > 0,
    {
        proof {
            use_type_invariant(self);
        }
        self.samples_per_pixel
    }
}

} // verus!
