//! The core of a path tracer: what a renderer decides, as distinct from what
//! it measures.
//!
//! A renderer casts a ray through every pixel, finds what the ray strikes,
//! bounces it on as the struck material says, and shades the hits it has
//! gathered. The measuring (where a ray meets a sphere, where it is
//! reflected to, what colour comes of it) is arithmetic on real numbers and
//! is left to the caller. This library holds the rest, and proves it:
//!
//! - `config`: the resolution and the sampling parameters, refused where
//!   they make no image;
//! - `camera`: where the centre of a pixel lies on the viewport;
//! - `keys`: integer keys that stand for measured numbers;
//! - `nearest`: the nearest hit among the candidates of one ray;
//! - `materials`: which materials end a path;
//! - `path`: the bounce state machine of one sample and the order of shading;
//! - `integrator`: following a path from the camera ray to its end, and the
//!   colour of one sample;
//! - `sampling`: the samples of a pixel and their seeds;
//! - `tiles`, `raster`: the image cut into tiles, and the slots of its pixels;
//! - `tracer`: the render: every pixel the mean of its samples, stored tile
//!   by tile; and the presented frame;
//! - `scene`: the objects and the acceleration structure built over them;
//! - `hierarchy`: the nesting invariant of that structure, and structures
//!   that were checked for it.

pub mod camera;
pub mod config;
pub mod hierarchy;
pub mod integrator;
pub mod keys;
pub mod materials;
pub mod nearest;
pub mod path;
pub mod raster;
pub mod sampling;
pub mod scene;
pub mod tiles;
pub mod tracer;
