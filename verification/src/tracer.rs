//! The render, and the presented frame.
//!
//! The caller says what it measures: the camera ray of a pixel, what a ray
//! meets, how a surface sends it on and shades it, the background where a
//! ray looks, and the mean of colours. The tracer makes the image of it:
//! every sample of every pixel is followed and shaded with its own seed,
//! every pixel is the mean of its samples, and every colour is stored at the
//! pixel's slot. The image is rendered tile by tile. Tiles can also be
//! rendered apart, by tasks of the caller, and stored afterwards in any
//! order: no two tiles share a slot.
//!
//! The presented frame is a buffer of three bytes per pixel whose rows lie
//! `pitch` bytes apart.

use vstd::prelude::*;
use crate::config::ConfigError;
use crate::config::RenderParameters;
use crate::integrator::distances_of;
use crate::integrator::lemma_missed_sample_is_background;
use crate::integrator::render_sample;
use crate::nearest::no_hit;
use crate::integrator::sampled;
use crate::integrator::Found;
use crate::integrator::Scattered;
use crate::sampling::sample_seed;
use crate::sampling::seed_of;
use crate::config::Resolution;
use crate::config::ResolutionView;
use crate::raster::lemma_place_in_tile;
use crate::raster::lemma_slot_in_image;
use crate::raster::lemma_slots_are_distinct;
use crate::raster::pixel_count;
use crate::raster::place_in_tile;
use crate::raster::slot_of;
use crate::tiles::lemma_pixel_in_its_tile;
use crate::tiles::lemma_tile_within_image;
use crate::tiles::lemma_tiles_are_disjoint;
use crate::tiles::Tile;
use crate::tiles::TileGrid;

verus! {

/// Index of the first byte of pixel `(x, y)` in a buffer with rows `pitch` bytes apart.
pub open spec fn pixel_offset(x: int, y: int, pitch: int) -> int {
    y * pitch + x * 3
}

/// Byte `i` is one of the three bytes of pixel `(x, y)`.
pub open spec fn in_pixel(x: int, y: int, pitch: int, i: int) -> bool {
    pixel_offset(x, y, pitch) <= i < pixel_offset(x, y, pitch) + 3
}

/// Byte `i` belongs to some pixel of the first `columns` columns and `rows` rows.
pub open spec fn covered(columns: int, rows: int, pitch: int, i: int) -> bool {
    exists|x: int, y: int| 0 <= x < columns && 0 <= y < rows && #[trigger] in_pixel(x, y, pitch, i)
}

/// A buffer of `len` bytes holds every pixel of a `width` by `height` image at this pitch.
pub open spec fn frame_fits(width: int, height: int, pitch: int, len: int) -> bool {
    pixel_offset(width - 1, height - 1, pitch) + 3 <= len
}

/// Every pixel in range lies inside a buffer that holds the last one.
pub proof fn lemma_offset_in_frame(width: int, height: int, pitch: int, len: int, x: int, y: int)
    requires
        0 <= x < width,
        0 <= y < height,
        0 <= pitch,
        frame_fits(width, height, pitch, len),
    ensures
        0 <= pixel_offset(x, y, pitch),
        pixel_offset(x, y, pitch) + 3 <= len,
{
    assert(0 <= y * pitch <= (height - 1) * pitch) by (nonlinear_arith)
        requires
            0 <= y <= height - 1,
            0 <= pitch,
    ;
}

/// `colour` is sample number `k` of pixel `(px, py)`: the camera gives the
/// ray of the pixel for the seed of that sample, and the colour is what
/// following and shading that ray comes to.
pub open spec fn sample_at<
    H,
    R,
    X,
    C,
    Cam: Fn(u16, u16, u64) -> R,
    P: Fn(&R) -> Vec<Option<Found<X>>>,
    S: Fn(&R, &X) -> Scattered<H, R>,
    B: Fn(&R) -> C,
    Sh: Fn(&H, C) -> C,
>(
    width: nat,
    samples: nat,
    max_bounces: nat,
    px: u16,
    py: u16,
    k: int,
    camera: Cam,
    probe: P,
    scatter: S,
    background: B,
    shade: Sh,
    colour: C,
) -> bool {
    exists|ray: R| #[trigger]
        call_ensures(
            camera,
            (px, py, seed_of(width as int, samples as int, px as int, py as int, k) as u64),
            ray,
        ) && sampled::<H, R, X, C, P, S, B, Sh>(
            max_bounces,
            ray,
            probe,
            scatter,
            background,
            shade,
            colour,
        )
}

/// `colour` is the colour of pixel `(px, py)`: what `mean` makes of the
/// samples of the pixel, taken in their order, each with its own seed.
pub open spec fn pixel_rendered<
    H,
    R,
    X,
    C,
    Cam: Fn(u16, u16, u64) -> R,
    P: Fn(&R) -> Vec<Option<Found<X>>>,
    S: Fn(&R, &X) -> Scattered<H, R>,
    B: Fn(&R) -> C,
    Sh: Fn(&H, C) -> C,
    M: Fn(Vec<C>) -> C,
>(
    width: nat,
    samples: nat,
    max_bounces: nat,
    px: u16,
    py: u16,
    camera: Cam,
    probe: P,
    scatter: S,
    background: B,
    shade: Sh,
    mean: M,
    colour: C,
) -> bool {
    exists|taken: Vec<C>| #[trigger]
        call_ensures(mean, (taken,), colour) && taken@.len() == samples && forall|k: int|
            0 <= k < samples ==> sample_at::<H, R, X, C, Cam, P, S, B, Sh>(
                width,
                samples,
                max_bounces,
                px,
                py,
                k,
                camera,
                probe,
                scatter,
                background,
                shade,
                #[trigger] taken@[k],
            )
}

/// `colour` is the background where the camera ray of sample number `k` of
/// pixel `(px, py)` looks.
pub open spec fn background_at<R, C, Cam: Fn(u16, u16, u64) -> R, B: Fn(&R) -> C>(
    width: nat,
    samples: nat,
    px: u16,
    py: u16,
    k: int,
    camera: Cam,
    background: B,
    colour: C,
) -> bool {
    exists|ray: R| #[trigger]
        call_ensures(
            camera,
            (px, py, seed_of(width as int, samples as int, px as int, py as int, k) as u64),
            ray,
        ) && call_ensures(background, (&ray,), colour)
}

/// Where no ray that the camera gives for the pixel hits a candidate, the
/// colour of the pixel is what `mean` makes of backgrounds alone: every
/// sample is the background where its own camera ray looks, and no surface
/// is shaded. This holds for every sample count and every bounce limit.
pub proof fn lemma_pixel_that_misses_is_mean_of_backgrounds<
    H,
    R,
    X,
    C,
    Cam: Fn(u16, u16, u64) -> R,
    P: Fn(&R) -> Vec<Option<Found<X>>>,
    S: Fn(&R, &X) -> Scattered<H, R>,
    B: Fn(&R) -> C,
    Sh: Fn(&H, C) -> C,
    M: Fn(Vec<C>) -> C,
>(
    width: nat,
    samples: nat,
    max_bounces: nat,
    px: u16,
    py: u16,
    camera: Cam,
    probe: P,
    scatter: S,
    background: B,
    shade: Sh,
    mean: M,
    colour: C,
)
    requires
        max_bounces <= u32::MAX,
        pixel_rendered::<H, R, X, C, Cam, P, S, B, Sh, M>(
            width,
            samples,
            max_bounces,
            px,
            py,
            camera,
            probe,
            scatter,
            background,
            shade,
            mean,
            colour,
        ),
        forall|seed: u64, ray: R, found: Vec<Option<Found<X>>>|
            #![trigger call_ensures(camera, (px, py, seed), ray), call_ensures(probe, (&ray,), found)]
            call_ensures(camera, (px, py, seed), ray) && call_ensures(probe, (&ray,), found)
                ==> no_hit(distances_of(found@)),
    ensures
        exists|taken: Vec<C>| #[trigger]
            call_ensures(mean, (taken,), colour) && taken@.len() == samples && forall|k: int|
                0 <= k < samples ==> background_at(
                    width,
                    samples,
                    px,
                    py,
                    k,
                    camera,
                    background,
                    #[trigger] taken@[k],
                ),
{
    let taken = choose|taken: Vec<C>| #[trigger]
        call_ensures(mean, (taken,), colour) && taken@.len() == samples && forall|k: int|
            0 <= k < samples ==> sample_at::<H, R, X, C, Cam, P, S, B, Sh>(
                width,
                samples,
                max_bounces,
                px,
                py,
                k,
                camera,
                probe,
                scatter,
                background,
                shade,
                #[trigger] taken@[k],
            );
    assert forall|k: int| 0 <= k < samples implies background_at(
        width,
        samples,
        px,
        py,
        k,
        camera,
        background,
        #[trigger] taken@[k],
    ) by {
        let seed = seed_of(width as int, samples as int, px as int, py as int, k) as u64;
        assert(sample_at::<H, R, X, C, Cam, P, S, B, Sh>(
            width,
            samples,
            max_bounces,
            px,
            py,
            k,
            camera,
            probe,
            scatter,
            background,
            shade,
            taken@[k],
        ));
        let ray = choose|ray: R| #[trigger]
            call_ensures(camera, (px, py, seed), ray) && sampled::<H, R, X, C, P, S, B, Sh>(
                max_bounces,
                ray,
                probe,
                scatter,
                background,
                shade,
                taken@[k],
            );
        lemma_missed_sample_is_background::<H, R, X, C, P, S, B, Sh>(
            max_bounces,
            ray,
            probe,
            scatter,
            background,
            shade,
            taken@[k],
        );
    }
}

/// Renders images of one size.
pub struct Tracer {
    resolution: Resolution,
}

impl View for Tracer {
    type V = ResolutionView;

    closed spec fn view(&self) -> ResolutionView {
        self.resolution@
    }
}

impl Tracer {
    /// A tracer for images of the given size.
    pub fn new(resolution: Resolution) -> (t: Tracer)
        ensures
            t@ == resolution@,
    {
        Tracer { resolution }
    }

    /// The size of the images this tracer renders.
    pub fn resolution(&self) -> (r: Resolution)
        ensures
            r@ == self@,
    {
        self.resolution
    }

    /// Whether a buffer of `len` bytes with rows `pitch` bytes apart holds
    /// every pixel of the image.
    pub fn holds_frame(&self, len: usize, pitch: usize) -> (b: bool)
        ensures
            b == frame_fits(self@.width as int, self@.height as int, pitch as int, len as int),
    {
        let width: u128 = self.resolution.width() as u128;
        let height: u128 = self.resolution.height() as u128;
        assert((height - 1) * pitch <= 0xffff * 0xffff_ffff_ffff_ffff) by (nonlinear_arith)
            requires
                0 <= height - 1 <= 0xffff,
                0 <= pitch <= 0xffff_ffff_ffff_ffff,
        ;
        (height - 1) * (pitch as u128) + (width - 1) * 3 + 3 <= len as u128
    }

    /// Blackens every pixel of the frame and leaves the bytes between the
    /// pixels (row padding) as they were.
    pub fn clear(&self, buffer: &mut [u8], pitch: usize)
        requires
            frame_fits(self@.width as int, self@.height as int, pitch as int, old(buffer)@.len() as int),
        ensures
            final(buffer)@.len() == old(buffer)@.len(),
            forall|i: int|
                0 <= i < old(buffer)@.len() ==> #[trigger] final(buffer)@[i] == (if covered(
                    self@.width as int,
                    self@.height as int,
                    pitch as int,
                    i,
                ) {
                    0u8
                } else {
                    old(buffer)@[i]
                }),
    {
        let width: usize = self.resolution.width() as usize;
        let height: usize = self.resolution.height() as usize;
        let ghost before = buffer@;
        let mut x: usize = 0;
        while x < width
            invariant
                x <= width,
                width == self@.width,
                height == self@.height,
                frame_fits(width as int, height as int, pitch as int, before.len() as int),
                buffer@.len() == before.len(),
                forall|i: int|
                    0 <= i < before.len() ==> #[trigger] buffer@[i] == (if covered(
                        x as int,
                        height as int,
                        pitch as int,
                        i,
                    ) {
                        0u8
                    } else {
                        before[i]
                    }),
            decreases width - x,
        {
            let mut y: usize = 0;
            while y < height
                invariant
                    x < width,
                    y <= height,
                    frame_fits(width as int, height as int, pitch as int, before.len() as int),
                    buffer@.len() == before.len(),
                    forall|i: int|
                        0 <= i < before.len() ==> #[trigger] buffer@[i] == (if covered(
                            x as int,
                            height as int,
                            pitch as int,
                            i,
                        ) || covered_in_column(x as int, y as int, pitch as int, i) {
                            0u8
                        } else {
                            before[i]
                        }),
                decreases height - y,
            {
                proof {
                    lemma_offset_in_frame(
                        width as int,
                        height as int,
                        pitch as int,
                        before.len() as int,
                        x as int,
                        y as int,
                    );
                    assert(y * pitch >= 0) by (nonlinear_arith)
                        requires
                            y >= 0,
                            pitch >= 0,
                    ;
                    assert(buffer@.len() == buffer.len());
                    assert(pixel_offset(x as int, y as int, pitch as int) == y * pitch + x * 3);
                }
                let offset: usize = y * pitch + x * 3;
                let ghost prior = buffer@;
                buffer[offset] = 0;
                buffer[offset + 1] = 0;
                buffer[offset + 2] = 0;
                proof {
                    assert forall|i: int| 0 <= i < before.len() implies #[trigger] buffer@[i] == (
                    if covered(x as int, height as int, pitch as int, i) || covered_in_column(
                        x as int,
                        y as int + 1,
                        pitch as int,
                        i,
                    ) {
                        0u8
                    } else {
                        before[i]
                    }) by {
                        if in_pixel(x as int, y as int, pitch as int, i) {
                            assert(covered_in_column(x as int, y as int + 1, pitch as int, i));
                        } else {
                            assert(buffer@[i] == prior[i]);
                            if covered_in_column(x as int, y as int + 1, pitch as int, i) {
                                let yy = choose|yy: int|
                                    0 <= yy < y as int + 1 && #[trigger] in_pixel(
                                        x as int,
                                        yy,
                                        pitch as int,
                                        i,
                                    );
                                assert(yy != y);
                                assert(covered_in_column(x as int, y as int, pitch as int, i));
                            }
                            if covered_in_column(x as int, y as int, pitch as int, i) {
                                let yy = choose|yy: int|
                                    0 <= yy < y as int && #[trigger] in_pixel(
                                        x as int,
                                        yy,
                                        pitch as int,
                                        i,
                                    );
                                assert(in_pixel(x as int, yy, pitch as int, i));
                                assert(covered_in_column(x as int, y as int + 1, pitch as int, i));
                            }
                        }
                    }
                }
                y = y + 1;
            }
            proof {
                assert forall|i: int| 0 <= i < before.len() implies #[trigger] buffer@[i] == (
                if covered(x as int + 1, height as int, pitch as int, i) {
                    0u8
                } else {
                    before[i]
                }) by {
                    lemma_cover_grows(x as int, height as int, pitch as int, i);
                }
            }
            x = x + 1;
        }
    }
}

impl Tracer {
    /// The colour of one pixel: every sample of the pixel is evaluated with
    /// its own seed, from the camera ray to the shaded path, and `mean`
    /// makes one colour of them. Returns `None`, without evaluating
    /// anything, where the image has no such pixel.
    pub fn render_pixel<
        H,
        R,
        X,
        C,
        Cam: Fn(u16, u16, u64) -> R,
        P: Fn(&R) -> Vec<Option<Found<X>>>,
        S: Fn(&R, &X) -> Scattered<H, R>,
        B: Fn(&R) -> C,
        Sh: Fn(&H, C) -> C,
        M: Fn(Vec<C>) -> C,
    >(
        &self,
        parameters: &RenderParameters,
        px: u16,
        py: u16,
        camera: &Cam,
        probe: &P,
        scatter: &S,
        background: &B,
        shade: &Sh,
        mean: &M,
    ) -> (colour: Option<C>)
        requires
            forall|x: u16, y: u16, seed: u64| #[trigger] call_requires(camera, (x, y, seed)),
            forall|ray: &R| #[trigger] call_requires(probe, (ray,)),
            forall|ray: &R, candidate: &X| #[trigger] call_requires(scatter, (ray, candidate)),
            forall|ray: &R| #[trigger] call_requires(background, (ray,)),
            forall|hit: &H, beneath: C| #[trigger] call_requires(shade, (hit, beneath)),
            forall|taken: Vec<C>| #[trigger] call_requires(mean, (taken,)),
        ensures
            !(px < self@.width && py < self@.height) ==> colour is None,
            (px < self@.width && py < self@.height) ==> colour is Some && pixel_rendered::<
                H,
                R,
                X,
                C,
                Cam,
                P,
                S,
                B,
                Sh,
                M,
            >(
                self@.width,
                parameters@.samples_per_pixel,
                parameters@.max_bounces,
                px,
                py,
                *camera,
                *probe,
                *scatter,
                *background,
                *shade,
                *mean,
                colour->Some_0,
            ),
    {
        if px >= self.resolution.width() || py >= self.resolution.height() {
            return None;
        }
        let count: u32 = parameters.samples_per_pixel();
        let max_bounces: u32 = parameters.max_bounces();
        let mut taken: Vec<C> = Vec::new();
        let mut sample: u32 = 0;
        while sample < count
            invariant
                sample <= count,
                count == parameters@.samples_per_pixel,
                max_bounces == parameters@.max_bounces,
                px < self@.width,
                py < self@.height,
                self@ == self.resolution@,
                taken@.len() == sample,
                forall|x: u16, y: u16, seed: u64| #[trigger] call_requires(camera, (x, y, seed)),
                forall|ray: &R| #[trigger] call_requires(probe, (ray,)),
                forall|ray: &R, candidate: &X| #[trigger] call_requires(scatter, (ray, candidate)),
                forall|ray: &R| #[trigger] call_requires(background, (ray,)),
                forall|hit: &H, beneath: C| #[trigger] call_requires(shade, (hit, beneath)),
                forall|k: int|
                    0 <= k < sample ==> sample_at::<H, R, X, C, Cam, P, S, B, Sh>(
                        self@.width,
                        parameters@.samples_per_pixel,
                        parameters@.max_bounces,
                        px,
                        py,
                        k,
                        *camera,
                        *probe,
                        *scatter,
                        *background,
                        *shade,
                        #[trigger] taken@[k],
                    ),
            decreases count - sample,
        {
            let seed = sample_seed(&self.resolution, parameters, px, py, sample).unwrap();
            let ray = camera(px, py, seed);
            let ghost cast = ray;
            let colour = render_sample(max_bounces, ray, probe, scatter, background, shade);
            proof {
                assert(call_ensures(
                    *camera,
                    (
                        px,
                        py,
                        seed_of(
                            self@.width as int,
                            parameters@.samples_per_pixel as int,
                            px as int,
                            py as int,
                            sample as int,
                        ) as u64,
                    ),
                    cast,
                ));
                assert(sample_at::<H, R, X, C, Cam, P, S, B, Sh>(
                    self@.width,
                    parameters@.samples_per_pixel,
                    parameters@.max_bounces,
                    px,
                    py,
                    sample as int,
                    *camera,
                    *probe,
                    *scatter,
                    *background,
                    *shade,
                    colour,
                ));
            }
            taken.push(colour);
            sample = sample + 1;
        }
        let ghost samples = taken;
        let colour = mean(taken);
        proof {
            assert(call_ensures(*mean, (samples,), colour));
        }
        Some(colour)
    }

    /// Renders the image: every pixel gets the colour that `render_pixel`
    /// gives it, stored at the pixel's slot. The image is rendered tile by
    /// tile; a tile size of zero is rejected before anything is evaluated.
    pub fn render<
        H,
        R,
        X,
        C: Copy,
        Cam: Fn(u16, u16, u64) -> R,
        P: Fn(&R) -> Vec<Option<Found<X>>>,
        S: Fn(&R, &X) -> Scattered<H, R>,
        B: Fn(&R) -> C,
        Sh: Fn(&H, C) -> C,
        M: Fn(Vec<C>) -> C,
    >(
        &self,
        parameters: &RenderParameters,
        tile_size: u16,
        blank: C,
        camera: &Cam,
        probe: &P,
        scatter: &S,
        background: &B,
        shade: &Sh,
        mean: &M,
    ) -> (r: Result<Vec<C>, ConfigError>)
        requires
            forall|x: u16, y: u16, seed: u64| #[trigger] call_requires(camera, (x, y, seed)),
            forall|ray: &R| #[trigger] call_requires(probe, (ray,)),
            forall|ray: &R, candidate: &X| #[trigger] call_requires(scatter, (ray, candidate)),
            forall|ray: &R| #[trigger] call_requires(background, (ray,)),
            forall|hit: &H, beneath: C| #[trigger] call_requires(shade, (hit, beneath)),
            forall|taken: Vec<C>| #[trigger] call_requires(mean, (taken,)),
        ensures
            tile_size == 0 ==> r is Err && r->Err_0 == ConfigError::ZeroTileSize,
            tile_size > 0 ==> r is Ok && r->Ok_0@.len() == self@.width * self@.height,
            tile_size > 0 ==> forall|px: u16, py: u16|
                px < self@.width && py < self@.height ==> pixel_rendered::<
                    H,
                    R,
                    X,
                    C,
                    Cam,
                    P,
                    S,
                    B,
                    Sh,
                    M,
                >(
                    self@.width,
                    parameters@.samples_per_pixel,
                    parameters@.max_bounces,
                    px,
                    py,
                    *camera,
                    *probe,
                    *scatter,
                    *background,
                    *shade,
                    *mean,
                    r->Ok_0@[#[trigger] slot_of(self@.width as int, px as int, py as int)],
                ),
    {
        let pixel = |px: u16, py: u16| -> (colour: C)
            requires
                px < self@.width,
                py < self@.height,
            ensures
                pixel_rendered::<H, R, X, C, Cam, P, S, B, Sh, M>(
                    self@.width,
                    parameters@.samples_per_pixel,
                    parameters@.max_bounces,
                    px,
                    py,
                    *camera,
                    *probe,
                    *scatter,
                    *background,
                    *shade,
                    *mean,
                    colour,
                ),
            {
                self.render_pixel(
                    parameters,
                    px,
                    py,
                    camera,
                    probe,
                    scatter,
                    background,
                    shade,
                    mean,
                ).unwrap()
            };
        self.render_image(tile_size, blank, &pixel)
    }

    /// Evaluates `shade` once at every pixel of a tile. The results come in
    /// the order of the tile's pixels, along its rows from the top left.
    pub fn render_tile<C, F: Fn(u16, u16) -> C>(&self, tile: &Tile, shade: &F) -> (pixels: Vec<C>)
        requires
            tile.within(self@.width as int, self@.height as int),
            forall|px: u16, py: u16|
                tile.contains(px as int, py as int) ==> call_requires(shade, (px, py)),
        ensures
            pixels@.len() == tile.area(),
            forall|k: int|
                0 <= k < tile.area() ==> call_ensures(
                    shade,
                    (tile.pixel(k).0 as u16, tile.pixel(k).1 as u16),
                    #[trigger] pixels@[k],
                ),
    {
        proof {
            use_type_invariant(&self.resolution);
        }
        let mut pixels: Vec<C> = Vec::new();
        let mut row: u16 = 0;
        while row < tile.height
            invariant
                row <= tile.height,
                tile.x + tile.width <= u16::MAX,
                tile.y + tile.height <= u16::MAX,
                pixels@.len() == row * tile.width,
                forall|px: u16, py: u16|
                    tile.contains(px as int, py as int) ==> call_requires(shade, (px, py)),
                forall|k: int|
                    0 <= k < pixels@.len() ==> call_ensures(
                        shade,
                        (tile.pixel(k).0 as u16, tile.pixel(k).1 as u16),
                        #[trigger] pixels@[k],
                    ),
            decreases tile.height - row,
        {
            let mut column: u16 = 0;
            while column < tile.width
                invariant
                    row < tile.height,
                    column <= tile.width,
                    tile.x + tile.width <= u16::MAX,
                    tile.y + tile.height <= u16::MAX,
                    pixels@.len() == row * tile.width + column,
                    forall|px: u16, py: u16|
                        tile.contains(px as int, py as int) ==> call_requires(shade, (px, py)),
                    forall|k: int|
                        0 <= k < pixels@.len() ==> call_ensures(
                            shade,
                            (tile.pixel(k).0 as u16, tile.pixel(k).1 as u16),
                            #[trigger] pixels@[k],
                        ),
                decreases tile.width - column,
            {
                let px: u16 = tile.x + column;
                let py: u16 = tile.y + row;
                proof {
                    lemma_place_in_tile(*tile, px as int, py as int);
                    assert(place_in_tile(*tile, px as int, py as int) == pixels@.len());
                    assert(tile.contains(px as int, py as int));
                    assert(call_requires(shade, (px, py)));
                }
                let colour = shade(px, py);
                pixels.push(colour);
                column = column + 1;
            }
            proof {
                assert((row + 1) * tile.width == row * tile.width + tile.width)
                    by (nonlinear_arith);
            }
            row = row + 1;
        }
        proof {
            assert(tile.height * tile.width == tile.width * tile.height) by (nonlinear_arith);
        }
        pixels
    }

    /// Writes the pixels of one tile to their slots in the image. Every
    /// other slot keeps what it held.
    pub fn store_tile<C: Copy>(&self, image: &mut Vec<C>, tile: &Tile, pixels: &Vec<C>)
        requires
            old(image)@.len() == self@.width * self@.height,
            tile.within(self@.width as int, self@.height as int),
            pixels@.len() == tile.area(),
        ensures
            final(image)@.len() == old(image)@.len(),
            forall|px: int, py: int|
                0 <= px < self@.width && 0 <= py < self@.height ==> final(image)@[#[trigger] slot_of(
                    self@.width as int,
                    px,
                    py,
                )] == (if tile.contains(px, py) {
                    pixels@[place_in_tile(*tile, px, py)]
                } else {
                    old(image)@[slot_of(self@.width as int, px, py)]
                }),
    {
        proof {
            use_type_invariant(&self.resolution);
        }
        let width: usize = self.resolution.width() as usize;
        let ghost before = image@;
        let ghost w = self@.width as int;
        let ghost h = self@.height as int;
        let mut row: u16 = 0;
        while row < tile.height
            invariant
                row <= tile.height,
                width == w,
                w == self@.width,
                h == self@.height,
                0 < w <= u16::MAX,
                tile.within(w, h),
                before.len() == w * h,
                image@.len() == before.len(),
                pixels@.len() == tile.area(),
                forall|px: int, py: int|
                    0 <= px < w && 0 <= py < h ==> image@[#[trigger] slot_of(w, px, py)] == (
                    if tile.contains(px, py) && py < tile.y + row {
                        pixels@[place_in_tile(*tile, px, py)]
                    } else {
                        before[slot_of(w, px, py)]
                    }),
            decreases tile.height - row,
        {
            let mut column: u16 = 0;
            while column < tile.width
                invariant
                    row < tile.height,
                    column <= tile.width,
                    width == w,
                    w == self@.width,
                    h == self@.height,
                    0 < w <= u16::MAX,
                    tile.within(w, h),
                    before.len() == w * h,
                    image@.len() == before.len(),
                    pixels@.len() == tile.area(),
                    forall|px: int, py: int|
                        0 <= px < w && 0 <= py < h ==> image@[#[trigger] slot_of(w, px, py)] == (
                        if tile.contains(px, py) && (py < tile.y + row || (py == tile.y + row
                            && px < tile.x + column)) {
                            pixels@[place_in_tile(*tile, px, py)]
                        } else {
                            before[slot_of(w, px, py)]
                        }),
                decreases tile.width - column,
            {
                let px: usize = tile.x as usize + column as usize;
                let py: usize = tile.y as usize + row as usize;
                proof {
                    lemma_slot_in_image(w, h, px as int, py as int);
                    lemma_place_in_tile(*tile, px as int, py as int);
                    assert(py * width >= 0) by (nonlinear_arith)
                        requires
                            py >= 0,
                            width >= 0,
                    ;
                    assert(row * tile.width >= 0) by (nonlinear_arith)
                        requires
                            row >= 0,
                            tile.width >= 0,
                    ;
                    assert(image@.len() == image.len());
                    assert(pixels@.len() == pixels.len());
                }
                let from: usize = row as usize * tile.width as usize + column as usize;
                let to: usize = py * width + px;
                let ghost prior = image@;
                image[to] = pixels[from];
                proof {
                    assert forall|qx: int, qy: int| 0 <= qx < w && 0 <= qy < h implies image@[#[trigger] slot_of(
                        w,
                        qx,
                        qy,
                    )] == (if tile.contains(qx, qy) && (qy < tile.y + row || (qy == tile.y + row
                        && qx < tile.x + column + 1)) {
                        pixels@[place_in_tile(*tile, qx, qy)]
                    } else {
                        before[slot_of(w, qx, qy)]
                    }) by {
                        lemma_slot_in_image(w, h, qx, qy);
                        if slot_of(w, qx, qy) == to {
                            lemma_slots_are_distinct(w, qx, qy, px as int, py as int);
                        } else {
                            assert(image@[slot_of(w, qx, qy)] == prior[slot_of(w, qx, qy)]);
                        }
                    }
                }
                column = column + 1;
            }
            row = row + 1;
        }
    }

    /// Renders the whole image tile by tile: `shade` is evaluated once at
    /// every pixel and its result stored at the pixel's slot. A tile size of
    /// zero is rejected before anything is evaluated.
    pub fn render_image<C: Copy, F: Fn(u16, u16) -> C>(
        &self,
        tile_size: u16,
        blank: C,
        shade: &F,
    ) -> (r: Result<Vec<C>, ConfigError>)
        requires
            forall|px: u16, py: u16|
                tile_size > 0 && px < self@.width && py < self@.height ==> call_requires(
                    shade,
                    (px, py),
                ),
        ensures
            tile_size == 0 ==> r is Err && r->Err_0 == ConfigError::ZeroTileSize,
            tile_size > 0 ==> r is Ok && r->Ok_0@.len() == self@.width * self@.height,
            tile_size > 0 ==> forall|px: u16, py: u16|
                px < self@.width && py < self@.height ==> call_ensures(
                    shade,
                    (px, py),
                    r->Ok_0@[#[trigger] slot_of(self@.width as int, px as int, py as int)],
                ),
    {
        let grid = match TileGrid::new(self.resolution, tile_size) {
            Ok(grid) => grid,
            Err(e) => {
                return Err(e);
            },
        };
        proof {
            use_type_invariant(&self.resolution);
            use_type_invariant(&grid);
        }
        let ghost w = self@.width as int;
        let ghost h = self@.height as int;
        let slots: usize = pixel_count(&self.resolution);
        let mut image: Vec<C> = Vec::new();
        let mut filled: usize = 0;
        while filled < slots
            invariant
                filled <= slots,
                image@.len() == filled,
            decreases slots - filled,
        {
            image.push(blank);
            filled = filled + 1;
        }
        let count: u32 = grid.tile_count();
        let mut index: u32 = 0;
        while index < count
            invariant
                index <= count,
                count == grid@.count(),
                grid@.wf(),
                grid@.width == w,
                grid@.height == h,
                w == self@.width,
                h == self@.height,
                image@.len() == w * h,
                forall|px: u16, py: u16|
                    px < self@.width && py < self@.height ==> call_requires(shade, (px, py)),
                forall|px: u16, py: u16|
                    px < w && py < h && grid@.index_of(px as int, py as int) < index
                        ==> call_ensures(
                        shade,
                        (px, py),
                        image@[#[trigger] slot_of(w, px as int, py as int)],
                    ),
            decreases count - index,
        {
            let tile = grid.tile(index).unwrap();
            proof {
                lemma_tile_within_image(grid@, index as int);
                assert forall|px: u16, py: u16|
                    tile.contains(px as int, py as int) implies call_requires(
                    shade,
                    (px, py),
                ) by {
                    lemma_tiles_are_disjoint(grid@, index as int, px as int, py as int);
                }
            }
            let pixels = self.render_tile(&tile, shade);
            let ghost prior = image@;
            self.store_tile(&mut image, &tile, &pixels);
            proof {
                assert forall|px: u16, py: u16|
                    px < w && py < h && grid@.index_of(px as int, py as int) < index
                        + 1 implies call_ensures(
                    shade,
                    (px, py),
                    image@[#[trigger] slot_of(w, px as int, py as int)],
                ) by {
                    lemma_pixel_in_its_tile(grid@, px as int, py as int);
                    if tile.contains(px as int, py as int) {
                        lemma_place_in_tile(tile, px as int, py as int);
                    } else {
                        assert(grid@.index_of(px as int, py as int) != index);
                        assert(image@[slot_of(w, px as int, py as int)] == prior[slot_of(
                            w,
                            px as int,
                            py as int,
                        )]);
                    }
                }
            }
            index = index + 1;
        }
        proof {
            assert forall|px: u16, py: u16| px < w && py < h implies call_ensures(
                shade,
                (px, py),
                image@[#[trigger] slot_of(w, px as int, py as int)],
            ) by {
                lemma_pixel_in_its_tile(grid@, px as int, py as int);
            }
        }
        Ok(image)
    }
}

/// Byte `i` belongs to one of the first `rows` pixels of column `x`.
pub open spec fn covered_in_column(x: int, rows: int, pitch: int, i: int) -> bool {
    exists|y: int| 0 <= y < rows && #[trigger] in_pixel(x, y, pitch, i)
}

/// The bytes of the first `x + 1` columns are those of the first `x` columns
/// together with those of column `x`.
proof fn lemma_cover_grows(x: int, rows: int, pitch: int, i: int)
    requires
        0 <= x,
    ensures
        covered(x + 1, rows, pitch, i) <==> covered(x, rows, pitch, i) || covered_in_column(
            x,
            rows,
            pitch,
            i,
        ),
{
    if covered(x + 1, rows, pitch, i) {
        let (cx, cy) = choose|cx: int, cy: int|
            0 <= cx < x + 1 && 0 <= cy < rows && #[trigger] in_pixel(cx, cy, pitch, i);
        if cx == x {
            assert(in_pixel(x, cy, pitch, i));
            assert(covered_in_column(x, rows, pitch, i));
        } else {
            assert(in_pixel(cx, cy, pitch, i));
            assert(covered(x, rows, pitch, i));
        }
    }
    if covered(x, rows, pitch, i) {
        let (cx, cy) = choose|cx: int, cy: int|
            0 <= cx < x && 0 <= cy < rows && #[trigger] in_pixel(cx, cy, pitch, i);
        assert(in_pixel(cx, cy, pitch, i));
        assert(covered(x + 1, rows, pitch, i));
    }
    if covered_in_column(x, rows, pitch, i) {
        let cy = choose|cy: int| 0 <= cy < rows && #[trigger] in_pixel(x, cy, pitch, i);
        assert(in_pixel(x, cy, pitch, i));
        assert(covered(x + 1, rows, pitch, i));
    }
}

} // verus!
