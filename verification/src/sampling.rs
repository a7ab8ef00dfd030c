//! The samples of a pixel. Every sample of every pixel gets a seed of its
//! own, so that each evaluation draws from a private random source and the
//! same image comes out in whatever order the samples are evaluated.

use vstd::prelude::*;
use vstd::arithmetic::div_mod::lemma_fundamental_div_mod_converse;
use vstd::arithmetic::mul::lemma_mul_inequality;
use vstd::arithmetic::mul::lemma_mul_nonnegative;
use crate::config::RenderParameters;
use crate::config::Resolution;
use crate::raster::lemma_slot_in_image;
use crate::raster::lemma_slots_are_distinct;
use crate::raster::slot;
use crate::raster::slot_of;

verus! {

/// The seed of sample number `sample` of pixel `(px, py)`: the samples of
/// one pixel follow one another, pixel after pixel in the order of their slots.
pub open spec fn seed_of(width: int, samples: int, px: int, py: int, sample: int) -> int {
    slot_of(width, px, py) * samples + sample
}

/// The seeds of an image are the numbers below pixels times samples.
pub proof fn lemma_seed_in_range(
    width: int,
    height: int,
    samples: int,
    px: int,
    py: int,
    sample: int,
)
    requires
        0 <= px < width,
        0 <= py < height,
        0 <= sample < samples,
    ensures
        0 <= seed_of(width, samples, px, py, sample) < width * height * samples,
{
    lemma_slot_in_image(width, height, px, py);
    let s = slot_of(width, px, py);
    let n = width * height;
    lemma_mul_nonnegative(s, samples);
    lemma_mul_inequality(s + 1, n, samples);
    assert((s + 1) * samples == s * samples + samples) by (nonlinear_arith);
}

/// Two samples with the same seed are the same sample of the same pixel.
pub proof fn lemma_seeds_are_distinct(
    width: int,
    samples: int,
    px: int,
    py: int,
    sample: int,
    qx: int,
    qy: int,
    other: int,
)
    requires
        0 <= px < width,
        0 <= qx < width,
        0 <= sample < samples,
        0 <= other < samples,
        seed_of(width, samples, px, py, sample) == seed_of(width, samples, qx, qy, other),
    ensures
        px == qx,
        py == qy,
        sample == other,
{
    let s = slot_of(width, px, py);
    let t = slot_of(width, qx, qy);
    let seed = s * samples + sample;
    lemma_fundamental_div_mod_converse(seed, samples, s, sample);
    lemma_fundamental_div_mod_converse(seed, samples, t, other);
    lemma_slots_are_distinct(width, px, py, qx, qy);
}

/// The seed of one sample of one pixel, or `None` where the image has no
/// such pixel or the pixel no such sample.
pub fn sample_seed(
    resolution: &Resolution,
    parameters: &RenderParameters,
    px: u16,
    py: u16,
    sample: u32,
) -> (seed: Option<u64>)
    ensures
        (px < resolution@.width && py < resolution@.height && sample
            < parameters@.samples_per_pixel) ==> seed is Some && seed->Some_0 == seed_of(
            resolution@.width as int,
            parameters@.samples_per_pixel as int,
            px as int,
            py as int,
            sample as int,
        ),
        !(px < resolution@.width && py < resolution@.height && sample
            < parameters@.samples_per_pixel) ==> seed is None,
{
    let samples: u64 = parameters.samples_per_pixel() as u64;
    if sample as u64 >= samples {
        return None;
    }
    match slot(resolution, px, py) {
        None => None,
        Some(s) => {
            proof {
                use_type_invariant(resolution);
                use_type_invariant(parameters);
                let w = resolution@.width as int;
                let h = resolution@.height as int;
                lemma_slot_in_image(w, h, px as int, py as int);
                lemma_seed_in_range(w, h, samples as int, px as int, py as int, sample as int);
                assert(w * h * samples <= 0xffff * 0xffff * 0xffff_ffff) by (nonlinear_arith)
                    requires
                        0 < w <= 0xffff,
                        0 < h <= 0xffff,
                        0 < samples <= 0xffff_ffff,
                ;
                assert(s * samples >= 0) by (nonlinear_arith)
                    requires
                        s >= 0,
                        samples >= 0,
                ;
            }
            Some(s as u64 * samples + sample as u64)
        },
    }
}

/// Evaluates every sample of one pixel, each with its own seed, and returns
/// the results in the order of the samples. The colour of the pixel is their
/// mean, which the caller takes. Returns `None`, without evaluating
/// anything, where the image has no such pixel.
pub fn sample_pixel<C, F: Fn(u64) -> C>(
    resolution: &Resolution,
    parameters: &RenderParameters,
    px: u16,
    py: u16,
    evaluate: &F,
) -> (samples: Option<Vec<C>>)
    requires
        forall|k: int|
            px < resolution@.width && py < resolution@.height && 0 <= k
                < parameters@.samples_per_pixel ==> call_requires(
                evaluate,
                (
                    #[trigger] seed_of(
                        resolution@.width as int,
                        parameters@.samples_per_pixel as int,
                        px as int,
                        py as int,
                        k,
                    ) as u64,
                ),
            ),
    ensures
        !(px < resolution@.width && py < resolution@.height) ==> samples is None,
        (px < resolution@.width && py < resolution@.height) ==> samples is Some
            && samples->Some_0@.len() == parameters@.samples_per_pixel && forall|k: int|
            0 <= k < parameters@.samples_per_pixel ==> call_ensures(
                evaluate,
                (
                    seed_of(
                        resolution@.width as int,
                        parameters@.samples_per_pixel as int,
                        px as int,
                        py as int,
                        k,
                    ) as u64,
                ),
                #[trigger] samples->Some_0@[k],
            ),
{
    if px >= resolution.width() || py >= resolution.height() {
        return None;
    }
    let count: u32 = parameters.samples_per_pixel();
    let mut results: Vec<C> = Vec::new();
    let mut sample: u32 = 0;
    while sample < count
        invariant
            sample <= count,
            count == parameters@.samples_per_pixel,
            px < resolution@.width,
            py < resolution@.height,
            results@.len() == sample,
            forall|k: int|
                0 <= k < parameters@.samples_per_pixel ==> call_requires(
                    evaluate,
                    (
                        #[trigger] seed_of(
                            resolution@.width as int,
                            parameters@.samples_per_pixel as int,
                            px as int,
                            py as int,
                            k,
                        ) as u64,
                    ),
                ),
            forall|k: int|
                0 <= k < sample ==> call_ensures(
                    evaluate,
                    (
                        seed_of(
                            resolution@.width as int,
                            parameters@.samples_per_pixel as int,
                            px as int,
                            py as int,
                            k,
                        ) as u64,
                    ),
                    #[trigger] results@[k],
                ),
        decreases count - sample,
    {
        let seed = sample_seed(resolution, parameters, px, py, sample).unwrap();
        assert(seed == seed_of(
            resolution@.width as int,
            parameters@.samples_per_pixel as int,
            px as int,
            py as int,
            sample as int,
        ) as u64);
        let result = evaluate(seed);
        results.push(result);
        sample = sample + 1;
    }
    Some(results)
}

} // verus!
