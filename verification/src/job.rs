//! One run from image to pattern: sample, then reduce.

use vstd::prelude::*;
use crate::cancel::CancelToken;
use crate::cluster::{reduce, reduced};
use crate::config::Config;
use crate::image::{Image, PixelBuffer};
use crate::point::ColorPoint;
use crate::sampler::{sample, sampled};

verus! {

/// The number of colours that `config` allows: none where the setting is
/// negative.
pub open spec fn target_colors(config: Config) -> nat {
    if config.num_colors < 0 {
        0
    } else {
        config.num_colors as nat
    }
}

/// The pattern of `image` under `config`: the grid sampled from the image
/// and reduced to the colours that the settings allow.
pub open spec fn pattern(image: Image, config: Config) -> Seq<ColorPoint> {
    reduced(
        sampled(image, config.num_width as int, config.num_height as int),
        target_colors(config),
    )
}

/// Computes the pattern of `image` under `config`.
///
/// The token is polled throughout. If it trips, or had tripped before,
/// nothing comes back; if it does not, the pattern does.
pub fn update_pattern(image: &PixelBuffer, config: &Config, token: &mut CancelToken) -> (points: Vec<ColorPoint>)
    ensures
        final(token).tripped() ==> points@.len() == 0,
        !final(token).tripped() ==> points@ == pattern(image@, *config),
        old(token).tripped() ==> final(token).tripped(),
        final(token).signal() == old(token).signal(),
        old(token).signal() is None && !old(token).tripped() ==> !final(token).tripped(),
{
    let sampled_points = sample(image, config, token);
    if token.is_tripped() {
        return Vec::new();
    }
    let target: usize = if config.num_colors < 0 {
        0
    } else {
        config.num_colors as usize
    };
    reduce(sampled_points, target, token)
}

} // verus!
