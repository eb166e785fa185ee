//! Per-pixel passes: binary thresholding of grayscale intensities and the
//! running colour average.

use vstd::prelude::*;
use crate::grid::Rgb;

verus! {

/// Binary threshold: intensities strictly above `low` become 255, all
/// others 0.
pub fn binary_threshold(intensities: &Vec<u8>, low: u8) -> (out: Vec<u8>)
    ensures
        out@.len() == intensities@.len(),
        forall|i: int|
            0 <= i < out@.len() ==> #[trigger] out@[i] == (if low < intensities@[i] {
                255u8
            } else {
                0u8
            }),
{
    let mut out: Vec<u8> = Vec::new();
    let mut i: usize = 0;
    while i < intensities.len()
        invariant
            i <= intensities@.len(),
            out@.len() == i,
            forall|j: int|
                0 <= j < i ==> #[trigger] out@[j] == (if low < intensities@[j] {
                    255u8
                } else {
                    0u8
                }),
        decreases intensities@.len() - i,
    {
        if low < intensities[i] {
            out.push(255);
        } else {
            out.push(0);
        }
        i = i + 1;
    }
    out
}

/// The running average over the first `n` samples: each step averages the
/// accumulator with the next sample, rounding down.
pub open spec fn halving_sum(s: Seq<int>, n: nat) -> int
    decreases n,
{
    if n == 0 {
        0
    } else {
        (halving_sum(s, (n - 1) as nat) + s[n - 1]) / 2
    }
}

pub proof fn lemma_halving_sum_bounds(s: Seq<int>, n: nat)
    requires
        n <= s.len(),
        forall|j: int| 0 <= j < n ==> 0 <= #[trigger] s[j] <= 255,
    ensures
        0 <= halving_sum(s, n) <= 255,
    decreases n,
{
    if n > 0 {
        lemma_halving_sum_bounds(s, (n - 1) as nat);
    }
}

/// The running average of each colour channel over all pixels, in pixel
/// order: the channel accumulators start at zero and each pixel replaces
/// them by the half of their sum with its channel value.
pub fn average_color(pixels: &Vec<Rgb>) -> (avg: (u32, u32, u32))
    ensures
        avg.0 == halving_sum(pixels@.map_values(|p: Rgb| p.r as int), pixels@.len()),
        avg.1 == halving_sum(pixels@.map_values(|p: Rgb| p.g as int), pixels@.len()),
        avg.2 == halving_sum(pixels@.map_values(|p: Rgb| p.b as int), pixels@.len()),
{
    let ghost rs = pixels@.map_values(|p: Rgb| p.r as int);
    let ghost gs = pixels@.map_values(|p: Rgb| p.g as int);
    let ghost bs = pixels@.map_values(|p: Rgb| p.b as int);
    let mut r: u32 = 0;
    let mut g: u32 = 0;
    let mut b: u32 = 0;
    let mut i: usize = 0;
    while i < pixels.len()
        invariant
            i <= pixels@.len(),
            rs == pixels@.map_values(|p: Rgb| p.r as int),
            gs == pixels@.map_values(|p: Rgb| p.g as int),
            bs == pixels@.map_values(|p: Rgb| p.b as int),
            r <= 255,
            g <= 255,
            b <= 255,
            r == halving_sum(rs, i as nat),
            g == halving_sum(gs, i as nat),
            b == halving_sum(bs, i as nat),
        decreases pixels@.len() - i,
    {
        let p = pixels[i];
        r = (r + p.r as u32) / 2;
        g = (g + p.g as u32) / 2;
        b = (b + p.b as u32) / 2;
        i = i + 1;
    }
    (r, g, b)
}

} // verus!
