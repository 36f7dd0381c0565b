//! The integer part of frequency-domain embedding: the additive strength that
//! the tiled module grid puts on every position of the log-magnitude spectrum.

use vstd::prelude::*;
use crate::grid::{qr_modules_of, tile_modules, tiled, to_qrcode, StegoError, QR_MODULE_COUNT, QR_VERSION};

verus! {

/// Strength added on the 0..255 log-magnitude scale where a module is dark.
pub const FFT_STRENGTH: u8 = 32;

/// Perturbation at position `p` (`x * height + y`) of the spectrum.
pub open spec fn strength_at(grid: Seq<bool>, height: int, p: int) -> u8 {
    if tiled(grid, height, p) { FFT_STRENGTH } else { 0 }
}

/// The tiled perturbation over a `width` x `height` spectrum:
/// `FFT_STRENGTH` where the tiled module is dark, `0` elsewhere, in the order
/// `x * height + y`; the same value applies to every channel.
pub fn perturbation(grid: &Vec<bool>, width: usize, height: usize) -> (r: Vec<u8>)
    requires
        grid@.len() == QR_MODULE_COUNT,
        width * height <= usize::MAX,
    ensures
        r@.len() == width * height,
        forall|p: int| 0 <= p < width * height ==> #[trigger] r@[p] == strength_at(grid@, height as int, p),
{
    let tiles = tile_modules(grid, width, height);
    let n = tiles.len();
    let mut r: Vec<u8> = Vec::new();
    let mut p: usize = 0;
    while p < n
        invariant
            p <= n,
            n == width * height,
            tiles@.len() == n,
            forall|q: int| 0 <= q < n ==> #[trigger] tiles@[q] == tiled(grid@, height as int, q),
            r@.len() == p,
            forall|q: int| 0 <= q < p ==> #[trigger] r@[q] == strength_at(grid@, height as int, q),
        decreases n - p,
    {
        r.push(if tiles[p] { FFT_STRENGTH } else { 0 });
        p = p + 1;
    }
    r
}

/// The perturbation of the payload's module grid by `perturbation`, or
/// `PayloadTooLarge` when the payload has no grid.
pub fn payload_perturbation(data: &[u8], width: usize, height: usize) -> (r: Result<Vec<u8>, StegoError>)
    requires
        width * height <= usize::MAX,
    ensures
        match qr_modules_of(data@, QR_VERSION as int) {
            Some(g) => r matches Ok(v) && v@.len() == width * height && forall|p: int|
                0 <= p < width * height ==> #[trigger] v@[p] == strength_at(g, height as int, p),
            None => r == Err::<Vec<u8>, StegoError>(StegoError::PayloadTooLarge),
        },
{
    match to_qrcode(data) {
        Ok(grid) => Ok(perturbation(&grid, width, height)),
        Err(e) => Err(e),
    }
}

} // verus!
