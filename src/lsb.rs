//! Least-significant-bit embedding: every pixel carries the tiled module
//! value in the low bit of each of its three channels.

use vstd::prelude::*;
use crate::grid::{
    lemma_pixel_coords, qr_modules_of, tile_modules, tile_of, tiled, to_qrcode, StegoError, QR_MODULE_COUNT,
    QR_MODULE_SIZE, QR_VERSION,
};
use crate::pixels::PixelArray;

verus! {

/// `v` with its least significant bit replaced by `b`.
pub open spec fn with_low_bit(v: u8, b: bool) -> int {
    2 * (v / 2) + if b { 1int } else { 0int }
}

/// Every sample of `after` is the sample of `before` at the same place with
/// its low bit set to the module tiled over that sample's pixel.
pub open spec fn lsb_embedded(before: Seq<u8>, after: Seq<u8>, grid: Seq<bool>, height: int) -> bool {
    &&& after.len() == before.len()
    &&& forall|i: int|
        0 <= i < before.len() ==> #[trigger] after[i] == with_low_bit(before[i], tiled(grid, height, i / 3))
}

fn set_low_bit(v: u8, b: bool) -> (r: u8)
    ensures
        r == with_low_bit(v, b),
{
    let r: u8 = if b { (v & 0xfe) | 1 } else { v & 0xfe };
    assert((v & 0xfe) == 2 * (v / 2)) by (bit_vector);
    assert((v & 0xfe) | 1 == 2 * (v / 2) + 1) by (bit_vector);
    r
}

/// Writes the tiled module grid into the low bit of every channel of every
/// pixel; all other bits stay.
pub fn embed_lsb(image: &mut PixelArray, grid: &Vec<bool>)
    requires
        old(image).well_shaped(),
        grid@.len() == QR_MODULE_COUNT,
    ensures
        final(image).well_shaped(),
        final(image).spec_width() == old(image).spec_width(),
        final(image).spec_height() == old(image).spec_height(),
        lsb_embedded(old(image).samples(), final(image).samples(), grid@, old(image).spec_height() as int),
{
    let width = image.width();
    let height = image.height();
    let ghost before = image.samples();
    proof {
        image.lemma_samples_fit();
        assert(width * height * 3 >= width * height) by (nonlinear_arith);
    }
    let n = width * height;
    let tiles = tile_modules(grid, width, height);
    let mut p: usize = 0;
    while p < n
        invariant
            p <= n,
            n == width * height,
            n * 3 <= usize::MAX,
            before.len() == n * 3,
            tiles@.len() == n,
            forall|q: int| 0 <= q < n ==> #[trigger] tiles@[q] == tiled(grid@, height as int, q),
            image.spec_width() == width,
            image.spec_height() == height,
            image.samples().len() == before.len(),
            forall|i: int| 0 <= i < p * 3 ==> #[trigger] image.samples()[i] == with_low_bit(before[i], tiled(grid@, height as int, i / 3)),
            forall|i: int| p * 3 <= i < n * 3 ==> #[trigger] image.samples()[i] == before[i],
        decreases n - p,
    {
        let b = tiles[p];
        let mut c: usize = 0;
        while c < 3
            invariant
                p < n,
                c <= 3,
                n == width * height,
                n * 3 <= usize::MAX,
            n * 3 <= usize::MAX,
                before.len() == n * 3,
                b == tiled(grid@, height as int, p as int),
                image.spec_width() == width,
                image.spec_height() == height,
                image.samples().len() == before.len(),
                forall|i: int| 0 <= i < p * 3 + c ==> #[trigger] image.samples()[i] == with_low_bit(before[i], tiled(grid@, height as int, i / 3)),
                forall|i: int| p * 3 + c <= i < n * 3 ==> #[trigger] image.samples()[i] == before[i],
            decreases 3 - c,
        {
            let i = p * 3 + c;
            let v = image.sample(i);
            let w = set_low_bit(v, b);
            assert(i as int / 3 == p);
            image.set_sample(i, w);
            c = c + 1;
        }
        p = p + 1;
    }
}

/// Embeds the payload's module grid by `embed_lsb`; `PayloadTooLarge`, with
/// the image untouched, when the payload has no grid.
pub fn lsb_encode(image: &mut PixelArray, data: &[u8]) -> (r: Result<(), StegoError>)
    requires
        old(image).well_shaped(),
    ensures
        final(image).well_shaped(),
        final(image).spec_width() == old(image).spec_width(),
        final(image).spec_height() == old(image).spec_height(),
        match qr_modules_of(data@, QR_VERSION as int) {
            Some(g) => r is Ok && lsb_embedded(
                old(image).samples(),
                final(image).samples(),
                g,
                old(image).spec_height() as int,
            ),
            None => r == Err::<(), StegoError>(StegoError::PayloadTooLarge) && final(image).samples()
                == old(image).samples(),
        },
{
    match to_qrcode(data) {
        Ok(grid) => {
            embed_lsb(image, &grid);
            Ok(())
        },
        Err(e) => Err(e),
    }
}

/// Grey level that the detector sees for a low bit.
pub open spec fn bit_level(v: u8) -> u8 {
    if v % 2 == 1 { 255 } else { 0 }
}

/// The low bit of the red channel at every pixel as a grey level, 255 for a
/// set bit and 0 otherwise, in the order `x * height + y`.
pub fn lsb_decode(image: &PixelArray) -> (r: Vec<u8>)
    requires
        image.well_shaped(),
    ensures
        r@.len() == image.spec_width() * image.spec_height(),
        forall|p: int| 0 <= p < r@.len() ==> #[trigger] r@[p] == bit_level(image.samples()[p * 3]),
{
    let width = image.width();
    let height = image.height();
    proof {
        image.lemma_samples_fit();
        assert(width * height * 3 >= width * height) by (nonlinear_arith);
    }
    let n = width * height;
    let mut r: Vec<u8> = Vec::new();
    let mut p: usize = 0;
    while p < n
        invariant
            p <= n,
            n == width * height,
            n * 3 <= usize::MAX,
            image.well_shaped(),
            image.spec_width() == width,
            image.spec_height() == height,
            r@.len() == p,
            forall|q: int| 0 <= q < p ==> #[trigger] r@[q] == bit_level(image.samples()[q * 3]),
        decreases n - p,
    {
        let v = image.sample(p * 3);
        r.push(if v % 2 == 1 { 255 } else { 0 });
        p = p + 1;
    }
    r
}

/// Embedding is deterministic: the same samples and the same grid give the
/// same embedded samples.
pub proof fn lemma_lsb_deterministic(before: Seq<u8>, a: Seq<u8>, b: Seq<u8>, grid: Seq<bool>, height: int)
    requires
        lsb_embedded(before, a, grid, height),
        lsb_embedded(before, b, grid, height),
    ensures
        a == b,
{
    assert forall|i: int| 0 <= i < a.len() implies a[i] == b[i] by {
        assert(a[i] == with_low_bit(before[i], tiled(grid, height, i / 3)));
        assert(b[i] == with_low_bit(before[i], tiled(grid, height, i / 3)));
    }
    assert(a =~= b);
}

/// Extracting after embedding gives back the tiled grid: every pixel reads
/// 255 where its tiled module is dark and 0 where it is light.
pub proof fn lemma_extract_embedded(before: Seq<u8>, after: Seq<u8>, grid: Seq<bool>, height: int, n: int)
    requires
        before.len() == n * 3,
        lsb_embedded(before, after, grid, height),
    ensures
        forall|p: int| 0 <= p < n ==> #[trigger] bit_level(after[p * 3]) == if tiled(grid, height, p) { 255u8 } else { 0u8 },
{
    assert forall|p: int| 0 <= p < n implies #[trigger] bit_level(after[p * 3]) == if tiled(grid, height, p) { 255u8 } else { 0u8 } by {
        assert((p * 3) / 3 == p);
        assert(after[p * 3] == with_low_bit(before[p * 3], tiled(grid, height, p)));
    }
}

/// Pixel by pixel: after embedding, channel `c` of pixel `(x, y)` is the
/// sample it had with its low bit set to module `tile_index(x, y, QR_MODULE_SIZE)`.
pub proof fn lemma_embedded_at(before: &PixelArray, after: &PixelArray, grid: Seq<bool>, x: int, y: int, c: int)
    requires
        before.well_shaped(),
        after.spec_height() == before.spec_height(),
        lsb_embedded(before.samples(), after.samples(), grid, before.spec_height() as int),
        0 <= x < before.spec_width(),
        0 <= y < before.spec_height(),
        0 <= c < 3,
    ensures
        after.at(x, y, c) == with_low_bit(before.at(x, y, c), grid[tile_of(x, y, QR_MODULE_SIZE as int)]),
{
    let h = before.spec_height() as int;
    let w = before.spec_width() as int;
    let p = x * h + y;
    lemma_pixel_coords(x, y, h);
    vstd::arithmetic::div_mod::lemma_fundamental_div_mod_converse(p * 3 + c, 3, p, c);
    assert(0 <= p < w * h) by (nonlinear_arith)
        requires
            p == x * h + y,
            0 <= x < w,
            0 <= y < h,
    ;
    assert(after.samples()[p * 3 + c] == with_low_bit(before.samples()[p * 3 + c], tiled(grid, h, (p * 3 + c) / 3)));
}

} // verus!
