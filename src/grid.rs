//! The QR module grid of a payload and the periodic map that tiles it over
//! an image of any size.

use vstd::prelude::*;

verus! {

/// QR version used for every payload.
pub const QR_VERSION: usize = 40;

/// Side of the module grid: `QR_VERSION * 4 + 17`.
pub const QR_MODULE_SIZE: usize = 177;

/// Number of modules in the grid.
pub const QR_MODULE_COUNT: usize = 31329;

/// Errors of the embedding operations.
#[derive(Debug, Clone, Copy, PartialEq, Eq, Structural)]
pub enum StegoError {
    /// The payload does not fit in a version-40 grid at error-correction level H.
    PayloadTooLarge,
    /// The pixel data does not have the stated shape, or not three channels.
    DimensionMismatch,
}

/// Cell of the flattened `m * m` grid that pixel `(x, y)` falls on.
pub open spec fn tile_of(x: int, y: int, m: int) -> int {
    (x % m) * m + y % m
}

/// The modules of the QR code of `data` at `version` and error-correction
/// level H, row after row, `true` for a dark module; `None` when the data
/// does not fit.
pub uninterp spec fn qr_modules_of(data: Seq<u8>, version: int) -> Option<Seq<bool>>;

proof fn lemma_cell_bound(a: int, b: int, m: int)
    requires
        0 <= a < m,
        0 <= b < m,
    ensures
        0 <= a * m + b < m * m,
{
    assert(0 <= a * m + b < m * m) by (nonlinear_arith)
        requires
            0 <= a < m,
            0 <= b < m,
    ;
}

/// Every cell index lies in `[0, m * m)`.
pub proof fn lemma_tile_in_range(x: int, y: int, m: int)
    requires
        x >= 0,
        y >= 0,
        m > 0,
    ensures
        0 <= tile_of(x, y, m) < m * m,
{
    lemma_cell_bound(x % m, y % m, m);
}

/// Index into the flattened `m * m` module grid of the pixel at `(x, y)`:
/// `(x mod m) * m + (y mod m)`.
pub fn tile_index(x: usize, y: usize, m: usize) -> (r: usize)
    requires
        m > 0,
        m * m <= usize::MAX,
    ensures
        r == tile_of(x as int, y as int, m as int),
        r < m * m,
{
    proof {
        lemma_tile_in_range(x as int, y as int, m as int);
    }
    (x % m) * m + y % m
}

/// Relies on qrcode's `QrCode::with_version` at error-correction level H and
/// `QrCode::into_colors`: the modules depend on the bytes and the version
/// alone, and a built code of version `v` has `4 * v + 17` rows of
/// `4 * v + 17` modules.
#[verifier::external_body]
fn qr_encode_level_h(data: &[u8], version: i16) -> (r: Option<Vec<bool>>)
    requires
        1 <= version <= 40,
    ensures
        r is None <==> qr_modules_of(data@, version as int) is None,
        r matches Some(g) ==> qr_modules_of(data@, version as int) == Some(g@)
            && g@.len() == (4 * version + 17) * (4 * version + 17),
{
    match qrcode::QrCode::with_version(data, qrcode::Version::Normal(version), qrcode::EcLevel::H) {
        Ok(code) => Some(code.into_colors().into_iter().map(|c| c == qrcode::Color::Dark).collect()),
        Err(_) => None,
    }
}

/// The payload's module grid, `QR_MODULE_SIZE` rows of `QR_MODULE_SIZE`
/// modules, or `PayloadTooLarge` when the payload exceeds the capacity of
/// version 40 at level H.
pub fn to_qrcode(data: &[u8]) -> (r: Result<Vec<bool>, StegoError>)
    ensures
        match qr_modules_of(data@, QR_VERSION as int) {
            Some(g) => r matches Ok(v) && v@ == g && g.len() == QR_MODULE_COUNT,
            None => r == Err::<Vec<bool>, StegoError>(StegoError::PayloadTooLarge),
        },
{
    proof {
        let side: int = 4 * (QR_VERSION as int) + 17;
        assert(side == 177);
        assert(side * side == QR_MODULE_COUNT) by (nonlinear_arith)
            requires
                side == 177,
        ;
    }
    match qr_encode_level_h(data, QR_VERSION as i16) {
        Some(g) => Ok(g),
        None => Err(StegoError::PayloadTooLarge),
    }
}

/// Module value at every pixel of a `width` x `height` image, in the order
/// `x * height + y`.
pub open spec fn tiled(grid: Seq<bool>, height: int, p: int) -> bool {
    grid[tile_of(p / height, p % height, QR_MODULE_SIZE as int)]
}

/// The module grid tiled over a `width` x `height` image: the value at
/// `x * height + y` is the module at `tile_index(x, y, QR_MODULE_SIZE)`.
pub fn tile_modules(grid: &Vec<bool>, width: usize, height: usize) -> (r: Vec<bool>)
    requires
        grid@.len() == QR_MODULE_COUNT,
        width * height <= usize::MAX,
    ensures
        r@.len() == width * height,
        forall|p: int| 0 <= p < width * height ==> #[trigger] r@[p] == tiled(grid@, height as int, p),
{
    let mut r: Vec<bool> = Vec::new();
    let mut x: usize = 0;
    while x < width
        invariant
            x <= width,
            grid@.len() == QR_MODULE_COUNT,
            width * height <= usize::MAX,
            r@.len() == x * height,
            forall|p: int| 0 <= p < x * height ==> #[trigger] r@[p] == tiled(grid@, height as int, p),
        decreases width - x,
    {
        let mut y: usize = 0;
        while y < height
            invariant
                x < width,
                y <= height,
                grid@.len() == QR_MODULE_COUNT,
                width * height <= usize::MAX,
                r@.len() == x * height + y,
                forall|p: int| 0 <= p < x * height + y ==> #[trigger] r@[p] == tiled(grid@, height as int, p),
            decreases height - y,
        {
            let t = tile_index(x, y, QR_MODULE_SIZE);
            proof {
                let p = x * height + y;
                lemma_pixel_coords(x as int, y as int, height as int);
                assert(p / (height as int) == x && p % (height as int) == y);
            }
            r.push(grid[t]);
            y = y + 1;
        }
        proof {
            assert((x + 1) * height == x * height + height) by (nonlinear_arith);
        }
        x = x + 1;
    }
    r
}

/// Position `x * h + y` with `y < h` splits back into `x` and `y`.
pub proof fn lemma_pixel_coords(x: int, y: int, h: int)
    requires
        x >= 0,
        0 <= y < h,
    ensures
        (x * h + y) / h == x,
        (x * h + y) % h == y,
{
    vstd::arithmetic::div_mod::lemma_fundamental_div_mod_converse(x * h + y, h, x, y);
}

} // verus!
