//! A three-channel 8-bit pixel array with axes `(width, height, channel)`.

use vstd::prelude::*;
use crate::grid::StegoError;

verus! {

/// Channels per pixel: red, green, blue.
pub const CHANNELS: usize = 3;

/// Samples stored in the order `(x * height + y) * 3 + c`.
pub struct PixelArray {
    width: usize,
    height: usize,
    data: Vec<u8>,
}

/// Position in row-major image data (`(y * width + x) * 3 + c`) of the
/// sample at position `q` of `(x * height + y) * 3 + c` storage.
pub open spec fn row_major_pos(q: int, width: int, height: int) -> int {
    let p = q / 3;
    ((p % height) * width + p / height) * 3 + q % 3
}

proof fn lemma_positions(x: int, y: int, c: int, width: int, height: int)
    requires
        0 <= x < width,
        0 <= y < height,
        0 <= c < 3,
    ensures
        row_major_pos((x * height + y) * 3 + c, width, height) == (y * width + x) * 3 + c,
        row_major_pos((y * width + x) * 3 + c, height, width) == (x * height + y) * 3 + c,
        0 <= (y * width + x) * 3 + c < width * height * 3,
        0 <= (x * height + y) * 3 + c < width * height * 3,
        0 <= y * width,
        0 <= x * height,
{
    let p = x * height + y;
    let t = y * width + x;
    assert(0 <= y * width && 0 <= x * height) by (nonlinear_arith)
        requires
            0 <= x,
            0 <= y,
            0 <= width,
            0 <= height,
    ;
    vstd::arithmetic::div_mod::lemma_fundamental_div_mod_converse(p * 3 + c, 3, p, c);
    vstd::arithmetic::div_mod::lemma_fundamental_div_mod_converse(t * 3 + c, 3, t, c);
    vstd::arithmetic::div_mod::lemma_fundamental_div_mod_converse(p, height, x, y);
    vstd::arithmetic::div_mod::lemma_fundamental_div_mod_converse(t, width, y, x);
    assert(0 <= t < width * height) by (nonlinear_arith)
        requires
            t == y * width + x,
            0 <= x < width,
            0 <= y < height,
    ;
    assert(0 <= p < width * height) by (nonlinear_arith)
        requires
            p == x * height + y,
            0 <= x < width,
            0 <= y < height,
    ;
}

impl PixelArray {
    pub closed spec fn spec_width(&self) -> nat {
        self.width as nat
    }

    pub closed spec fn spec_height(&self) -> nat {
        self.height as nat
    }

    /// The samples in storage order.
    pub closed spec fn samples(&self) -> Seq<u8> {
        self.data@
    }

    /// The shape holds the samples exactly.
    pub open spec fn well_shaped(&self) -> bool {
        self.samples().len() == self.spec_width() * self.spec_height() * 3
    }

    /// Sample of channel `c` at pixel `(x, y)`.
    pub open spec fn at(&self, x: int, y: int, c: int) -> u8 {
        self.samples()[(x * self.spec_height() + y) * 3 + c]
    }

    /// An array of `width * height` pixels in storage order
    /// `(x * height + y) * 3 + c`; `DimensionMismatch` unless there are three
    /// channels and `data` holds exactly `width * height * channels` samples.
    pub fn new(width: usize, height: usize, channels: usize, data: Vec<u8>) -> (r: Result<PixelArray, StegoError>)
        ensures
            (channels == 3 && data@.len() == width * height * 3) <==> r is Ok,
            r matches Ok(a) ==> a.well_shaped() && a.spec_width() == width && a.spec_height() == height
                && a.samples() == data@,
            r is Err ==> r == Err::<PixelArray, StegoError>(StegoError::DimensionMismatch),
    {
        let len_given = data.len();
        if channels != CHANNELS {
            return Err(StegoError::DimensionMismatch);
        }
        match width.checked_mul(height) {
            Some(n) => match n.checked_mul(CHANNELS) {
                Some(len) => {
                    if len_given == len {
                        Ok(PixelArray { width, height, data })
                    } else {
                        Err(StegoError::DimensionMismatch)
                    }
                },
                None => {
                    proof {
                        assert(n * 3 > usize::MAX);
                        assert(data@.len() == len_given);
                    }
                    Err(StegoError::DimensionMismatch)
                },
            },
            None => {
                proof {
                    assert(width * height > usize::MAX);
                    assert(width * height * 3 >= width * height) by (nonlinear_arith);
                    assert(data@.len() == len_given);
                }
                Err(StegoError::DimensionMismatch)
            },
        }
    }

    /// The array of a `width` x `height` image whose pixels are stored row
    /// after row, three samples each, as image buffers hold them;
    /// `DimensionMismatch` unless `rows` has exactly `width * height * 3`
    /// samples.
    pub fn from_rgb_rows(width: usize, height: usize, rows: &[u8]) -> (r: Result<PixelArray, StegoError>)
        ensures
            (rows@.len() == width * height * 3) <==> r is Ok,
            r matches Ok(a) ==> a.well_shaped() && a.spec_width() == width && a.spec_height() == height
                && forall|q: int| 0 <= q < rows@.len() ==>
                    #[trigger] a.samples()[q] == rows@[row_major_pos(q, width as int, height as int)],
            r is Err ==> r == Err::<PixelArray, StegoError>(StegoError::DimensionMismatch),
    {
        let given = rows.len();
        let n = match width.checked_mul(height) {
            Some(n) => n,
            None => {
                proof {
                    assert(width * height * 3 >= width * height) by (nonlinear_arith);
                    assert(rows@.len() == given);
                }
                return Err(StegoError::DimensionMismatch);
            },
        };
        match n.checked_mul(CHANNELS) {
            Some(len) => {
                if rows.len() != len {
                    return Err(StegoError::DimensionMismatch);
                }
            },
            None => {
                assert(rows@.len() == given);
                return Err(StegoError::DimensionMismatch);
            },
        }
        assert(rows@.len() == given);
        let mut data: Vec<u8> = Vec::new();
        let mut x: usize = 0;
        while x < width
            invariant
                x <= width,
                rows@.len() == width * height * 3,
                rows@.len() <= usize::MAX,
                data@.len() == x * height * 3,
                forall|q: int| 0 <= q < data@.len() ==>
                    #[trigger] data@[q] == rows@[row_major_pos(q, width as int, height as int)],
            decreases width - x,
        {
            let mut y: usize = 0;
            while y < height
                invariant
                    x < width,
                    y <= height,
                    rows@.len() == width * height * 3,
                rows@.len() <= usize::MAX,
                    data@.len() == (x * height + y) * 3,
                    forall|q: int| 0 <= q < data@.len() ==>
                        #[trigger] data@[q] == rows@[row_major_pos(q, width as int, height as int)],
                decreases height - y,
            {
                let mut c: usize = 0;
                while c < 3
                    invariant
                        x < width,
                        y < height,
                        c <= 3,
                        rows@.len() == width * height * 3,
                rows@.len() <= usize::MAX,
                        data@.len() == (x * height + y) * 3 + c,
                        forall|q: int| 0 <= q < data@.len() ==>
                            #[trigger] data@[q] == rows@[row_major_pos(q, width as int, height as int)],
                    decreases 3 - c,
                {
                    proof {
                        lemma_positions(x as int, y as int, c as int, width as int, height as int);
                    }
                    data.push(rows[(y * width + x) * 3 + c]);
                    c = c + 1;
                }
                y = y + 1;
            }
            proof {
                assert((x + 1) * height * 3 == (x * height + height) * 3) by (nonlinear_arith);
            }
            x = x + 1;
        }
        Ok(PixelArray { width, height, data })
    }

    /// The samples row after row, `(y * width + x) * 3 + c`, as image
    /// buffers hold them.
    pub fn to_rgb_rows(&self) -> (r: Vec<u8>)
        requires
            self.well_shaped(),
        ensures
            r@.len() == self.samples().len(),
            forall|q: int| 0 <= q < r@.len() ==>
                #[trigger] r@[q] == self.samples()[row_major_pos(q, self.spec_height() as int, self.spec_width() as int)],
    {
        let width = self.width;
        let height = self.height;
        proof {
            self.lemma_samples_fit();
        }
        let mut out: Vec<u8> = Vec::new();
        let mut y: usize = 0;
        while y < height
            invariant
                y <= height,
                width == self.width,
                height == self.height,
                self.data@.len() == width * height * 3,
                self.data@.len() <= usize::MAX,
                out@.len() == y * width * 3,
                forall|q: int| 0 <= q < out@.len() ==>
                    #[trigger] out@[q] == self.data@[row_major_pos(q, height as int, width as int)],
            decreases height - y,
        {
            let mut x: usize = 0;
            while x < width
                invariant
                    y < height,
                    x <= width,
                    width == self.width,
                    height == self.height,
                    self.data@.len() == width * height * 3,
                self.data@.len() <= usize::MAX,
                    out@.len() == (y * width + x) * 3,
                    forall|q: int| 0 <= q < out@.len() ==>
                        #[trigger] out@[q] == self.data@[row_major_pos(q, height as int, width as int)],
                decreases width - x,
            {
                let mut c: usize = 0;
                while c < 3
                    invariant
                        y < height,
                        x < width,
                        c <= 3,
                        width == self.width,
                        height == self.height,
                        self.data@.len() == width * height * 3,
                self.data@.len() <= usize::MAX,
                        out@.len() == (y * width + x) * 3 + c,
                        forall|q: int| 0 <= q < out@.len() ==>
                            #[trigger] out@[q] == self.data@[row_major_pos(q, height as int, width as int)],
                    decreases 3 - c,
                {
                    proof {
                        lemma_positions(x as int, y as int, c as int, width as int, height as int);
                    }
                    out.push(self.data[(x * height + y) * 3 + c]);
                    c = c + 1;
                }
                x = x + 1;
            }
            proof {
                assert((y + 1) * width * 3 == (y * width + width) * 3) by (nonlinear_arith);
            }
            y = y + 1;
        }
        proof {
            assert(height * width * 3 == width * height * 3) by (nonlinear_arith);
        }
        out
    }

    pub fn width(&self) -> (r: usize)
        ensures
            r == self.spec_width(),
    {
        self.width
    }

    pub fn height(&self) -> (r: usize)
        ensures
            r == self.spec_height(),
    {
        self.height
    }

    /// The samples fit in memory.
    pub proof fn lemma_samples_fit(&self)
        ensures
            self.samples().len() <= usize::MAX,
    {
        broadcast use vstd::std_specs::vec::axiom_spec_len;
        assert(self.data.len() as int == self.data@.len());
    }

    /// Sample at storage position `i`.
    pub fn sample(&self, i: usize) -> (r: u8)
        requires
            i < self.samples().len(),
        ensures
            r == self.samples()[i as int],
    {
        self.data[i]
    }

    /// Replaces the sample at storage position `i`; the shape stays.
    pub fn set_sample(&mut self, i: usize, v: u8)
        requires
            i < old(self).samples().len(),
        ensures
            final(self).samples() == old(self).samples().update(i as int, v),
            final(self).spec_width() == old(self).spec_width(),
            final(self).spec_height() == old(self).spec_height(),
    {
        self.data.set(i, v);
    }

    /// The samples in storage order `(x * height + y) * 3 + c`.
    pub fn as_samples(&self) -> (r: &Vec<u8>)
        ensures
            r@ == self.samples(),
    {
        &self.data
    }
}

} // verus!
