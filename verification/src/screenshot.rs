//! The screenshot image buffer and the ways a capture turns into one.

use vstd::prelude::*;

verus! {

use crate::bitmap::{
    alpha_fixed, fix_alpha, flip_rows, rows_reversed,
};

/// One pixel of a screenshot, split into its alpha, red, green and blue channels.
#[derive(Clone, Copy)]
pub struct Pixel {
    pub a: u8,
    pub r: u8,
    pub g: u8,
    pub b: u8,
}

/// An image buffer containing the screenshot.
/// Pixels are stored as ARGB words, least significant byte (blue) first.
pub struct Screenshot {
    data: Vec<u8>,
    height: usize,
    width: usize,
    row_len: usize,
    pixel_width: usize,
}

/// What capturing a screen gives: the screenshot, or why there is none.
pub type ScreenResult = Result<Screenshot, &'static str>;

impl View for Screenshot {
    type V = Seq<u8>;

    /// The bytes of the bitmap.
    closed spec fn view(&self) -> Seq<u8> {
        self.data@
    }
}

impl Screenshot {
    /// A screenshot holds exactly `width * height * pixel_width` bytes.
    #[verifier::type_invariant]
    spec fn holds_whole_frame(self) -> bool {
        self.data.len() == self.width * self.height * self.pixel_width
    }

    /// Height of the image in pixels, as a specification value.
    pub closed spec fn spec_height(&self) -> usize {
        self.height
    }

    /// Width of the image in pixels, as a specification value.
    pub closed spec fn spec_width(&self) -> usize {
        self.width
    }

    /// Number of bytes in one row, as a specification value.
    pub closed spec fn spec_row_len(&self) -> usize {
        self.row_len
    }

    /// Width of one pixel in bytes, as a specification value.
    pub closed spec fn spec_pixel_width(&self) -> usize {
        self.pixel_width
    }

    /// Height of image in pixels.
    pub fn height(&self) -> (h: usize)
        ensures
            h == self.spec_height(),
    {
        self.height
    }

    /// Width of image in pixels.
    pub fn width(&self) -> (w: usize)
        ensures
            w == self.spec_width(),
    {
        self.width
    }

    /// Number of bytes in one row of bitmap.
    pub fn row_len(&self) -> (n: usize)
        ensures
            n == self.spec_row_len(),
    {
        self.row_len
    }

    /// Width of pixel in bytes.
    pub fn pixel_width(&self) -> (n: usize)
        ensures
            n == self.spec_pixel_width(),
    {
        self.pixel_width
    }

    /// Number of bytes in bitmap.
    pub fn raw_len(&self) -> (n: usize)
        ensures
            n == self@.len(),
            n == self.spec_width() * self.spec_height() * self.spec_pixel_width(),
    {
        proof {
            use_type_invariant(self);
        }
        self.data.len()
    }

    /// The screenshot of an X11 `ZPixmap` image of `height` rows of `row_len`
    /// bytes, `width` pixels of `pixel_bits` bits each, whose pixel data begins
    /// with `image`. Its first `width * height * pixel_width` bytes are copied, and
    /// when no alpha byte among them is set (X could not tell transparency)
    /// every alpha byte is set to 255.
    pub fn from_xlib_image(
        image: &[u8],
        height: usize,
        width: usize,
        row_len: usize,
        pixel_bits: usize,
    ) -> (result: ScreenResult)
        requires
            pixel_bits % 8 == 0 ==> width * height * (pixel_bits / 8) <= image@.len(),
        ensures
            match result {
                Ok(s) => {
                    &&& pixel_bits % 8 == 0
                    &&& s.spec_height() == height
                    &&& s.spec_width() == width
                    &&& s.spec_row_len() == row_len
                    &&& s.spec_pixel_width() == pixel_bits / 8
                    &&& s@ == alpha_fixed(image@.take(width * height * (pixel_bits / 8)))
                },
                Err(e) => pixel_bits % 8 != 0 && e@ == "Pixels aren't integral bytes."@,
            },
    {
        if pixel_bits % 8 != 0 {
            return Err("Pixels aren't integral bytes.");
        }
        let pixel_width = pixel_bits / 8;
        let image_len = image.len();
        assert(width * height >= 0 && width * height * pixel_width >= 0) by (nonlinear_arith);
        assert(width * height <= width * height * pixel_width || pixel_width == 0) by (nonlinear_arith);
        assert(pixel_width != 0 ==> width * height <= image_len);
        let size = if pixel_width == 0 {
            0
        } else {
            width * height * pixel_width
        };
        assert(size == width * height * pixel_width) by (nonlinear_arith)
            requires
                pixel_width == 0 ==> size == 0,
                pixel_width != 0 ==> size == width * height * pixel_width,
        ;
        let mut data: Vec<u8> = Vec::with_capacity(size);
        let mut n: usize = 0;
        while n < size
            invariant
                size <= image@.len(),
                n <= size,
                data@ == image@.take(n as int),
            decreases size - n,
        {
            data.push(image[n]);
            n += 1;
            assert(data@ =~= image@.take(n as int));
        }
        fix_alpha(&mut data);
        Ok(Screenshot { data, height, width, row_len, pixel_width })
    }

    /// The screenshot of a CoreGraphics image of `height` rows of `row_len`
    /// bytes, `width` pixels of `pixel_bits` bits each, whose pixel data is
    /// `data`. Refused when pixels are not whole bytes, or when `data` does not
    /// hold exactly `width * height` pixels.
    pub fn from_cg_image(
        data: Vec<u8>,
        height: usize,
        width: usize,
        row_len: usize,
        pixel_bits: usize,
    ) -> (result: ScreenResult)
        ensures
            match result {
                Ok(s) => {
                    &&& pixel_bits % 8 == 0
                    &&& width * height * pixel_bits == data@.len() * 8
                    &&& s.spec_height() == height
                    &&& s.spec_width() == width
                    &&& s.spec_row_len() == row_len
                    &&& s.spec_pixel_width() == pixel_bits / 8
                    &&& s@ == data@
                },
                Err(e) => if pixel_bits % 8 != 0 {
                    e@ == "Pixels aren't integral bytes."@
                } else {
                    &&& width * height * pixel_bits != data@.len() * 8
                    &&& e@ == "Image size is inconsistent with W*H*D."@
                },
            },
    {
        if pixel_bits % 8 != 0 {
            return Err("Pixels aren't integral bytes.");
        }
        assert(width <= 0xffff_ffff_ffff_ffffu64 && height <= 0xffff_ffff_ffff_ffffu64);
        assert((width as u128) * (height as u128) <= u128::MAX) by (nonlinear_arith)
            requires
                width <= 0xffff_ffff_ffff_ffffu64,
                height <= 0xffff_ffff_ffff_ffffu64,
        ;
        let area = width as u128 * height as u128;
        let raw_bits = data.len() as u128 * 8;
        let consistent = match area.checked_mul(pixel_bits as u128) {
            Some(frame_bits) => frame_bits == raw_bits,
            None => false,
        };
        if !consistent {
            return Err("Image size is inconsistent with W*H*D.");
        }
        let pixel_width = pixel_bits / 8;
        assert(data@.len() == width * height * pixel_width) by (nonlinear_arith)
            requires
                width * height * pixel_bits == data@.len() * 8,
                pixel_bits == 8 * pixel_width,
        ;
        Ok(Screenshot { data, height, width, row_len, pixel_width })
    }

    /// The screenshot of a GDI device-independent bitmap of `height` rows of
    /// `width` four-byte pixels (blue, green, red, unused), stored bottom row
    /// first. The rows are put top row first; the bytes of each pixel already
    /// are in the screenshot's ARGB order and stay as they are.
    pub fn from_gdi_bitmap(data: Vec<u8>, height: usize, width: usize) -> (s: Screenshot)
        requires
            data@.len() == height * width * 4,
            width * 4 <= usize::MAX,
        ensures
            s.spec_height() == height,
            s.spec_width() == width,
            s.spec_row_len() == width * 4,
            s.spec_pixel_width() == 4,
            s@ == rows_reversed(data@, height as int, width as int * 4),
    {
        let pixel_width: usize = 4;
        let row_len = width * pixel_width;
        assert(height * width * 4 == height * row_len && height * width * 4 == width * height * 4)
            by (nonlinear_arith)
            requires
                row_len == width * 4,
        ;
        let data = flip_rows(data, height, row_len);
        Screenshot { data, height, width, row_len, pixel_width }
    }

    /// Gets pixel at (row, col).
    pub fn get_pixel(&self, row: usize, col: usize) -> (p: Pixel)
        requires
            row * self.spec_row_len() + col * self.spec_pixel_width() + 3 < self@.len(),
        ensures
            ({
                let idx = row * self.spec_row_len() + col * self.spec_pixel_width();
                &&& p.a == self@[idx + 3]
                &&& p.r == self@[idx + 2]
                &&& p.g == self@[idx + 1]
                &&& p.b == self@[idx]
            }),
    {
        let row_len = self.row_len();
        let pixel_width = self.pixel_width();
        assert(row * row_len >= 0 && col * pixel_width >= 0) by (nonlinear_arith);
        let data_len = self.data.len();
        assert(row * row_len + col * pixel_width + 3 < data_len);
        let idx = row * row_len + col * pixel_width;
        Pixel {
            a: self.data[idx + 3],
            r: self.data[idx + 2],
            g: self.data[idx + 1],
            b: self.data[idx],
        }
    }
}

/// Byte `k` of pixel (`row`, `col`) of a screenshot taken from a GDI bitmap
/// is byte `k` of the bitmap's pixel in the same column of row `height - 1 - row`:
/// the rows change order, the colours do not.
pub proof fn lemma_gdi_pixel(data: Seq<u8>, height: int, width: int, row: int, col: int, k: int)
    requires
        data.len() == height * width * 4,
        0 <= row < height,
        0 <= col < width,
        0 <= k < 4,
    ensures
        rows_reversed(data, height, width * 4)[(row * width + col) * 4 + k]
            == data[((height - 1 - row) * width + col) * 4 + k],
{
    let row_len = width * 4;
    assert(data.len() == height * row_len) by (nonlinear_arith)
        requires
            data.len() == height * width * 4,
            row_len == width * 4,
    ;
    assert((row * width + col) * 4 + k == row * row_len + (col * 4 + k)) by (nonlinear_arith)
        requires
            row_len == width * 4,
    ;
    assert(((height - 1 - row) * width + col) * 4 + k == (height - 1 - row) * row_len + (col * 4 + k))
        by (nonlinear_arith)
        requires
            row_len == width * 4,
    ;
    crate::bitmap::lemma_rows_reversed_at(data, height, row_len, row, col * 4 + k);
}

impl AsRef<[u8]> for Screenshot {
    /// The raw bitmap.
    fn as_ref(&self) -> (bytes: &[u8])
        ensures
            bytes@ == self@,
    {
        self.data.as_slice()
    }
}

} // verus!
