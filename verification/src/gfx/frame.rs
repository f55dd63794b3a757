//! The packed pixel buffer.
use vstd::prelude::*;
use crate::gfx::bits::{bit, lemma_bits_determine_byte, lemma_zero_has_no_bits};
use crate::gfx::geometry::Size;

verus! {

/// `band * width + x` addresses a byte of a buffer of `bands` rows.
pub proof fn lemma_byte_index_bound(width: int, bands: int, band: int, x: int)
    requires
        0 <= band < bands,
        0 <= x < width,
    ensures
        0 <= band * width + x < bands * width,
        0 <= band * width,
        bands * width == width * bands,
{
    assert(band * width + width <= bands * width && bands * width == width * bands)
        by (nonlinear_arith)
        requires
            0 <= band < bands,
            0 <= width,
    ;
    assert(0 <= band * width) by (nonlinear_arith)
        requires
            0 <= band,
            0 <= width,
    ;
}

/// The bytes of band `band` start at `band * width` and lie in the buffer.
pub proof fn lemma_band_bound(width: int, bands: int, band: int)
    requires
        0 <= band < bands,
        0 <= width,
    ensures
        0 <= band * width,
        band * width + width <= bands * width,
        bands * width == width * bands,
{
    assert(band * width + width <= bands * width && 0 <= band * width && bands * width == width
        * bands) by (nonlinear_arith)
        requires
            0 <= band < bands,
            0 <= width,
    ;
}

/// A byte index names one band and one column.
pub proof fn lemma_byte_index_unique(width: int, band1: int, x1: int, band2: int, x2: int)
    requires
        0 <= x1 < width,
        0 <= x2 < width,
        band1 * width + x1 == band2 * width + x2,
    ensures
        band1 == band2,
        x1 == x2,
{
    assert(band1 == band2) by (nonlinear_arith)
        requires
            0 <= x1 < width,
            0 <= x2 < width,
            band1 * width + x1 == band2 * width + x2,
    ;
}

/// A complete bit-packed picture: `width * height / 8` bytes, one byte for
/// eight vertically stacked pixels, rows of bytes from top to bottom. A set
/// bit is a light pixel.
pub struct Frame {
    size: Size,
    data: Vec<u8>,
}

impl Clone for Frame {
    /// A second frame with the same size and bytes.
    fn clone(&self) -> (copy: Frame)
        ensures
            copy.spec_size() == self.spec_size(),
            copy@ == self@,
    {
        Frame { size: self.size, data: self.data.clone() }
    }
}

impl View for Frame {
    type V = Seq<u8>;

    /// The packed bytes.
    closed spec fn view(&self) -> Seq<u8> {
        self.data@
    }
}

impl Frame {
    /// The frame's size in pixels.
    pub closed spec fn spec_size(self) -> Size {
        self.size
    }

    /// The height is a whole number of bands and the buffer has one byte
    /// per band and column.
    pub open spec fn wf(self) -> bool {
        &&& self.spec_size().height % 8 == 0
        &&& self@.len() == self.spec_size().width * (self.spec_size().height / 8)
        &&& self@.len() <= usize::MAX
    }

    /// Whether `(x, y)` names a pixel of this frame.
    pub open spec fn in_bounds(self, x: int, y: int) -> bool {
        &&& 0 <= x < self.spec_size().width
        &&& 0 <= y < self.spec_size().height
    }

    /// The index of the byte that holds pixel `(x, y)`.
    pub open spec fn byte_index(self, x: int, y: int) -> int {
        (y / 8) * self.spec_size().width + x
    }

    /// Whether the pixel at `(x, y)` is light.
    pub open spec fn pixel(self, x: int, y: int) -> bool {
        bit(self@[self.byte_index(x, y)], (y % 8) as u8)
    }

    /// Whether every pixel is dark.
    pub open spec fn is_dark(self) -> bool {
        forall|i: int| 0 <= i < self@.len() ==> self@[i] == 0u8
    }

    /// Whether a frame of `size` can exist: whole bands, and a buffer
    /// length that fits the machine.
    pub open spec fn valid_size(size: Size) -> bool {
        &&& size.height % 8 == 0
        &&& size.width * (size.height / 8) <= usize::MAX
    }

    /// An all-dark frame of size `size`.
    pub fn new(size: Size) -> (f: Frame)
        requires
            Frame::valid_size(size),
        ensures
            f.wf(),
            f.spec_size() == size,
            f.is_dark(),
    {
        let buf_size: usize = size.width * (size.height / 8);
        let mut data: Vec<u8> = Vec::with_capacity(buf_size);
        let mut i: usize = 0;
        while i < buf_size
            invariant
                i <= buf_size,
                data@.len() == i,
                forall|j: int| 0 <= j < i ==> data@[j] == 0u8,
            decreases buf_size - i,
        {
            data.push(0);
            i += 1;
        }
        Frame { size, data }
    }

    /// Makes every pixel dark.
    pub fn clear(&mut self)
        ensures
            final(self).spec_size() == old(self).spec_size(),
            final(self)@.len() == old(self)@.len(),
            final(self).is_dark(),
    {
        let n: usize = self.data.len();
        let mut i: usize = 0;
        while i < n
            invariant
                i <= n,
                n == self.data@.len(),
                self.size == old(self).size,
                self.data@.len() == old(self).data@.len(),
                forall|j: int| 0 <= j < i ==> self.data@[j] == 0u8,
            decreases n - i,
        {
            self.data[i] = 0;
            i += 1;
        }
    }

    pub fn size(&self) -> (s: Size)
        ensures
            s == self.spec_size(),
    {
        self.size
    }

    /// The number of bands: rows of bytes.
    pub fn num_rows(&self) -> (n: usize)
        ensures
            n == self.spec_size().height / 8,
    {
        self.size.height / 8
    }

    /// The packed bytes, open to change. The length of the buffer, and so
    /// the frame's well-formedness, cannot change through the slice.
    pub fn mut_data(&mut self) -> (d: &mut [u8])
        ensures
            d@ == old(self)@,
            final(self).spec_size() == old(self).spec_size(),
            final(self)@ == final(d)@,
    {
        self.data.as_mut_slice()
    }

    /// The packed bytes.
    pub fn data(&self) -> (d: &[u8])
        ensures
            d@ == self@,
    {
        self.data.as_slice()
    }
}

/// The pixels of a frame determine its bytes: two well-formed frames of one
/// size that agree on every pixel hold the same buffer.
pub proof fn lemma_pixels_determine_bytes(a: Frame, b: Frame)
    requires
        a.wf(),
        b.wf(),
        a.spec_size() == b.spec_size(),
        forall|x: int, y: int| a.in_bounds(x, y) ==> a.pixel(x, y) == b.pixel(x, y),
    ensures
        a@ == b@,
{
    let width = a.spec_size().width as int;
    let bands = a.spec_size().height as int / 8;
    assert forall|i: int| 0 <= i < a@.len() implies a@[i] == b@[i] by {
        assert(width > 0) by (nonlinear_arith)
            requires
                0 <= i < width * bands,
                0 <= width,
        ;
        let band = i / width;
        let x = i % width;
        assert(i == band * width + x && 0 <= band) by (nonlinear_arith)
            requires
                band == i / width,
                x == i % width,
                width > 0,
                i >= 0,
        ;
        assert(band < bands) by (nonlinear_arith)
            requires
                i == band * width + x,
                0 <= x,
                i < width * bands,
                width > 0,
        ;
        assert forall|k: u8| k < 8 implies bit(a@[i], k) == bit(b@[i], k) by {
            let y = band * 8 + k;
            assert(a.in_bounds(x, y));
            assert(y / 8 == band && y % 8 == k as int);
            assert(a.byte_index(x, y) == i);
            assert(a.pixel(x, y) == b.pixel(x, y));
        }
        lemma_bits_determine_byte(a@[i], b@[i]);
    }
    assert(a@ =~= b@);
}

/// Every pixel of a dark frame is dark.
pub proof fn lemma_dark_pixels(f: Frame, x: int, y: int)
    requires
        f.wf(),
        f.is_dark(),
        f.in_bounds(x, y),
    ensures
        !f.pixel(x, y),
{
    lemma_byte_index_bound(f.spec_size().width as int, f.spec_size().height as int / 8, y / 8, x);
    lemma_zero_has_no_bits((y % 8) as u8);
}

} // verus!
