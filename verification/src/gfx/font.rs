//! Glyph bitmaps and the fonts that hold them.
use vstd::prelude::*;
use std::collections::BTreeMap;
use crate::gfx::bits::{bit, lemma_set_bit, lemma_zero_has_no_bits};
use crate::gfx::frame::{lemma_band_bound, lemma_byte_index_bound};
use crate::gfx::geometry::Rect;

verus! {

/// One character's bitmap and where it sits relative to the pen.
///
/// The bitmap is packed like a frame, eight rows to a byte, and is as wide
/// as the glyph. The position of `rect` is the offset of the bitmap's top
/// left corner from the pen and may be negative.
pub struct Glyph {
    rect: Rect,
    data: Vec<u8>,
}

impl View for Glyph {
    type V = Seq<u8>;

    /// The packed bitmap.
    closed spec fn view(&self) -> Seq<u8> {
        self.data@
    }
}

impl Glyph {
    /// The bitmap's extent, positioned relative to the pen.
    pub closed spec fn spec_rect(self) -> Rect {
        self.rect
    }

    pub open spec fn spec_width(self) -> int {
        self.spec_rect().size.width as int
    }

    pub open spec fn spec_height(self) -> int {
        self.spec_rect().size.height as int
    }

    /// The number of byte rows: the height in bands, rounded up.
    pub open spec fn bands(self) -> int {
        (self.spec_height() + 7) / 8
    }

    /// The bitmap has one byte per band and column.
    pub open spec fn wf(self) -> bool {
        &&& self@.len() == self.spec_width() * self.bands()
        &&& self@.len() <= usize::MAX
    }

    /// Whether bit `(gx, gy)` of the bitmap is set.
    pub open spec fn pixel(self, gx: int, gy: int) -> bool {
        bit(self@[(gy / 8) * self.spec_width() + gx], (gy % 8) as u8)
    }

    /// Whether `(gx, gy)` lies in the bitmap and is set there.
    pub open spec fn inks(self, gx: int, gy: int) -> bool {
        &&& 0 <= gx < self.spec_width()
        &&& 0 <= gy < self.spec_height()
        &&& self.pixel(gx, gy)
    }

    /// Whether the glyph, drawn with the pen at `(pen_x, pen_y)`, inks the
    /// frame pixel `(x, y)`.
    pub open spec fn inks_from(self, pen_x: int, pen_y: int, x: int, y: int) -> bool {
        self.inks(x - pen_x - self.spec_rect().spec_left(), y - pen_y - self.spec_rect().spec_top())
    }

    /// Whether `len` bytes are a bitmap for `rect`.
    pub open spec fn fits(rect: Rect, len: int) -> bool {
        len == rect.size.width * ((rect.size.height + 7) / 8)
    }

    /// A glyph from its rectangle and packed bitmap, where the two agree.
    pub fn new(rect: Rect, data: Vec<u8>) -> (g: Option<Glyph>)
        ensures
            g is Some <==> Glyph::fits(rect, data@.len() as int),
            g matches Some(glyph) ==> glyph.wf() && glyph.spec_rect() == rect && glyph@ == data@,
    {
        let height: usize = rect.size.height;
        let bands: usize = height / 8 + if height % 8 == 0 { 0 } else { 1 };
        let width: usize = rect.size.width;
        let len: usize = data.len();
        assert(bands == (height + 7) / 8);
        let agree: bool = if bands == 0 {
            len == 0
        } else {
            len % bands == 0 && len / bands == width
        };
        proof {
            if bands == 0 {
                assert(width * bands == 0);
            } else {
                assert((len % bands == 0 && len / bands == width) <==> len == width * bands)
                    by (nonlinear_arith)
                    requires
                        bands > 0,
                        len >= 0,
                ;
            }
        }
        if agree {
            Some(Glyph { rect, data })
        } else {
            None
        }
    }

    pub fn rect(&self) -> (r: Rect)
        ensures
            r == self.spec_rect(),
    {
        self.rect
    }

    pub fn data(&self) -> (d: &[u8])
        ensures
            d@ == self@,
    {
        self.data.as_slice()
    }
}

/// Coverage above this value makes a set bit.
pub const COVERAGE_THRESHOLD: u8 = 128;

/// The first codepoint that a font is scanned for by default.
pub const SCAN_START: u32 = 16;

/// The end of the default scan: one past its last codepoint.
pub const SCAN_END: u32 = 2000;

/// What a rasterizer yields for one codepoint: eight-bit coverage, one byte
/// per pixel in rows from top to bottom, and the offset of the bitmap's
/// corner from the pen.
pub struct GlyphBitmap {
    pub width: usize,
    pub height: usize,
    pub left: i32,
    pub top: i32,
    pub data: Vec<u8>,
}

impl GlyphBitmap {
    /// There is one byte of coverage per pixel.
    pub open spec fn wf(self) -> bool {
        self.data@.len() == self.width * self.height
    }

    /// Whether the coverage at `(x, y)` passes the threshold.
    pub open spec fn covered(self, x: int, y: int) -> bool {
        self.data@[x + y * self.width] > COVERAGE_THRESHOLD
    }

    /// The rectangle of the glyph that this bitmap renders to. Offsets
    /// beyond the 16-bit grid wrap around.
    pub open spec fn spec_rect(self) -> Rect {
        Rect::spec_xywh(self.left as i16, self.top as i16, self.width, self.height)
    }

    /// Whether `glyph` is this bitmap thresholded and packed: the same
    /// rectangle, a set bit exactly where the coverage passes the
    /// threshold, and no bit set below the last row.
    pub open spec fn renders_to(self, glyph: Glyph) -> bool {
        &&& glyph.wf()
        &&& glyph.spec_rect() == self.spec_rect()
        &&& forall|x: int, y: int|
            0 <= x < self.width && 0 <= y < glyph.bands() * 8 ==> #[trigger] glyph.pixel(x, y) == (y
                < self.height && self.covered(x, y))
    }
}

/// Whether byte `(band, x)` of a packed bitmap holds the thresholded
/// coverage of its eight rows.
pub open spec fn packed_byte(out: Seq<u8>, bitmap: GlyphBitmap, band: int, x: int) -> bool {
    forall|k: u8|
        k < 8 ==> #[trigger] bit(out[band * bitmap.width + x], k) == (band * 8 + k < bitmap.height
            && bitmap.covered(x, band * 8 + k))
}

/// Thresholds a coverage bitmap and packs it eight rows to a byte. A
/// bitmap whose data does not match its dimensions gives no glyph.
pub fn render_glyph(bitmap: &GlyphBitmap) -> (g: Option<Glyph>)
    ensures
        g is Some <==> bitmap.wf(),
        g matches Some(glyph) ==> bitmap.renders_to(glyph),
{
    let width: usize = bitmap.width;
    let height: usize = bitmap.height;
    let len: usize = bitmap.data.len();
    let matches_size: bool = if height == 0 {
        len == 0
    } else {
        len % height == 0 && len / height == width
    };
    proof {
        if height == 0 {
            assert(width * height == 0);
        } else {
            assert((len % height == 0 && len / height == width) <==> len == width * height)
                by (nonlinear_arith)
                requires
                    height > 0,
                    len >= 0,
            ;
        }
    }
    if !matches_size {
        return None;
    }
    let rows: usize = height / 8 + if height % 8 == 0 { 0 } else { 1 };
    assert(rows == (height + 7) / 8);
    proof {
        assert(width * rows <= width * height) by (nonlinear_arith)
            requires
                rows <= height,
        ;
    }
    let mut data: Vec<u8> = Vec::new();
    let mut row: usize = 0;
    while row < rows
        invariant
            bitmap.wf(),
            width == bitmap.width,
            height == bitmap.height,
            rows == (height + 7) / 8,
            width * rows <= usize::MAX,
            row <= rows,
            bitmap.data@.len() <= usize::MAX,
            data@.len() == row * width,
            forall|r: int, c: int|
                0 <= r < row && 0 <= c < width ==> #[trigger] packed_byte(data@, *bitmap, r, c),
        decreases rows - row,
    {
        let y: usize = row * 8;
        let mut x: usize = 0;
        while x < width
            invariant
                bitmap.wf(),
                width == bitmap.width,
                height == bitmap.height,
                rows == (height + 7) / 8,
                width * rows <= usize::MAX,
                row < rows,
                y == row * 8,
                x <= width,
                bitmap.data@.len() <= usize::MAX,
                data@.len() == row * width + x,
                forall|r: int, c: int|
                    0 <= c < width && (0 <= r < row || (r == row && c < x)) ==> #[trigger] packed_byte(
                        data@,
                        *bitmap,
                        r,
                        c,
                    ),
            decreases width - x,
        {
            let count: usize = if height - y < 8 { height - y } else { 8 };
            let mut v: u8 = 0;
            let mut b: usize = 0;
            proof {
                assert forall|k: u8| k < 8 implies !#[trigger] bit(v, k) by {
                    lemma_zero_has_no_bits(k);
                }
            }
            while b < count
                invariant
                    bitmap.wf(),
                    bitmap.data@.len() <= usize::MAX,
                    width == bitmap.width,
                    height == bitmap.height,
                    y < height,
                    x < width,
                    count == (if height - y < 8 { height - y } else { 8 }),
                    b <= count,
                    forall|k: u8| k < 8 ==> #[trigger] bit(v, k) == (k < b && bitmap.covered(x as int, y + k)),
                decreases count - b,
            {
                proof {
                    lemma_byte_index_bound(width as int, height as int, (y + b) as int, x as int);
                    assert((y + b) * width + x == x + (y + b) * width);
                }
                let ghost before = v;
                if bitmap.data[x + (y + b) * width] > COVERAGE_THRESHOLD {
                    v = v | (1u8 << (b as u8));
                }
                proof {
                    assert forall|k: u8| k < 8 implies #[trigger] bit(v, k) == (k < b + 1
                        && bitmap.covered(x as int, y + k)) by {
                        lemma_set_bit(before, b as u8, k);
                    }
                }
                b += 1;
            }
            proof {
                lemma_band_bound(width as int, rows as int, row as int);
            }
            let ghost prev = data@;
            data.push(v);
            proof {
                assert forall|r: int, c: int|
                    0 <= c < width && (0 <= r < row || (r == row && c < x + 1)) implies #[trigger] packed_byte(
                    data@,
                    *bitmap,
                    r,
                    c,
                ) by {
                    if r == row && c == x {
                        assert(data@[r * width + c] == v);
                    } else {
                        if r < row {
                            lemma_band_bound(width as int, row as int, r);
                        }
                        assert(r * width + c < prev.len());
                        assert(packed_byte(prev, *bitmap, r, c));
                        assert(data@[r * width + c] == prev[r * width + c]);
                    }
                }
            }
            x += 1;
        }
        proof {
            assert((row + 1) * width == row * width + width) by (nonlinear_arith);
        }
        row += 1;
    }
    let rect = Rect::xywh(
        #[verifier::truncate]
        (bitmap.left as i16),
        #[verifier::truncate]
        (bitmap.top as i16),
        width,
        height,
    );
    let glyph = Glyph { rect, data };
    proof {
        assert(rows * width == width * rows) by (nonlinear_arith);
        assert forall|x: int, y: int|
            0 <= x < bitmap.width && 0 <= y < glyph.bands() * 8 implies #[trigger] glyph.pixel(x, y)
            == (y < bitmap.height && bitmap.covered(x, y)) by {
            assert(packed_byte(glyph@, *bitmap, y / 8, x));
        }
    }
    Some(glyph)
}

/// A sparse map from codepoint to glyph, built once by [`Font::load`].
pub struct Font {
    glyphs: BTreeMap<u32, Glyph>,
}

impl View for Font {
    type V = Map<u32, Glyph>;

    /// The glyphs by codepoint.
    closed spec fn view(&self) -> Map<u32, Glyph> {
        self.glyphs@
    }
}

impl Font {
    /// Every glyph of the font is well formed.
    pub open spec fn wf(self) -> bool {
        forall|c: u32| self@.contains_key(c) ==> #[trigger] self@[c].wf()
    }

    /// What a scan leaves for codepoint `c`: the rasterizer's bitmap, where
    /// `c` was scanned and the rasterizer produced a sound one.
    pub open spec fn scanned(first: u32, scan: Seq<Option<GlyphBitmap>>, c: u32) -> Option<
        GlyphBitmap,
    > {
        if first <= c < first + scan.len() && scan[c - first] is Some && scan[c - first]->0.wf() {
            scan[c - first]
        } else {
            None
        }
    }

    /// A font without glyphs.
    fn new() -> (f: Font)
        ensures
            f@ == Map::<u32, Glyph>::empty(),
            f.wf(),
    {
        Font { glyphs: BTreeMap::new() }
    }

    /// Gives codepoint `codepoint` the glyph `glyph`, in place of any it had.
    fn insert(&mut self, codepoint: u32, glyph: Glyph)
        requires
            old(self).wf(),
            glyph.wf(),
        ensures
            final(self)@ == old(self)@.insert(codepoint, glyph),
            final(self).wf(),
    {
        broadcast use vstd::laws_cmp::group_laws_cmp;

        self.glyphs.insert(codepoint, glyph);
        proof {
            assert forall|c: u32| self@.contains_key(c) implies #[trigger] self@[c].wf() by {
                if c != codepoint {
                    assert(old(self)@.contains_key(c));
                }
            }
        }
    }

    /// Builds a font from a rasterizer's answers for the codepoints from
    /// `first` on: `scan[i]` is what it produced for codepoint `first + i`,
    /// or `None` where it could not. A codepoint without a sound bitmap is
    /// left out.
    pub fn load(first: u32, scan: Vec<Option<GlyphBitmap>>) -> (f: Font)
        requires
            first + scan@.len() <= u32::MAX + 1,
        ensures
            f.wf(),
            forall|c: u32| f@.contains_key(c) <==> Font::scanned(first, scan@, c) is Some,
            forall|c: u32|
                f@.contains_key(c) ==> (#[trigger] Font::scanned(first, scan@, c))->0.renders_to(
                    f@[c],
                ),
    {
        let mut font = Font::new();
        let mut i: usize = 0;
        while i < scan.len()
            invariant
                first + scan@.len() <= u32::MAX + 1,
                i <= scan@.len(),
                font.wf(),
                forall|c: u32|
                    font@.contains_key(c) <==> c < first + i && Font::scanned(first, scan@, c)
                        is Some,
                forall|c: u32|
                    font@.contains_key(c) ==> (#[trigger] Font::scanned(
                        first,
                        scan@,
                        c,
                    ))->0.renders_to(font@[c]),
            decreases scan@.len() - i,
        {
            let codepoint: u32 = first + i as u32;
            match &scan[i] {
                Some(bitmap) => {
                    match render_glyph(bitmap) {
                        Some(glyph) => {
                            font.insert(codepoint, glyph);
                        },
                        None => {},
                    }
                },
                None => {},
            }
            i += 1;
        }
        font
    }

    /// The glyph of `codepoint`, if the font has one.
    pub fn get_glyph(&self, codepoint: u32) -> (g: Option<&Glyph>)
        ensures
            g is Some <==> self@.contains_key(codepoint),
            g matches Some(glyph) ==> *glyph == self@[codepoint],
    {
        broadcast use vstd::laws_cmp::group_laws_cmp;

        self.glyphs.get(&codepoint)
    }
}

} // verus!
