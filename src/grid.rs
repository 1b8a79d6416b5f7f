//! A decoded grayscale image held as plain bytes.
use vstd::prelude::*;
use vstd::arithmetic::div_mod::lemma_fundamental_div_mod_converse;

verus! {

/// The largest width or height the library accepts. It keeps every running
/// sum and every coordinate well inside `i64`.
pub const MAX_SIDE: usize = 16777216;

/// A grayscale image: `height` rows of `width` intensities, row-major.
#[derive(Debug)]
pub struct PixelGrid {
    pub width: usize,
    pub height: usize,
    pub pixels: Vec<u8>,
}

/// The pixels of a `w` by `h` row-major image turned by 270 degrees
/// (90 degrees counter-clockwise): the result is `h` wide and `w` high, and the
/// source pixel at column `x`, row `y` lands at column `y`, row `w - 1 - x`.
pub open spec fn rotated_pixels(p: Seq<u8>, w: int, h: int) -> Seq<u8> {
    Seq::new((w * h) as nat, |j: int| p[(j % h) * w + (w - 1 - j / h)])
}

impl PixelGrid {
    /// One intensity per cell, and sides within `MAX_SIDE`.
    pub open spec fn wf(&self) -> bool {
        &&& self.width <= MAX_SIDE
        &&& self.height <= MAX_SIDE
        &&& self.pixels.len() == self.width * self.height
    }

    /// The intensity at column `col` of row `row`.
    pub open spec fn pixel(&self, row: int, col: int) -> u8 {
        self.pixels@[row * self.width + col]
    }

    /// Builds a grid from its dimensions and row-major intensities; `None` when
    /// the number of intensities is not `width * height` or a side exceeds
    /// `MAX_SIDE`.
    pub fn new(width: usize, height: usize, pixels: Vec<u8>) -> (r: Option<PixelGrid>)
        ensures
            r.is_some() <==> (width <= MAX_SIDE && height <= MAX_SIDE && pixels.len() == width
                * height),
            r matches Some(g) ==> g.wf() && g.width == width && g.height == height && g.pixels@
                == pixels@,
    {
        if width > MAX_SIDE || height > MAX_SIDE {
            return None;
        }
        assert(width * height <= MAX_SIDE * MAX_SIDE) by (nonlinear_arith)
            requires
                width <= MAX_SIDE,
                height <= MAX_SIDE,
        ;
        if pixels.len() as u64 != width as u64 * height as u64 {
            return None;
        }
        Some(PixelGrid { width, height, pixels })
    }

    pub fn width(&self) -> (r: usize)
        ensures
            r == self.width,
    {
        self.width
    }

    pub fn height(&self) -> (r: usize)
        ensures
            r == self.height,
    {
        self.height
    }

    /// The intensity at column `col` of row `row`.
    pub fn intensity_at(&self, row: usize, col: usize) -> (r: u8)
        requires
            self.wf(),
            row < self.height,
            col < self.width,
        ensures
            r == self.pixel(row as int, col as int),
    {
        proof {
            lemma_cell_index(row as int, col as int, self.width as int, self.height as int);
        }
        self.pixels[row * self.width + col]
    }

    /// The grid turned by 270 degrees: column `x` of row `y` moves to column
    /// `y` of row `width - 1 - x`.
    pub fn rotate270(&self) -> (r: PixelGrid)
        requires
            self.wf(),
        ensures
            r.wf(),
            r.width == self.height,
            r.height == self.width,
            r.pixels@ == rotated_pixels(self.pixels@, self.width as int, self.height as int),
    {
        let pixels = rotate_pixels_270(self.width as u32, self.height as u32, self.pixels.clone());
        proof {
            assert(self.width * self.height == self.height * self.width) by (nonlinear_arith);
        }
        PixelGrid { width: self.height, height: self.width, pixels }
    }
}

/// The row-major index of a cell lies inside the grid.
pub proof fn lemma_cell_index(row: int, col: int, w: int, h: int)
    requires
        0 <= row < h,
        0 <= col < w,
    ensures
        0 <= row * w + col < w * h,
        row * w + col + 1 <= (row + 1) * w,
        (row + 1) * w <= w * h,
{
    assert(0 <= row * w) by (nonlinear_arith)
        requires
            0 <= row,
            0 <= w,
    ;
    assert((row + 1) * w <= h * w) by (nonlinear_arith)
        requires
            row + 1 <= h,
            0 <= w,
    ;
    assert((row + 1) * w == row * w + w) by (nonlinear_arith);
    assert(h * w == w * h) by (nonlinear_arith);
}

/// A cell's row-major index gives back its row and column.
pub proof fn lemma_cell_coords(row: int, col: int, w: int, h: int)
    requires
        0 <= row < h,
        0 <= col < w,
    ensures
        0 <= row * w + col < w * h,
        (row * w + col) / w == row,
        (row * w + col) % w == col,
{
    lemma_cell_index(row, col, w, h);
    lemma_fundamental_div_mod_converse(row * w + col, w, row, col);
}

/// Every row-major index of a `w` by `h` grid names a cell of the grid.
pub proof fn lemma_index_coords(i: int, w: int, h: int)
    requires
        0 <= i < w * h,
        0 <= w,
        0 <= h,
    ensures
        w > 0,
        0 <= i / w < h,
        0 <= i % w < w,
        (i / w) * w + i % w == i,
{
    assert(w > 0) by {
        if w == 0 {
            assert(w * h == 0);
        }
    }
    vstd::arithmetic::div_mod::lemma_fundamental_div_mod(i, w);
    vstd::arithmetic::div_mod::lemma_div_pos_is_pos(i, w);
    let q = i / w;
    assert(q < h) by {
        if q >= h {
            assert(q * w >= h * w) by (nonlinear_arith)
                requires
                    q >= h,
                    w >= 0,
            ;
            assert(w * q == q * w) by (nonlinear_arith);
            assert(h * w == w * h) by (nonlinear_arith);
        }
    }
    assert(w * q == q * w) by (nonlinear_arith);
}

/// Relies on `image::imageops::rotate270` on a `GrayImage` built by
/// `ImageBuffer::from_raw` (which accepts a buffer of exactly `w * h` bytes):
/// the result is `h` wide and `w` high and puts source pixel `(x, y)` at
/// `(y, w - 1 - x)`; `into_raw` hands back its row-major bytes.
#[verifier::external_body]
fn rotate_pixels_270(w: u32, h: u32, pixels: Vec<u8>) -> (r: Vec<u8>)
    requires
        pixels.len() == w * h,
    ensures
        r@ == rotated_pixels(pixels@, w as int, h as int),
{
    let source = image::GrayImage::from_raw(w, h, pixels).unwrap();
    image::imageops::rotate270(&source).into_raw()
}

} // verus!
