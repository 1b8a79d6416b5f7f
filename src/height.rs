//! Elevation reconstruction along scanlines and per-row normalisation.
use vstd::prelude::*;
use crate::grid::{PixelGrid, MAX_SIDE, lemma_cell_coords, lemma_cell_index, lemma_index_coords};

verus! {

/// The bound on every elevation that reconstruction produces.
pub const RAW_BOUND: i64 = 2147483648;

/// The bound on every elevation a well-formed height field holds.
pub const ELEVATION_BOUND: i64 = 4294967296;

/// The elevation record of one pixel.
#[derive(Clone, Copy, Debug, PartialEq, Eq, Structural)]
pub struct Sample {
    /// Scanline index.
    pub row: usize,
    /// Position within the scanline.
    pub col: usize,
    /// Height at the leading edge of the pixel.
    pub elevation: i64,
    /// The pixel's intensity minus 127: the slope across the pixel.
    pub delta: i64,
}

/// One sample per pixel of a `width` by `height` grid, row-major.
#[derive(Debug)]
pub struct HeightField {
    pub width: usize,
    pub height: usize,
    pub samples: Vec<Sample>,
}

/// The slope a pixel contributes: its intensity centred on 127.
pub open spec fn delta_of(v: u8) -> int {
    v as int - 127
}

/// The running sum of the deltas of the first `c` pixels of row `r`.
pub open spec fn raw_elevation(p: Seq<u8>, w: int, r: int, c: int) -> int
    decreases c,
{
    if c <= 0 {
        0
    } else {
        raw_elevation(p, w, r, c - 1) + delta_of(p[r * w + c - 1])
    }
}

/// The samples reconstructed from a `w` by `h` row-major grid.
pub open spec fn raw_field(p: Seq<u8>, w: int, h: int) -> Seq<Sample> {
    Seq::new(
        (w * h) as nat,
        |i: int|
            Sample {
                row: (i / w) as usize,
                col: (i % w) as usize,
                elevation: raw_elevation(p, w, i / w, i % w) as i64,
                delta: delta_of(p[i]) as i64,
            },
    )
}

/// The sum of the elevations of the first `n` samples of row `r`.
pub open spec fn row_sum(s: Seq<Sample>, w: int, r: int, n: int) -> int
    decreases n,
{
    if n <= 0 {
        0
    } else {
        row_sum(s, w, r, n - 1) + s[r * w + n - 1].elevation
    }
}

/// The sum of the deltas of the first `n` samples of row `r`.
pub open spec fn row_delta_sum(s: Seq<Sample>, w: int, r: int, n: int) -> int
    decreases n,
{
    if n <= 0 {
        0
    } else {
        row_delta_sum(s, w, r, n - 1) + s[r * w + n - 1].delta
    }
}

/// Integer division rounding toward zero, for a positive divisor.
pub open spec fn trunc_div(a: int, b: int) -> int {
    if a >= 0 {
        a / b
    } else {
        -((-a) / b)
    }
}

/// The integer mean of the elevations of row `r`.
pub open spec fn row_mean(s: Seq<Sample>, w: int, r: int) -> int {
    trunc_div(row_sum(s, w, r, w), w)
}

/// Every sample with its row's mean elevation subtracted.
pub open spec fn normalized_field(s: Seq<Sample>, w: int) -> Seq<Sample> {
    s.map_values(
        |x: Sample|
            Sample {
                row: x.row,
                col: x.col,
                elevation: (x.elevation - row_mean(s, w, x.row as int)) as i64,
                delta: x.delta,
            },
    )
}

/// The lowest point of a sample's top surface.
pub open spec fn sample_floor(x: Sample) -> int {
    x.elevation + if x.delta < 0 {
        x.delta as int
    } else {
        0
    }
}

/// The least `sample_floor` over a non-empty sequence.
pub open spec fn lowest(s: Seq<Sample>) -> int
    decreases s.len(),
{
    if s.len() <= 1 {
        sample_floor(s[0])
    } else {
        let m = lowest(s.drop_last());
        let f = sample_floor(s.last());
        if f < m {
            f
        } else {
            m
        }
    }
}

/// The level of the base plane in elevation units: the lowest point, but
/// never above zero.
pub open spec fn floor_level(s: Seq<Sample>) -> int {
    if s.len() == 0 {
        0
    } else if lowest(s) < 0 {
        lowest(s)
    } else {
        0
    }
}

pub proof fn lemma_raw_elevation_bounds(p: Seq<u8>, w: int, r: int, c: int)
    requires
        c >= 0,
    ensures
        -127 * c <= raw_elevation(p, w, r, c) <= 128 * c,
    decreases c,
{
    if c > 0 {
        lemma_raw_elevation_bounds(p, w, r, c - 1);
    }
}


/// A truncated quotient of a sum of `w` values, each within `b` of zero, is
/// itself within `b` of zero.
proof fn lemma_trunc_div_bound(a: int, w: int, b: int)
    requires
        w > 0,
        b >= 0,
        -(w * b) <= a <= w * b,
    ensures
        -b <= trunc_div(a, w) <= b,
{
    let m = if a >= 0 { a } else { -a };
    vstd::arithmetic::div_mod::lemma_fundamental_div_mod(m, w);
    vstd::arithmetic::div_mod::lemma_div_pos_is_pos(m, w);
    let q = m / w;
    let r = m % w;
    assert(q <= b) by (nonlinear_arith)
        requires
            m == w * q + r,
            0 <= r < w,
            m <= w * b,
            w > 0,
    ;
}


/// The deltas of the first `n` samples of a reconstructed row add up to the
/// running sum after them.
proof fn lemma_row_delta_prefix(p: Seq<u8>, w: int, h: int, r: int, n: int)
    requires
        0 <= w <= MAX_SIDE,
        p.len() == w * h,
        0 <= r < h,
        0 <= n <= w,
    ensures
        row_delta_sum(raw_field(p, w, h), w, r, n) == raw_elevation(p, w, r, n),
    decreases n,
{
    if n > 0 {
        lemma_row_delta_prefix(p, w, h, r, n - 1);
        lemma_cell_coords(r, n - 1, w, h);
    }
}

/// Reconstruction closes along every row: the deltas of a row add up to the
/// elevation of its last sample plus that sample's own delta.
pub proof fn lemma_row_deltas_close(grid: PixelGrid, field: HeightField, r: int)
    requires
        grid.wf(),
        field.samples@ == raw_field(grid.pixels@, grid.width as int, grid.height as int),
        0 <= r < grid.height,
        grid.width > 0,
    ensures
        ({
            let w = grid.width as int;
            let last = field.samples@[r * w + w - 1];
            row_delta_sum(field.samples@, w, r, w) == last.elevation + last.delta
        }),
{
    let w = grid.width as int;
    let h = grid.height as int;
    let p = grid.pixels@;
    lemma_row_delta_prefix(p, w, h, r, w);
    lemma_cell_coords(r, w - 1, w, h);
    lemma_raw_elevation_bounds(p, w, r, w - 1);
}

/// A row's elevation sum stays within `n` times the bound on its elevations.
proof fn lemma_row_sum_bound(s: Seq<Sample>, w: int, h: int, r: int, n: int)
    requires
        s.len() == w * h,
        0 <= r < h,
        0 <= n <= w,
        forall|i: int| 0 <= i < s.len() ==> -RAW_BOUND <= #[trigger] s[i].elevation <= RAW_BOUND,
    ensures
        -(n * RAW_BOUND) <= row_sum(s, w, r, n) <= n * RAW_BOUND,
    decreases n,
{
    if n > 0 {
        lemma_row_sum_bound(s, w, h, r, n - 1);
        lemma_cell_index(r, n - 1, w, h);
    }
}

/// Subtracting `m` from every elevation of a row lowers its sum by `n * m`.
proof fn lemma_row_sum_shift(before: HeightField, r: int, n: int)
    requires
        before.wf(),
        before.is_raw(),
        0 <= r < before.height,
        0 <= n <= before.width,
    ensures
        ({
            let s = before.samples@;
            let w = before.width as int;
            row_sum(normalized_field(s, w), w, r, n) == row_sum(s, w, r, n) - n * row_mean(
                s,
                w,
                r,
            )
        }),
    decreases n,
{
    let s = before.samples@;
    let w = before.width as int;
    let h = before.height as int;
    if n > 0 {
        lemma_row_sum_shift(before, r, n - 1);
        lemma_cell_coords(r, n - 1, w, h);
        lemma_row_sum_bound(s, w, h, r, w);
        lemma_trunc_div_bound(row_sum(s, w, r, w), w, RAW_BOUND as int);
        let i = r * w + n - 1;
        let m = row_mean(s, w, r);
        assert(s[i].row == r);
        assert(normalized_field(s, w)[i].elevation == s[i].elevation - m);
        assert(n * m == (n - 1) * m + m) by (nonlinear_arith);
        assert(row_sum(normalized_field(s, w), w, r, n) == row_sum(normalized_field(s, w), w, r, n - 1)
            + normalized_field(s, w)[i].elevation);
        assert(row_sum(s, w, r, n) == row_sum(s, w, r, n - 1) + s[i].elevation);
    } else {
        assert(n * row_mean(s, w, r) == 0) by (nonlinear_arith)
            requires
                n == 0,
        ;
    }
}

/// What is left of `a` after taking away `b` times its truncated quotient by
/// `b` has a truncated quotient of zero.
proof fn lemma_trunc_remainder(a: int, b: int)
    requires
        b > 0,
    ensures
        trunc_div(a - b * trunc_div(a, b), b) == 0,
{
    let m = if a >= 0 { a } else { -a };
    vstd::arithmetic::div_mod::lemma_fundamental_div_mod(m, b);
    let q = m / b;
    let rem = m % b;
    assert(b * q == q * b) by (nonlinear_arith);
    if a >= 0 {
        assert(a - b * trunc_div(a, b) == rem);
        vstd::arithmetic::div_mod::lemma_basic_div(rem, b);
    } else {
        assert(trunc_div(a, b) == -q);
        assert(a - b * (-q) == -rem) by (nonlinear_arith)
            requires
                m == b * q + rem,
                a == -m,
        ;
        if rem > 0 {
            vstd::arithmetic::div_mod::lemma_basic_div(rem, b);
        }
    }
}

/// After normalisation every row's integer mean elevation, rounded toward
/// zero, is zero.
pub proof fn lemma_normalized_rows_centered(before: HeightField, after: HeightField, r: int)
    requires
        before.wf(),
        before.is_raw(),
        after.samples@ == normalized_field(before.samples@, before.width as int),
        0 <= r < before.height,
        before.width > 0,
    ensures
        row_mean(after.samples@, before.width as int, r) == 0,
{
    let w = before.width as int;
    let s = before.samples@;
    lemma_row_sum_shift(before, r, w);
    lemma_trunc_remainder(row_sum(s, w, r, w), w);
}

/// The base level lies at or below zero and at or below every point of every
/// sample's top surface.
pub proof fn lemma_base_below_cells(s: Seq<Sample>, i: int)
    requires
        0 <= i < s.len(),
    ensures
        floor_level(s) <= 0,
        floor_level(s) <= sample_floor(s[i]),
        floor_level(s) <= s[i].elevation,
        floor_level(s) <= s[i].elevation + s[i].delta,
{
    lemma_lowest_below(s, i);
}

/// The base level of samples whose elevations and deltas are in bounds is
/// in bounds too.
pub proof fn lemma_floor_level_bound(s: Seq<Sample>)
    requires
        forall|i: int|
            0 <= i < s.len() ==> -ELEVATION_BOUND <= #[trigger] s[i].elevation && -127 <= s[i].delta,
    ensures
        -ELEVATION_BOUND - 127 <= floor_level(s) <= 0,
    decreases s.len(),
{
    if s.len() > 1 {
        lemma_floor_level_bound(s.drop_last());
        assert(s.drop_last()[0] == s[0]);
    }
}

proof fn lemma_lowest_below(s: Seq<Sample>, i: int)
    requires
        0 <= i < s.len(),
    ensures
        lowest(s) <= sample_floor(s[i]),
    decreases s.len(),
{
    if s.len() > 1 && i < s.len() - 1 {
        lemma_lowest_below(s.drop_last(), i);
    }
}

impl HeightField {
    /// The samples cover the grid row by row, each knowing its row and
    /// column, with elevations and deltas in range.
    pub open spec fn wf(&self) -> bool {
        &&& self.width <= MAX_SIDE
        &&& self.height <= MAX_SIDE
        &&& self.samples.len() == self.width * self.height
        &&& forall|i: int|
            0 <= i < self.samples.len() ==> {
                let x = #[trigger] self.samples@[i];
                &&& x.row == i / (self.width as int)
                &&& x.col == i % (self.width as int)
                &&& -ELEVATION_BOUND <= x.elevation <= ELEVATION_BOUND
                &&& -127 <= x.delta <= 128
            }
    }

    /// Every elevation is within `RAW_BOUND`, as reconstruction leaves it.
    pub open spec fn is_raw(&self) -> bool {
        forall|i: int|
            0 <= i < self.samples.len() ==> -RAW_BOUND <= #[trigger] self.samples@[i].elevation
                <= RAW_BOUND
    }

    /// Subtracts from every elevation the integer mean (rounded toward zero)
    /// of its row's elevations, so that each row is centred on zero. The
    /// field must hold elevations as reconstruction leaves them: normalising
    /// once more could leave `ELEVATION_BOUND`.
    pub fn normalize(&mut self)
        requires
            old(self).wf(),
            old(self).is_raw(),
        ensures
            final(self).wf(),
            final(self).width == old(self).width,
            final(self).height == old(self).height,
            final(self).samples@ == normalized_field(old(self).samples@, old(self).width as int),
    {
        let w = self.width;
        let h = self.height;
        let ghost old_s = self.samples@;
        let ghost target = normalized_field(old_s, w as int);
        if w == 0 {
            assert(self.samples@ =~= target);
            return;
        }
        let wi = w as i64;
        let mut row: usize = 0;
        while row < h
            invariant
                self.width == w,
                self.height == h,
                0 < w <= MAX_SIDE,
                h <= MAX_SIDE,
                wi == w,
                row <= h,
                old_s.len() == w * h,
                self.samples.len() == old_s.len(),
                target == normalized_field(old_s, w as int),
                forall|i: int|
                    0 <= i < old_s.len() ==> {
                        let x = #[trigger] old_s[i];
                        &&& x.row == i / (w as int)
                        &&& x.col == i % (w as int)
                        &&& -RAW_BOUND <= x.elevation <= RAW_BOUND
                        &&& -127 <= x.delta <= 128
                    },
                forall|i: int|
                    0 <= i < self.samples.len() ==> {
                        &&& i < row * w ==> #[trigger] self.samples@[i] == target[i]
                        &&& i >= row * w ==> self.samples@[i] == old_s[i]
                        &&& -ELEVATION_BOUND <= self.samples@[i].elevation <= ELEVATION_BOUND
                    },
            decreases h - row,
        {
            let mut sum: i64 = 0;
            let mut col: usize = 0;
            while col < w
                invariant
                    self.width == w,
                    self.height == h,
                    0 < w <= MAX_SIDE,
                    h <= MAX_SIDE,
                    row < h,
                    col <= w,
                    old_s.len() == w * h,
                    self.samples.len() == old_s.len(),
                    forall|i: int|
                        0 <= i < old_s.len() ==> -RAW_BOUND <= #[trigger] old_s[i].elevation
                            <= RAW_BOUND,
                    forall|i: int|
                        row * w <= i < self.samples.len() ==> #[trigger] self.samples@[i]
                            == old_s[i],
                    sum == row_sum(old_s, w as int, row as int, col as int),
                    -(col * RAW_BOUND) <= sum <= col * RAW_BOUND,
                decreases w - col,
            {
                proof {
                    lemma_cell_index(row as int, col as int, w as int, h as int);
                }
                sum = sum + self.samples[row * w + col].elevation;
                col = col + 1;
            }
            let mean: i64 = if sum >= 0 {
                sum / wi
            } else {
                -((-sum) / wi)
            };
            proof {
                lemma_trunc_div_bound(sum as int, w as int, RAW_BOUND as int);
            }
            assert(mean == row_mean(old_s, w as int, row as int));
            col = 0;
            while col < w
                invariant
                    self.width == w,
                    self.height == h,
                    0 < w <= MAX_SIDE,
                    h <= MAX_SIDE,
                    row < h,
                    col <= w,
                    old_s.len() == w * h,
                    self.samples.len() == old_s.len(),
                    target == normalized_field(old_s, w as int),
                    mean == row_mean(old_s, w as int, row as int),
                    -RAW_BOUND <= mean <= RAW_BOUND,
                    forall|i: int|
                        0 <= i < old_s.len() ==> {
                            let x = #[trigger] old_s[i];
                            &&& x.row == i / (w as int)
                            &&& -RAW_BOUND <= x.elevation <= RAW_BOUND
                        },
                    forall|i: int|
                        0 <= i < self.samples.len() ==> {
                            &&& i < row * w + col ==> #[trigger] self.samples@[i] == target[i]
                            &&& i >= row * w + col ==> self.samples@[i] == old_s[i]
                            &&& -ELEVATION_BOUND <= self.samples@[i].elevation <= ELEVATION_BOUND
                        },
                decreases w - col,
            {
                proof {
                    lemma_cell_coords(row as int, col as int, w as int, h as int);
                }
                let idx = row * w + col;
                let x = self.samples[idx];
                let y = Sample { row: x.row, col: x.col, elevation: x.elevation - mean, delta: x.delta };
                self.samples.set(idx, y);
                assert(self.samples@[idx as int] == target[idx as int]);
                col = col + 1;
            }
            proof {
                assert((row + 1) * w == row * w + w) by (nonlinear_arith);
            }
            row = row + 1;
        }
        proof {
            assert(h * w == w * h) by (nonlinear_arith);
        }
        assert(self.samples@ =~= target);
    }

    /// The least `elevation + min(delta, 0)` over all samples: the lowest
    /// point any cell's top surface reaches. `None` for an empty field.
    pub fn lowest_point(&self) -> (r: Option<i64>)
        requires
            self.wf(),
        ensures
            r.is_none() <==> self.samples.len() == 0,
            r matches Some(m) ==> m == lowest(self.samples@),
    {
        let n = self.samples.len();
        if n == 0 {
            return None;
        }
        let ghost s = self.samples@;
        let first = self.samples[0];
        let mut m: i64 = first.elevation + if first.delta < 0 { first.delta } else { 0 };
        assert(s.take(1).len() == 1 && s.take(1)[0] == s[0]);
        let mut i: usize = 1;
        while i < n
            invariant
                self.wf(),
                s == self.samples@,
                n == s.len(),
                1 <= i <= n,
                m == lowest(s.take(i as int)),
                -ELEVATION_BOUND - 127 <= m <= ELEVATION_BOUND + 128,
            decreases n - i,
        {
            let x = self.samples[i];
            let f: i64 = x.elevation + if x.delta < 0 { x.delta } else { 0 };
            assert(s.take(i as int + 1).drop_last() =~= s.take(i as int));
            assert(s.take(i as int + 1).last() == x);
            if f < m {
                m = f;
            }
            i = i + 1;
        }
        assert(s.take(n as int) =~= s);
        Some(m)
    }

    /// The level of the base plane in elevation units: the lowest point of
    /// the field, or zero when that is higher or the field is empty.
    pub fn base_level(&self) -> (r: i64)
        requires
            self.wf(),
        ensures
            r == floor_level(self.samples@),
            r <= 0,
    {
        match self.lowest_point() {
            Some(m) => if m < 0 {
                m
            } else {
                0
            },
            None => 0,
        }
    }

    /// Walks each row of `grid` from left to right with a running sum that
    /// starts at zero: a sample's elevation is the sum before its own pixel,
    /// its delta the pixel's intensity minus 127.
    pub fn reconstruct(grid: &PixelGrid) -> (r: HeightField)
        requires
            grid.wf(),
        ensures
            r.wf(),
            r.is_raw(),
            r.width == grid.width,
            r.height == grid.height,
            r.samples@ == raw_field(grid.pixels@, grid.width as int, grid.height as int),
    {
        let w = grid.width;
        let h = grid.height;
        let ghost p = grid.pixels@;
        let ghost model = raw_field(p, w as int, h as int);
        let mut samples: Vec<Sample> = Vec::new();
        let mut row: usize = 0;
        while row < h
            invariant
                grid.wf(),
                w == grid.width,
                h == grid.height,
                p == grid.pixels@,
                model == raw_field(p, w as int, h as int),
                row <= h,
                samples.len() == row * w,
                forall|i: int| 0 <= i < samples.len() ==> #[trigger] samples@[i] == model[i],
            decreases h - row,
        {
            let mut acc: i64 = 0;
            let mut col: usize = 0;
            while col < w
                invariant
                    grid.wf(),
                    w == grid.width,
                    h == grid.height,
                    p == grid.pixels@,
                    model == raw_field(p, w as int, h as int),
                    row < h,
                    col <= w,
                    samples.len() == row * w + col,
                    acc == raw_elevation(p, w as int, row as int, col as int),
                    forall|i: int| 0 <= i < samples.len() ==> #[trigger] samples@[i] == model[i],
                decreases w - col,
            {
                proof {
                    lemma_cell_coords(row as int, col as int, w as int, h as int);
                    lemma_raw_elevation_bounds(p, w as int, row as int, col as int);
                    lemma_raw_elevation_bounds(p, w as int, row as int, col as int + 1);
                }
                let v = grid.intensity_at(row, col);
                let delta = v as i64 - 127;
                let ghost i = row * w + col;
                samples.push(Sample { row, col, elevation: acc, delta });
                assert(samples@[i] == model[i]);
                acc = acc + delta;
                col = col + 1;
            }
            proof {
                assert((row + 1) * w == row * w + w) by (nonlinear_arith);
            }
            row = row + 1;
        }
        assert(row * w == w * h) by (nonlinear_arith)
            requires
                row == h,
        ;
        assert(samples@ =~= model);
        let r = HeightField { width: w, height: h, samples };
        assert forall|i: int| 0 <= i < r.samples.len() implies {
            let x = #[trigger] r.samples@[i];
            &&& x.row == i / (w as int)
            &&& x.col == i % (w as int)
            &&& -RAW_BOUND <= x.elevation <= RAW_BOUND
            &&& -127 <= x.delta <= 128
        } by {
            let q = i / (w as int);
            let c = i % (w as int);
            lemma_index_coords(i, w as int, h as int);
            lemma_cell_coords(q, c, w as int, h as int);
            lemma_raw_elevation_bounds(p, w as int, q, c);
        }
        r
    }
}

} // verus!
