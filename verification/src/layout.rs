//! Sheet geometry: the pixel size of a sheet, and where the cells of the
//! photo grid stand on it.

use vstd::prelude::*;
use vstd::arithmetic::div_mod::{lemma_fundamental_div_mod, lemma_div_pos_is_pos};

use crate::paper::{PaperSize, oriented_tenth_mm};

verus! {

/// `a - b`, or 0 when `b >= a` (unsigned saturating subtraction).
pub open spec fn sat_sub(a: int, b: int) -> int {
    if a > b { a - b } else { 0 }
}

/// `n / d` rounded to the nearest integer, halves rounded up (for `n >= 0`, `d > 0`).
pub open spec fn round_div(n: int, d: int) -> int {
    (2 * n + d) / (2 * d)
}

/// `v` capped at the largest `u32`.
pub open spec fn cap_u32(v: int) -> int {
    if v > u32::MAX { u32::MAX as int } else { v }
}

/// Number of pixels that `tenth_mm` tenths of a millimetre span at `dpi` dots per inch
/// (one inch is 254 tenths of a millimetre), rounded to the nearest pixel.
pub open spec fn length_px(tenth_mm: int, dpi: int) -> int {
    cap_u32(round_div(tenth_mm * dpi, 254))
}

/// Width of the grid's drawing area along one axis: the page less both margins.
pub open spec fn avail_extent(page: int, margin: int) -> int {
    sat_sub(page, 2 * margin)
}

/// Extent of one cell along an axis: the drawing area less the `n - 1` gaps, shared by `n` cells.
pub open spec fn cell_extent(page: int, margin: int, n: int, gap: int) -> int {
    sat_sub(avail_extent(page, margin), (n - 1) * gap) / n
}

/// Extent of the whole grid along an axis: `n` cells and the gaps between them.
pub open spec fn grid_extent(n: int, cell: int, gap: int) -> int {
    n * cell + (n - 1) * gap
}

/// Where the grid begins along an axis: after the margin, centred in what the grid leaves free.
pub open spec fn grid_start(page: int, margin: int, n: int, gap: int) -> int {
    margin + sat_sub(avail_extent(page, margin), grid_extent(n, cell_extent(page, margin, n, gap), gap)) / 2
}

/// The axis computation stays within `u32` (twice the margin, and the gaps together).
pub open spec fn axis_in_range(margin: int, n: int, gap: int) -> bool {
    &&& 2 * margin <= u32::MAX
    &&& (n - 1) * gap <= u32::MAX
}

/// Number of columns (or rows) a configuration asks for, at least one.
pub open spec fn at_least_one(n: int) -> int {
    if n < 1 { 1 } else { n }
}

/// A sheet to lay a grid out on: its pixel size, margins and the gap between cells.
#[derive(Debug, Clone, Copy, PartialEq, Eq, Structural)]
pub struct SheetLayout {
    pub page_w: u32,
    pub page_h: u32,
    pub margin_x: u32,
    pub margin_y: u32,
    pub gap: u32,
}

/// Where the cells of a grid stand on a sheet.
#[derive(Debug, Clone, Copy, PartialEq, Eq, Structural)]
pub struct GridGeometry {
    pub cols: u32,
    pub rows: u32,
    pub cell_w: u32,
    pub cell_h: u32,
    pub gap: u32,
    pub start_x: u32,
    pub start_y: u32,
}

impl SheetLayout {
    /// The grid computation on this sheet stays within `u32` for `cols` x `rows` cells.
    pub open spec fn fits(self, cols: int, rows: int) -> bool {
        &&& 1 <= at_least_one(cols) <= u32::MAX
        &&& 1 <= at_least_one(rows) <= u32::MAX
        &&& axis_in_range(self.margin_x as int, at_least_one(cols), self.gap as int)
        &&& axis_in_range(self.margin_y as int, at_least_one(rows), self.gap as int)
    }

    /// The grid this sheet holds for `cols` x `rows` cells.
    pub open spec fn geometry_spec(self, cols: int, rows: int) -> GridGeometry {
        let c = at_least_one(cols);
        let r = at_least_one(rows);
        GridGeometry {
            cols: c as u32,
            rows: r as u32,
            cell_w: cell_extent(self.page_w as int, self.margin_x as int, c, self.gap as int) as u32,
            cell_h: cell_extent(self.page_h as int, self.margin_y as int, r, self.gap as int) as u32,
            gap: self.gap,
            start_x: grid_start(self.page_w as int, self.margin_x as int, c, self.gap as int) as u32,
            start_y: grid_start(self.page_h as int, self.margin_y as int, r, self.gap as int) as u32,
        }
    }
}

impl GridGeometry {
    /// Cells on one sheet.
    pub open spec fn slots(self) -> int {
        self.cols * self.rows
    }

    /// Left edge of the cell in grid slot `slot` (slots fill rows left to right, top to bottom).
    pub open spec fn cell_x(self, slot: int) -> int {
        self.start_x + (slot % (self.cols as int)) * (self.cell_w + self.gap)
    }

    /// Top edge of the cell in grid slot `slot`.
    pub open spec fn cell_y(self, slot: int) -> int {
        self.start_y + (slot / (self.cols as int)) * (self.cell_h + self.gap)
    }

    /// The position of slot `slot` is computed within `u32`.
    pub open spec fn origin_in_range(self, slot: int) -> bool {
        &&& self.cell_w + self.gap <= u32::MAX
        &&& self.cell_h + self.gap <= u32::MAX
        &&& self.cell_x(slot) <= u32::MAX
        &&& self.cell_y(slot) <= u32::MAX
    }

    /// Left and top edge of the cell in grid slot `slot`.
    pub fn cell_origin(&self, slot: u32) -> (r: (u32, u32))
        requires
            self.cols >= 1,
            self.origin_in_range(slot as int),
        ensures
            r.0 == self.cell_x(slot as int),
            r.1 == self.cell_y(slot as int),
    {
        let row = slot / self.cols;
        let col = slot % self.cols;
        let step_x = self.cell_w + self.gap;
        let step_y = self.cell_h + self.gap;
        let x = self.start_x as u64 + col as u64 * step_x as u64;
        let y = self.start_y as u64 + row as u64 * step_y as u64;
        (x as u32, y as u32)
    }
}

proof fn lemma_div_mul_le(x: int, n: int)
    requires
        x >= 0,
        n >= 1,
    ensures
        n * (x / n) <= x,
        0 <= x / n <= x,
{
    lemma_fundamental_div_mod(x, n);
    lemma_div_pos_is_pos(x, n);
    assert(x / n <= x) by (nonlinear_arith)
        requires x >= 0, n >= 1, n * (x / n) <= x, x / n >= 0;
}

/// One axis of the grid: the cell extent and where the grid begins.
fn axis_layout(page: u32, margin: u32, n: u32, gap: u32) -> (r: (u32, u32))
    requires
        n >= 1,
        axis_in_range(margin as int, n as int, gap as int),
    ensures
        r.0 == cell_extent(page as int, margin as int, n as int, gap as int),
        r.1 == grid_start(page as int, margin as int, n as int, gap as int),
{
    let twice_margin: u64 = 2 * margin as u64;
    let avail: u64 = if page as u64 > twice_margin { page as u64 - twice_margin } else { 0 };
    let gaps: u64 = (n as u64 - 1) * gap as u64;
    let free: u64 = if avail > gaps { avail - gaps } else { 0 };
    let cell: u64 = free / n as u64;
    proof {
        lemma_div_mul_le(free as int, n as int);
    }
    let used: u64 = n as u64 * cell + gaps;
    let start: u64 = margin as u64 + (if avail > used { avail - used } else { 0 }) / 2;
    (cell as u32, start as u32)
}

impl SheetLayout {
    /// Where the cells of a `cols` x `rows` grid stand on this sheet (a count below one counts as one).
    pub fn geometry(&self, cols: usize, rows: usize) -> (g: GridGeometry)
        requires
            self.fits(cols as int, rows as int),
        ensures
            g == self.geometry_spec(cols as int, rows as int),
    {
        let c: u32 = if cols < 1 { 1 } else { cols as u32 };
        let r: u32 = if rows < 1 { 1 } else { rows as u32 };
        let (cell_w, start_x) = axis_layout(self.page_w, self.margin_x, c, self.gap);
        let (cell_h, start_y) = axis_layout(self.page_h, self.margin_y, r, self.gap);
        GridGeometry { cols: c, rows: r, cell_w, cell_h, gap: self.gap, start_x, start_y }
    }
}

/// Pixel width and height of a sheet of paper `paper` at `dpi` dots per inch.
pub fn page_pixel_size(paper: PaperSize, is_portrait: bool, dpi: u32) -> (r: (u32, u32))
    ensures
        r.0 == length_px(oriented_tenth_mm(paper, is_portrait).0 as int, dpi as int),
        r.1 == length_px(oriented_tenth_mm(paper, is_portrait).1 as int, dpi as int),
{
    let (w, h) = paper.dimensions_mm(is_portrait);
    (tenth_mm_to_px(w, dpi), tenth_mm_to_px(h, dpi))
}

fn tenth_mm_to_px(tenth_mm: u32, dpi: u32) -> (r: u32)
    requires
        tenth_mm <= 10000,
    ensures
        r == length_px(tenth_mm as int, dpi as int),
{
    assert(tenth_mm as int * dpi as int <= 10000 * u32::MAX) by (nonlinear_arith)
        requires tenth_mm <= 10000, dpi <= u32::MAX;
    let n: u64 = tenth_mm as u64 * dpi as u64;
    let q: u64 = (2 * n + 254) / 508;
    if q > u32::MAX as u64 { u32::MAX } else { q as u32 }
}


/// Along each axis the grid keeps inside the margins, is centred between them to within one
/// pixel, and its cells are as large as the drawing area allows: one more pixel per cell would
/// not fit. This holds whenever both margins and all the gaps fit on the page.
pub proof fn lemma_grid_centered_within_margins(page: int, margin: int, n: int, gap: int)
    requires
        margin >= 0,
        gap >= 0,
        n >= 1,
        2 * margin + (n - 1) * gap <= page,
    ensures
        ({
            let cell = cell_extent(page, margin, n, gap);
            let start = grid_start(page, margin, n, gap);
            let end = start + grid_extent(n, cell, gap);
            &&& margin <= start
            &&& end <= page - margin
            &&& (page - margin - end == start - margin || page - margin - end == start - margin + 1)
            &&& grid_extent(n, cell + 1, gap) > page - 2 * margin
        }),
{
    let avail = page - 2 * margin;
    let free = avail - (n - 1) * gap;
    assert(0 <= (n - 1) * gap) by (nonlinear_arith)
        requires n >= 1, gap >= 0;
    let cell = free / n;
    lemma_div_mul_le(free, n);
    lemma_fundamental_div_mod(free, n);
    assert(n * (cell + 1) == n * cell + n) by (nonlinear_arith);
    assert(grid_extent(n, cell, gap) == n * cell + (n - 1) * gap);
}

/// An axis whose cells are at least one pixel long carries the whole grid on the page.
pub proof fn lemma_grid_on_page(page: int, margin: int, n: int, gap: int)
    requires
        page >= 0,
        margin >= 0,
        gap >= 0,
        n >= 1,
        cell_extent(page, margin, n, gap) > 0,
    ensures
        0 <= grid_start(page, margin, n, gap),
        cell_extent(page, margin, n, gap) <= page,
        grid_start(page, margin, n, gap) + grid_extent(n, cell_extent(page, margin, n, gap), gap) <= page,
{
    let avail = avail_extent(page, margin);
    assert(0 <= (n - 1) * gap) by (nonlinear_arith)
        requires n >= 1, gap >= 0;
    let gaps = (n - 1) * gap;
    let free = sat_sub(avail, gaps);
    lemma_div_mul_le(free, n);
    assert(free > 0) by {
        if free <= 0 {
            assert(free == 0);
            assert(free / n == 0);
        }
    }
    assert(avail > gaps);
    assert(2 * margin + gaps <= page);
    lemma_grid_centered_within_margins(page, margin, n, gap);
}

impl GridGeometry {
    /// Every cell of the grid lies within the grid's extent, and two different slots of one
    /// sheet never overlap.
    pub proof fn lemma_cells_within_grid_and_disjoint(self, s: int, t: int)
        requires
            self.cols >= 1,
            0 <= s < self.slots(),
            0 <= t < self.slots(),
        ensures
            self.start_x <= self.cell_x(s),
            self.cell_x(s) + self.cell_w <= self.start_x + grid_extent(self.cols as int, self.cell_w as int, self.gap as int),
            self.start_y <= self.cell_y(s),
            self.cell_y(s) + self.cell_h <= self.start_y + grid_extent(self.rows as int, self.cell_h as int, self.gap as int),
            s != t ==> {
                ||| self.cell_x(s) + self.cell_w <= self.cell_x(t)
                ||| self.cell_x(t) + self.cell_w <= self.cell_x(s)
                ||| self.cell_y(s) + self.cell_h <= self.cell_y(t)
                ||| self.cell_y(t) + self.cell_h <= self.cell_y(s)
            },
    {
        let c = self.cols as int;
        let r = self.rows as int;
        let sx = self.cell_w as int + self.gap as int;
        let sy = self.cell_h as int + self.gap as int;
        lemma_fundamental_div_mod(s, c);
        lemma_fundamental_div_mod(t, c);
        let (cs, rs) = (s % c, s / c);
        let (ct, rt) = (t % c, t / c);
        assert(0 <= cs < c && 0 <= ct < c);
        assert(0 <= rs < r && 0 <= rt < r) by (nonlinear_arith)
            requires s == c * rs + cs, t == c * rt + ct, 0 <= cs < c, 0 <= ct < c, 0 <= s < c * r, 0 <= t < c * r;
        Self::lemma_axis_slot(cs, c, self.cell_w as int, self.gap as int);
        Self::lemma_axis_slot(rs, r, self.cell_h as int, self.gap as int);
        if s != t {
            if cs != ct {
                Self::lemma_axis_apart(cs, ct, self.cell_w as int, self.gap as int);
            } else {
                assert(rs != rt);
                Self::lemma_axis_apart(rs, rt, self.cell_h as int, self.gap as int);
            }
        }
    }

    /// Slots fill the grid row by row, left to right: slot 0 is the grid's top-left cell; the
    /// next slot stands one cell and one gap to the right on the same row, except after the
    /// last column, where it starts the next row (one cell and one gap lower) at the left.
    pub proof fn lemma_slots_row_by_row(self, s: int)
        requires
            self.cols >= 1,
            s >= 0,
        ensures
            self.cell_x(0) == self.start_x,
            self.cell_y(0) == self.start_y,
            (s + 1) % (self.cols as int) != 0 ==> self.cell_x(s + 1) == self.cell_x(s) + self.cell_w + self.gap
                && self.cell_y(s + 1) == self.cell_y(s),
            (s + 1) % (self.cols as int) == 0 ==> self.cell_x(s + 1) == self.start_x
                && self.cell_y(s + 1) == self.cell_y(s) + self.cell_h + self.gap,
    {
        let c = self.cols as int;
        assert(0int % c == 0 && 0int / c == 0) by (nonlinear_arith)
            requires c >= 1;
        assert(0int * (self.cell_w + self.gap) == 0 && 0int * (self.cell_h + self.gap) == 0);
        lemma_fundamental_div_mod(s, c);
        lemma_fundamental_div_mod(s + 1, c);
        let (q0, r0) = (s / c, s % c);
        let (q1, r1) = (((s + 1) / c), ((s + 1) % c));
        assert(0 <= r0 < c && 0 <= r1 < c);
        if r1 != 0 {
            assert(q1 == q0 && r1 == r0 + 1) by (nonlinear_arith)
                requires s == c * q0 + r0, s + 1 == c * q1 + r1, 0 <= r0 < c, 0 < r1 < c, c >= 1;
        } else {
            assert(q1 == q0 + 1 && r0 == c - 1) by (nonlinear_arith)
                requires s == c * q0 + r0, s + 1 == c * q1 + r1, 0 <= r0 < c, r1 == 0, c >= 1;
        }
        assert((q0 + 1) * (self.cell_h + self.gap) == q0 * (self.cell_h + self.gap) + self.cell_h + self.gap) by (nonlinear_arith);
        assert((r0 + 1) * (self.cell_w + self.gap) == r0 * (self.cell_w + self.gap) + self.cell_w + self.gap) by (nonlinear_arith);
    }

    proof fn lemma_axis_slot(i: int, n: int, cell: int, gap: int)
        requires
            0 <= i < n,
            cell >= 0,
            gap >= 0,
        ensures
            0 <= i * (cell + gap),
            i * (cell + gap) + cell <= grid_extent(n, cell, gap),
    {
        assert(0 <= i * (cell + gap)) by (nonlinear_arith)
            requires i >= 0, cell >= 0, gap >= 0;
        assert(i * (cell + gap) + cell <= n * cell + (n - 1) * gap) by (nonlinear_arith)
            requires 0 <= i < n, cell >= 0, gap >= 0;
    }

    proof fn lemma_axis_apart(i: int, j: int, cell: int, gap: int)
        requires
            i >= 0,
            j >= 0,
            i != j,
            cell >= 0,
            gap >= 0,
        ensures
            i * (cell + gap) + cell <= j * (cell + gap) || j * (cell + gap) + cell <= i * (cell + gap),
    {
        if i < j {
            assert(i * (cell + gap) + cell <= j * (cell + gap)) by (nonlinear_arith)
                requires i < j, cell >= 0, gap >= 0;
        } else {
            assert(j * (cell + gap) + cell <= i * (cell + gap)) by (nonlinear_arith)
                requires j < i, cell >= 0, gap >= 0;
        }
    }
}

} // verus!
