//! Photo grid sheets: the grid settings, how one photo is prepared for its
//! cell (tone filter, scaling, fitting, border), and how sheets are composed
//! from the print queue.

use vstd::prelude::*;
use rayon::iter::{IntoParallelIterator, IntoParallelRefIterator, ParallelIterator};

use crate::canvas::{
    Canvas, enc, dec_x, dec_y, in_rect, corner_marks, edge_distance, filled_spec, overlay_spec, border_spec, crop_spec, marks_spec, mark_color, marks_in_range, lemma_encode,
};
use crate::imaging::{Resample, resized, gray_rgb, luma, jpeg_encoded, thumbnail_of, resize_rgb, grayscale_rgb, gray_to_rgb, encode_jpeg, thumbnail_rgb};
use crate::layout::{sat_sub, round_div, cap_u32, at_least_one, length_px, page_pixel_size, grid_extent, lemma_grid_on_page, SheetLayout, GridGeometry};
use crate::paper::{PaperSize, oriented_tenth_mm};
use crate::pdf::PdfPage;
use crate::queue::{total_copies, expand_spec, page_count_spec, page_start, page_end, expand_copies, page_count, page_bounds, lemma_expand_len, lemma_pages_partition_queue, lemma_expand_entries};

verus! {

/// How a photo is fitted into its cell.
#[derive(Debug, Clone, Copy, PartialEq, Eq, Structural)]
pub enum FitMode {
    /// Scale to cover the whole cell and crop what overflows (no white bars).
    Fill,
    /// Scale to show the whole photo and pad the rest of the cell with white.
    Contain,
}

/// Tone filter applied to every photo.
#[derive(Debug, Clone, Copy, PartialEq, Eq, Structural)]
pub enum ColorFilter {
    Original,
    Grayscale,
    HighContrast,
}

impl Default for FitMode {
    fn default() -> (r: FitMode)
        ensures
            r == FitMode::Fill,
    {
        FitMode::Fill
    }
}

impl Default for ColorFilter {
    fn default() -> (r: ColorFilter)
        ensures
            r == ColorFilter::Original,
    {
        ColorFilter::Original
    }
}

/// Settings of one grid sheet layout.
#[derive(Debug, Clone, Copy)]
pub struct GridConfig {
    pub paper_size: PaperSize,
    pub cols: usize,
    pub rows: usize,
    pub border_width: u32,
    pub border_color: [u8; 3],
    pub gap: u32,
    pub margin_x: u32,
    pub margin_y: u32,
    pub is_portrait: bool,
    pub fit_mode: FitMode,
    pub color_filter: ColorFilter,
    pub show_cut_marks: bool,
    pub dpi: u32,
}

impl Default for GridConfig {
    /// A4 landscape, 4 x 4 photos, 24 px gaps, 50 x 42 px margins, no border, at 300 dpi.
    fn default() -> (c: GridConfig)
        ensures
            c.paper_size == PaperSize::A4,
            c.cols == 4,
            c.rows == 4,
            c.border_width == 0,
            c.border_color == [200u8, 200u8, 200u8],
            c.gap == 24,
            c.margin_x == 50,
            c.margin_y == 42,
            !c.is_portrait,
            c.fit_mode == FitMode::Fill,
            c.color_filter == ColorFilter::Original,
            !c.show_cut_marks,
            c.dpi == 300,
    {
        GridConfig {
            paper_size: PaperSize::A4,
            cols: 4,
            rows: 4,
            border_width: 0,
            border_color: [200, 200, 200],
            gap: 24,
            margin_x: 50,
            margin_y: 42,
            is_portrait: false,
            fit_mode: FitMode::Fill,
            color_filter: ColorFilter::Original,
            show_cut_marks: false,
            dpi: 300,
        }
    }
}

/// The colour of paper and of the padding around contained photos.
pub open spec fn white() -> [u8; 3] {
    [255u8, 255u8, 255u8]
}

/// The high-contrast tone curve: the adjustment of `image::imageops::contrast_in_place` at a
/// contrast of +25 on an 8-bit channel, `((c / 255 - 0.5) * 1.25^2 + 0.5) * 255` clamped to
/// `[0, 255]` and truncated, which equals `(50 c - 2295) / 32` clamped for every byte `c`.
pub open spec fn contrast_level(c: u8) -> int {
    if 50 * c < 2295 {
        0
    } else if (50 * c - 2295) / 32 > 255 {
        255
    } else {
        (50 * c - 2295) / 32
    }
}

/// Luminance bytes of an RGB image of `w` x `h` pixels.
pub open spec fn luma_plane(src: Seq<u8>, w: int, h: int) -> Seq<u8> {
    Seq::new((w * h) as nat, |p: int| luma(src[3 * p], src[3 * p + 1], src[3 * p + 2]) as u8)
}

/// RGB bytes of a `w` x `h` photo after the tone filter `f`.
pub open spec fn filter_spec(src: Seq<u8>, w: u32, h: u32, f: ColorFilter) -> Seq<u8> {
    match f {
        ColorFilter::Original => src,
        ColorFilter::Grayscale => gray_rgb(luma_plane(src, w as int, h as int)),
        ColorFilter::HighContrast => {
            let g = gray_rgb(luma_plane(src, w as int, h as int));
            Seq::new(g.len(), |i: int| contrast_level(g[i]) as u8)
        },
    }
}

/// The photo (`sw` x `sh`) is scaled by the width ratio `tw / sw` rather than the height
/// ratio `th / sh`: the larger ratio when filling, the smaller one when containing.
pub open spec fn fit_by_width(sw: int, sh: int, tw: int, th: int, mode: FitMode) -> bool {
    match mode {
        FitMode::Fill => tw * sh >= th * sw,
        FitMode::Contain => tw * sh <= th * sw,
    }
}

/// Size a `sw` x `sh` photo is scaled to for a `tw` x `th` cell (rounded, at least 1 x 1).
pub open spec fn scaled_dims(sw: int, sh: int, tw: int, th: int, mode: FitMode) -> (int, int) {
    if fit_by_width(sw, sh, tw, th, mode) {
        (at_least_one(tw), at_least_one(cap_u32(round_div(sh * tw, sw))))
    } else {
        (at_least_one(cap_u32(round_div(sw * th, sh))), at_least_one(th))
    }
}

/// The scaled photo (`nw` x `nh` RGB bytes) fitted to a `tw` x `th` cell: the centre cut out
/// when filling, centred on white when containing.
pub open spec fn fitted_spec(scaled: Seq<u8>, nw: int, nh: int, tw: int, th: int, mode: FitMode) -> Seq<u8> {
    match mode {
        FitMode::Fill => crop_spec(scaled, nw, nh, sat_sub(nw, tw) / 2, sat_sub(nh, th) / 2, tw, th),
        FitMode::Contain => overlay_spec(filled_spec(tw, th, white()), tw, th, scaled, nw, nh, sat_sub(tw, nw) / 2, sat_sub(th, nh) / 2),
    }
}

/// RGB bytes of the `tw` x `th` cell made from photo `src` (`sw` x `sh`): tone filter,
/// scaling with `filter`, fitting, then a border of `bw` pixels when `bw > 0`.
pub open spec fn cell_spec(
    src: Seq<u8>,
    sw: u32,
    sh: u32,
    tw: u32,
    th: u32,
    mode: FitMode,
    tone: ColorFilter,
    bw: u32,
    border_color: [u8; 3],
    filter: Resample,
) -> Seq<u8> {
    let (nw, nh) = scaled_dims(sw as int, sh as int, tw as int, th as int, mode);
    let scaled = resized(filter_spec(src, sw, sh, tone), sw, sh, nw as u32, nh as u32, filter);
    let fitted = fitted_spec(scaled, nw, nh, tw as int, th as int, mode);
    if bw > 0 { border_spec(fitted, tw as int, th as int, bw as int, border_color) } else { fitted }
}

/// The buffers that preparing a `tw` x `th` cell from a `sw` x `sh` photo allocates fit in memory.
pub open spec fn cell_buffers_fit(sw: int, sh: int, tw: int, th: int, mode: FitMode) -> bool {
    let (nw, nh) = scaled_dims(sw, sh, tw, th, mode);
    &&& 3 * sw * sh <= isize::MAX
    &&& 3 * tw * th <= isize::MAX
    &&& 3 * nw * nh <= isize::MAX
    &&& 16 * sw * nh <= isize::MAX
}

/// The high-contrast tone curve on one byte.
pub fn contrast_byte(c: u8) -> (r: u8)
    ensures
        r == contrast_level(c),
{
    let v: u32 = 50 * c as u32;
    if v < 2295 {
        0
    } else {
        let q = (v - 2295) / 32;
        if q > 255 { 255 } else { q as u8 }
    }
}

proof fn lemma_luma_byte(r: u8, g: u8, b: u8)
    ensures
        0 <= luma(r, g, b) <= 255,
{
}

/// Applies tone filter `f` to a photo.
pub fn apply_color_filter(img: &Canvas, f: ColorFilter) -> (out: Canvas)
    requires
        img.wf(),
        3 * img.width * img.height <= isize::MAX,
    ensures
        out.wf(),
        out.width == img.width,
        out.height == img.height,
        out.data@ == filter_spec(img.data@, img.width, img.height, f),
{
    let w = img.width;
    let h = img.height;
    match f {
        ColorFilter::Original => {
            let data = img.data.clone();
            assert(data@ =~= img.data@);
            Canvas { width: w, height: h, data }
        },
        _ => {
            let g = grayscale_rgb(&img.data, w, h);
            assert(g@ =~= luma_plane(img.data@, w as int, h as int)) by {
                assert forall|p: int| 0 <= p < w * h implies #[trigger] g@[p] == luma_plane(img.data@, w as int, h as int)[p] by {
                    lemma_luma_byte(img.data@[3 * p], img.data@[3 * p + 1], img.data@[3 * p + 2]);
                }
            }
            assert(3 * w * h == 3 * (w * h)) by (nonlinear_arith);
            let rgb = gray_to_rgb(&g, w, h);
            match f {
                ColorFilter::Grayscale => Canvas { width: w, height: h, data: rgb },
                _ => {
                    let mut out: Vec<u8> = Vec::new();
                    let n = rgb.len();
                    let mut i: usize = 0;
                    while i < n
                        invariant
                            0 <= i <= n,
                            n == rgb@.len(),
                            out@.len() == i,
                            forall|j: int| 0 <= j < i ==> #[trigger] out@[j] == contrast_level(rgb@[j]) as u8,
                        decreases n - i,
                    {
                        out.push(contrast_byte(rgb[i]));
                        i = i + 1;
                    }
                    let ghost target = Seq::new(rgb@.len(), |j: int| contrast_level(rgb@[j]) as u8);
                    assert(out@ =~= target);
                    Canvas { width: w, height: h, data: out }
                },
            }
        },
    }
}

/// Size a `sw` x `sh` photo is scaled to for a `tw` x `th` cell.
pub fn scaled_size(sw: u32, sh: u32, tw: u32, th: u32, mode: FitMode) -> (r: (u32, u32))
    requires
        sw > 0,
        sh > 0,
    ensures
        r.0 == scaled_dims(sw as int, sh as int, tw as int, th as int, mode).0,
        r.1 == scaled_dims(sw as int, sh as int, tw as int, th as int, mode).1,
{
    assert(tw * sh <= u32::MAX * u32::MAX && th * sw <= u32::MAX * u32::MAX && sh * tw <= u32::MAX * u32::MAX
        && sw * th <= u32::MAX * u32::MAX) by (nonlinear_arith)
        requires tw <= u32::MAX, sh <= u32::MAX, th <= u32::MAX, sw <= u32::MAX, tw >= 0, th >= 0, sw >= 0, sh >= 0;
    let wide: u128 = tw as u128 * sh as u128;
    let tall: u128 = th as u128 * sw as u128;
    let by_width = match mode {
        FitMode::Fill => wide >= tall,
        FitMode::Contain => wide <= tall,
    };
    if by_width {
        let q: u128 = (2 * (sh as u128 * tw as u128) + sw as u128) / (2 * sw as u128);
        let nh: u32 = if q > u32::MAX as u128 { u32::MAX } else { q as u32 };
        (if tw < 1 { 1 } else { tw }, if nh < 1 { 1 } else { nh })
    } else {
        let q: u128 = (2 * (sw as u128 * th as u128) + sh as u128) / (2 * sh as u128);
        let nw: u32 = if q > u32::MAX as u128 { u32::MAX } else { q as u32 };
        (if nw < 1 { 1 } else { nw }, if th < 1 { 1 } else { th })
    }
}

proof fn lemma_round_div_at_least(n: int, d: int, t: int)
    requires
        d > 0,
        n >= d * t,
        t >= 0,
    ensures
        round_div(n, d) >= t,
{
    assert(2 * n + d >= (2 * d) * t) by (nonlinear_arith)
        requires n >= d * t, d > 0;
    vstd::arithmetic::div_mod::lemma_div_is_ordered((2 * d) * t, 2 * n + d, 2 * d);
    vstd::arithmetic::div_mod::lemma_div_multiples_vanish(t, 2 * d);
}

/// When filling, the scaled photo covers the whole cell.
proof fn lemma_fill_covers(sw: int, sh: int, tw: int, th: int)
    requires
        sw > 0,
        sh > 0,
        0 <= tw <= u32::MAX,
        0 <= th <= u32::MAX,
    ensures
        scaled_dims(sw, sh, tw, th, FitMode::Fill).0 >= tw,
        scaled_dims(sw, sh, tw, th, FitMode::Fill).1 >= th,
{
    if tw * sh >= th * sw {
        assert(sh * tw >= sw * th) by (nonlinear_arith)
            requires tw * sh >= th * sw;
        lemma_round_div_at_least(sh * tw, sw, th);
    } else {
        assert(sw * th >= sh * tw) by (nonlinear_arith)
            requires tw * sh < th * sw;
        lemma_round_div_at_least(sw * th, sh, tw);
    }
}

/// Prepares the `target_w` x `target_h` cell of one photo: tone filter, scaling with the fast
/// filter for previews or the fine one for print, fitting, and the configured border.
pub fn prepare_cell(img: &Canvas, target_w: u32, target_h: u32, config: &GridConfig, is_preview: bool) -> (cell: Canvas)
    requires
        img.wf(),
        img.width > 0,
        img.height > 0,
        cell_buffers_fit(img.width as int, img.height as int, target_w as int, target_h as int, config.fit_mode),
    ensures
        cell.wf(),
        cell.width == target_w,
        cell.height == target_h,
        cell.data@ == cell_spec(
            img.data@,
            img.width,
            img.height,
            target_w,
            target_h,
            config.fit_mode,
            config.color_filter,
            config.border_width,
            config.border_color,
            if is_preview { Resample::Triangle } else { Resample::Lanczos3 },
        ),
{
    let sw = img.width;
    let sh = img.height;
    let filtered = apply_color_filter(img, config.color_filter);
    let filter = if is_preview { Resample::Triangle } else { Resample::Lanczos3 };
    let (nw, nh) = scaled_size(sw, sh, target_w, target_h, config.fit_mode);
    let scaled_data = resize_rgb(&filtered.data, sw, sh, nw, nh, filter);
    let scaled = Canvas { width: nw, height: nh, data: scaled_data };
    let mut cell = match config.fit_mode {
        FitMode::Fill => {
            proof { lemma_fill_covers(sw as int, sh as int, target_w as int, target_h as int); }
            let crop_x = (if nw > target_w { nw - target_w } else { 0 }) / 2;
            let crop_y = (if nh > target_h { nh - target_h } else { 0 }) / 2;
            scaled.crop(crop_x, crop_y, target_w, target_h)
        },
        FitMode::Contain => {
            let mut out = Canvas::filled(target_w, target_h, [255u8, 255u8, 255u8]);
            let off_x = (if target_w > nw { target_w - nw } else { 0 }) / 2;
            let off_y = (if target_h > nh { target_h - nh } else { 0 }) / 2;
            out.overlay(&scaled, off_x, off_y);
            out
        },
    };
    if config.border_width > 0 {
        cell.draw_border(config.border_width, config.border_color);
    }
    cell
}

/// The copy of a photo that the live preview works from: the photo itself when neither side
/// exceeds `max_dim`, else its thumbnail within `max_dim` x `max_dim`.
pub fn preview_copy(img: &Canvas, max_dim: u32) -> (r: Canvas)
    requires
        img.wf(),
        max_dim >= 1,
        3 * max_dim * max_dim <= isize::MAX,
    ensures
        r.wf(),
        r.width <= max_dim,
        r.height <= max_dim,
        img.width <= max_dim && img.height <= max_dim ==> r.width == img.width && r.height == img.height && r.data@ == img.data@,
        img.width > max_dim || img.height > max_dim ==> (r.data@, r.width, r.height) == thumbnail_of(
            img.data@,
            img.width,
            img.height,
            max_dim,
            max_dim,
        ),
{
    if img.width > max_dim || img.height > max_dim {
        let (data, w, h) = thumbnail_rgb(&img.data, img.width, img.height, max_dim, max_dim);
        Canvas { width: w, height: h, data }
    } else {
        let data = img.data.clone();
        assert(data@ =~= img.data@);
        Canvas { width: img.width, height: img.height, data }
    }
}

/// The print sheet of a configuration: the paper's pixel size at the configured resolution,
/// with the configured margins and gap.
pub open spec fn print_sheet_spec(c: GridConfig) -> SheetLayout {
    let (tw, th) = oriented_tenth_mm(c.paper_size, c.is_portrait);
    SheetLayout {
        page_w: length_px(tw as int, c.dpi as int) as u32,
        page_h: length_px(th as int, c.dpi as int) as u32,
        margin_x: c.margin_x,
        margin_y: c.margin_y,
        gap: c.gap,
    }
}

/// Pixel size of a preview whose longer side is `max_dim`, for a sheet of `tw` x `th`.
pub open spec fn preview_size(tw: int, th: int, max_dim: int) -> (int, int) {
    if tw >= th {
        (max_dim, cap_u32(round_div(max_dim * th, tw)))
    } else {
        (cap_u32(round_div(max_dim * tw, th)), max_dim)
    }
}

/// A print length of `v` pixels (at 300 dpi) scaled to a preview `preview_w` pixels wide
/// of a sheet `tw` tenths of a millimetre wide, rounded.
pub open spec fn preview_scaled(v: int, preview_w: int, tw: int) -> int {
    cap_u32(round_div(v * preview_w * 254, tw * 300))
}

/// The preview sheet of a configuration: the paper's shape within `max_dim` pixels, with the
/// margins and gap scaled from the 300 dpi print sheet to the preview.
pub open spec fn preview_sheet_spec(c: GridConfig, max_dim: u32) -> SheetLayout {
    let (tw, th) = oriented_tenth_mm(c.paper_size, c.is_portrait);
    let (pw, ph) = preview_size(tw as int, th as int, max_dim as int);
    SheetLayout {
        page_w: pw as u32,
        page_h: ph as u32,
        margin_x: preview_scaled(c.margin_x as int, pw, tw as int) as u32,
        margin_y: preview_scaled(c.margin_y as int, pw, tw as int) as u32,
        gap: preview_scaled(c.gap as int, pw, tw as int) as u32,
    }
}

/// The print sheet of a configuration.
pub fn print_sheet(c: &GridConfig) -> (s: SheetLayout)
    ensures
        s == print_sheet_spec(*c),
{
    let (w, h) = page_pixel_size(c.paper_size, c.is_portrait, c.dpi);
    SheetLayout { page_w: w, page_h: h, margin_x: c.margin_x, margin_y: c.margin_y, gap: c.gap }
}

fn round_div_u32(n: u128, d: u128) -> (r: u32)
    requires
        d > 0,
        d <= 0x1_0000_0000_0000_0000,
        n <= 0x1_0000_0000_0000_0000_0000_0000,
    ensures
        r == cap_u32(round_div(n as int, d as int)),
{
    let q = (2 * n + d) / (2 * d);
    if q > u32::MAX as u128 { u32::MAX } else { q as u32 }
}

/// The preview sheet of a configuration, its longer side `max_dim` pixels.
pub fn preview_sheet(c: &GridConfig, max_dim: u32) -> (s: SheetLayout)
    ensures
        s == preview_sheet_spec(*c, max_dim),
{
    let (tw, th) = c.paper_size.dimensions_mm(c.is_portrait);
    assert(max_dim * th <= u32::MAX * 10000 && max_dim * tw <= u32::MAX * 10000) by (nonlinear_arith)
        requires max_dim <= u32::MAX, th <= 10000, tw <= 10000;
    let (pw, ph) = if tw >= th {
        (max_dim, round_div_u32(max_dim as u128 * th as u128, tw as u128))
    } else {
        (round_div_u32(max_dim as u128 * tw as u128, th as u128), max_dim)
    };
    let d: u128 = tw as u128 * 300;
    assert(c.margin_x * pw * 254 <= u32::MAX * u32::MAX * 254 && c.margin_y * pw * 254 <= u32::MAX * u32::MAX * 254
        && c.gap * pw * 254 <= u32::MAX * u32::MAX * 254) by (nonlinear_arith)
        requires c.margin_x <= u32::MAX, c.margin_y <= u32::MAX, c.gap <= u32::MAX, pw <= u32::MAX,
            c.margin_x >= 0, c.margin_y >= 0, c.gap >= 0, pw >= 0;
    let mx = round_div_u32(c.margin_x as u128 * pw as u128 * 254, d);
    let my = round_div_u32(c.margin_y as u128 * pw as u128 * 254, d);
    let gap = round_div_u32(c.gap as u128 * pw as u128 * 254, d);
    SheetLayout { page_w: pw, page_h: ph, margin_x: mx, margin_y: my, gap }
}

/// Copy counts of the photos to print.
pub open spec fn copies_of(items: Seq<(Canvas, usize)>) -> Seq<usize> {
    Seq::new(items.len(), |i: int| items[i].1)
}

/// The cells of all photos, each `tw` x `th`.
pub open spec fn cells_spec(items: Seq<(Canvas, usize)>, tw: u32, th: u32, c: GridConfig, filter: Resample) -> Seq<Seq<u8>> {
    Seq::new(
        items.len(),
        |i: int|
            cell_spec(
                items[i].0.data@,
                items[i].0.width,
                items[i].0.height,
                tw,
                th,
                c.fit_mode,
                c.color_filter,
                c.border_width,
                c.border_color,
                filter,
            ),
    )
}

/// A sheet `pw` x `ph` (bytes `base`) after the first `n` of its slots received the cells
/// that `slots` names, each followed by its cutting guides of length `len` when `marks` holds.
pub open spec fn compose_spec(
    base: Seq<u8>,
    pw: int,
    ph: int,
    cells: Seq<Seq<u8>>,
    slots: Seq<usize>,
    g: GridGeometry,
    marks: bool,
    len: int,
    n: int,
) -> Seq<u8>
    decreases n,
{
    if n <= 0 {
        base
    } else {
        let prev = compose_spec(base, pw, ph, cells, slots, g, marks, len, n - 1);
        let x = g.cell_x(n - 1);
        let y = g.cell_y(n - 1);
        let placed = overlay_spec(prev, pw, ph, cells[slots[n - 1] as int], g.cell_w as int, g.cell_h as int, x, y);
        if marks { marks_spec(placed, pw, x, y, g.cell_w as int, g.cell_h as int, len, mark_color()) } else { placed }
    }
}

/// Bytes of sheet `p` of a print queue `queue` laid out on a `pw` x `ph` sheet.
pub open spec fn sheet_spec(
    pw: u32,
    ph: u32,
    cells: Seq<Seq<u8>>,
    queue: Seq<usize>,
    g: GridGeometry,
    marks: bool,
    len: int,
    p: int,
) -> Seq<u8> {
    let per = g.slots();
    let s = page_start(p, per);
    let e = page_end(p, per, queue.len() as int);
    compose_spec(filled_spec(pw as int, ph as int, white()), pw as int, ph as int, cells, queue.subrange(s, e), g, marks, len, e - s)
}

/// Everything that rendering `items` on `sheet` needs holds: the grid computation stays within
/// `u32`, every photo is non-empty and its buffers fit in memory, the queue length fits a
/// `usize`, and every slot that a sheet uses has its position (and, with guides, the guides)
/// within `u32` and consistent with the sheet.
pub open spec fn render_ready(items: Seq<(Canvas, usize)>, c: GridConfig, sheet: SheetLayout, marks: bool, len: int) -> bool {
    let g = sheet.geometry_spec(c.cols as int, c.rows as int);
    let n = total_copies(copies_of(items)) as int;
    let used = if n < g.slots() { n } else { g.slots() };
    &&& sheet.fits(c.cols as int, c.rows as int)
    &&& g.slots() <= u32::MAX
    &&& 3 * sheet.page_w * sheet.page_h <= isize::MAX
    &&& n <= usize::MAX
    &&& (n == 0 || n + g.slots() - 1 <= usize::MAX)
    &&& photos_ready(items, g, c.fit_mode)
    &&& slots_ready(g, used, sheet.page_w as int, sheet.page_h as int, marks, len)
}

/// Every photo is a non-empty, well-formed image whose buffers for a cell of `g` fit in memory.
pub open spec fn photos_ready(items: Seq<(Canvas, usize)>, g: GridGeometry, mode: FitMode) -> bool {
    forall|i: int| 0 <= i < items.len() ==> {
        &&& (#[trigger] items[i]).0.wf()
        &&& items[i].0.width > 0
        &&& items[i].0.height > 0
        &&& cell_buffers_fit(items[i].0.width as int, items[i].0.height as int, g.cell_w as int, g.cell_h as int, mode)
    }
}

/// Slot `s` of `g` has its position, and with `marks` its guides of length `len`, within `u32`
/// and consistent with a `pw` x `ph` sheet.
pub open spec fn slot_ready(g: GridGeometry, s: int, pw: int, ph: int, marks: bool, len: int) -> bool {
    &&& g.origin_in_range(s)
    &&& marks ==> marks_in_range(pw, ph, g.cell_x(s), g.cell_y(s), g.cell_w as int, g.cell_h as int, len)
}

/// The first `used` slots of `g` are ready on a `pw` x `ph` sheet.
pub open spec fn slots_ready(g: GridGeometry, used: int, pw: int, ph: int, marks: bool, len: int) -> bool {
    forall|s: int| 0 <= s < used ==> #[trigger] slot_ready(g, s, pw, ph, marks, len)
}

/// Composes one sheet: the queue positions `[start, end)` placed in consecutive slots.
fn compose_page(
    pw: u32,
    ph: u32,
    cells: &Vec<Canvas>,
    queue: &Vec<usize>,
    start: usize,
    end: usize,
    g: &GridGeometry,
    marks: bool,
    len: u32,
) -> (page: Canvas)
    requires
        3 * pw * ph <= usize::MAX,
        start <= end <= queue@.len(),
        end - start <= g.slots() <= u32::MAX,
        g.cols >= 1,
        forall|j: int| start <= j < end ==> #[trigger] queue@[j] < cells@.len(),
        forall|k: int| 0 <= k < cells@.len() ==> {
            &&& (#[trigger] cells@[k]).wf()
            &&& cells@[k].width == g.cell_w
            &&& cells@[k].height == g.cell_h
        },
        slots_ready(*g, end - start, pw as int, ph as int, marks, len as int),
    ensures
        page.wf(),
        page.width == pw,
        page.height == ph,
        page.data@ == compose_spec(
            filled_spec(pw as int, ph as int, white()),
            pw as int,
            ph as int,
            Seq::new(cells@.len(), |k: int| cells@[k].data@),
            queue@.subrange(start as int, end as int),
            *g,
            marks,
            len as int,
            end - start,
        ),
{
    let ghost cell_bytes = Seq::new(cells@.len(), |k: int| cells@[k].data@);
    let ghost slots = queue@.subrange(start as int, end as int);
    let ghost base = filled_spec(pw as int, ph as int, white());
    let mut page = Canvas::filled(pw, ph, [255u8, 255u8, 255u8]);
    let count = end - start;
    let mut slot: usize = 0;
    while slot < count
        invariant
            0 <= slot <= count,
            count == end - start,
            start <= end <= queue@.len(),
            end - start <= g.slots() <= u32::MAX,
            g.cols >= 1,
            page.wf(),
            page.width == pw,
            page.height == ph,
            slots == queue@.subrange(start as int, end as int),
            cell_bytes == Seq::new(cells@.len(), |k: int| cells@[k].data@),
            forall|j: int| start <= j < end ==> #[trigger] queue@[j] < cells@.len(),
            forall|k: int| 0 <= k < cells@.len() ==> {
                &&& (#[trigger] cells@[k]).wf()
                &&& cells@[k].width == g.cell_w
                &&& cells@[k].height == g.cell_h
            },
            slots_ready(*g, end - start, pw as int, ph as int, marks, len as int),
            page.data@ == compose_spec(base, pw as int, ph as int, cell_bytes, slots, *g, marks, len as int, slot as int),
        decreases count - slot,
    {
        assert(slot_ready(*g, slot as int, pw as int, ph as int, marks, len as int));
        let (x, y) = g.cell_origin(slot as u32);
        let item = queue[start + slot];
        assert(queue@[start + slot] < cells@.len());
        page.overlay(&cells[item], x, y);
        if marks {
            page.draw_cut_corner_marks(x, y, g.cell_w, g.cell_h, len);
        }
        assert(slots[slot as int] == item);
        slot = slot + 1;
    }
    page
}

/// Renders the print sheets: every photo becomes a cell of the grid (fine resampling), the
/// cells are queued by their copy counts, and each sheet's worth of the queue is composed on a
/// white page and encoded as a JPEG at quality 95. No photo copies give no pages.
pub fn render_images_with_copies_to_pdf_pages(items: &Vec<(Canvas, usize)>, config: &GridConfig) -> (pages: Vec<PdfPage>)
    requires
        render_ready(items@, *config, print_sheet_spec(*config), config.show_cut_marks && config.gap > 4, 15),
    ensures
        ({
            let sheet = print_sheet_spec(*config);
            let g = sheet.geometry_spec(config.cols as int, config.rows as int);
            let queue = expand_spec(copies_of(items@));
            let cells = cells_spec(items@, g.cell_w, g.cell_h, *config, Resample::Lanczos3);
            let marks = config.show_cut_marks && config.gap > 4;
            &&& pages@.len() == page_count_spec(queue.len() as int, g.slots())
            &&& forall|p: int| 0 <= p < pages@.len() ==> {
                &&& (#[trigger] pages@[p]).width_px == sheet.page_w
                &&& pages@[p].height_px == sheet.page_h
                &&& pages@[p].jpeg_data@ == jpeg_encoded(
                    sheet_spec(sheet.page_w, sheet.page_h, cells, queue, g, marks, 15, p),
                    sheet.page_w,
                    sheet.page_h,
                    95,
                )
            }
        }),
{
    let sheet = print_sheet(config);
    let marks = config.show_cut_marks && config.gap > 4;
    let (cells, queue, g) = layout_cells(items, config, &sheet, false, marks, 15);
    if queue.len() == 0 {
        assert(page_count_spec(0, g.slots()) == 0) by {
            vstd::arithmetic::div_mod::lemma_basic_div(g.slots() - 1, g.slots());
        }
        return Vec::new();
    }
    let per: usize = (g.cols * g.rows) as usize;
    let num_pages = page_count(queue.len(), per);
    print_pages_parallel(num_pages, per, &cells, &queue, sheet.page_w, sheet.page_h, &g, marks, 15)
}

/// Renders the preview sheets, the longer side `max_dim` pixels: like the print sheets but at
/// preview scale, with the fast resampling filter and shorter cutting guides (drawn when the
/// scaled gap exceeds 3 pixels). No photos, or no copies, give no sheets.
pub fn render_all_preview_pages_with_copies(items: &Vec<(Canvas, usize)>, config: &GridConfig, max_dim: u32) -> (sheets: Vec<Canvas>)
    requires
        items@.len() > 0 ==> render_ready(
            items@,
            *config,
            preview_sheet_spec(*config, max_dim),
            config.show_cut_marks && preview_sheet_spec(*config, max_dim).gap > 3,
            6,
        ),
    ensures
        items@.len() == 0 ==> sheets@.len() == 0,
        items@.len() > 0 ==> ({
            let sheet = preview_sheet_spec(*config, max_dim);
            let g = sheet.geometry_spec(config.cols as int, config.rows as int);
            let queue = expand_spec(copies_of(items@));
            let cells = cells_spec(items@, g.cell_w, g.cell_h, *config, Resample::Triangle);
            let marks = config.show_cut_marks && sheet.gap > 3;
            &&& sheets@.len() == page_count_spec(queue.len() as int, g.slots())
            &&& forall|p: int| 0 <= p < sheets@.len() ==> {
                &&& (#[trigger] sheets@[p]).wf()
                &&& sheets@[p].width == sheet.page_w
                &&& sheets@[p].height == sheet.page_h
                &&& sheets@[p].data@ == sheet_spec(sheet.page_w, sheet.page_h, cells, queue, g, marks, 6, p)
            }
        }),
{
    if items.len() == 0 {
        return Vec::new();
    }
    let sheet = preview_sheet(config, max_dim);
    let marks = config.show_cut_marks && sheet.gap > 3;
    render_sheets(items, config, &sheet, true, marks, 6)
}

/// The cell of one photo is ready to be prepared for a `tw` x `th` slot.
pub open spec fn cell_ready(img: Canvas, tw: u32, th: u32, mode: FitMode) -> bool {
    &&& img.wf()
    &&& img.width > 0
    &&& img.height > 0
    &&& cell_buffers_fit(img.width as int, img.height as int, tw as int, th as int, mode)
}

/// `cell` is the `tw` x `th` cell that `prepare_cell` makes of `img`.
pub open spec fn is_cell_of(cell: Canvas, img: Canvas, tw: u32, th: u32, c: GridConfig, filter: Resample) -> bool {
    &&& cell.wf()
    &&& cell.width == tw
    &&& cell.height == th
    &&& cell.data@ == cell_spec(img.data@, img.width, img.height, tw, th, c.fit_mode, c.color_filter, c.border_width, c.border_color, filter)
}

/// Calls `rayon`'s `par_iter().map(..).collect()` over the photos: `prepare_cell` makes each
/// photo's cell on a worker thread, and collecting an indexed parallel iterator into a `Vec`
/// keeps the photos' order. The contract claims one result per photo, in order, each as
/// `prepare_cell` promises.
#[verifier::external_body]
fn prepare_cells_parallel(items: &Vec<(Canvas, usize)>, tw: u32, th: u32, config: &GridConfig, is_preview: bool) -> (cells: Vec<Canvas>)
    requires
        forall|i: int| 0 <= i < items@.len() ==> cell_ready((#[trigger] items@[i]).0, tw, th, config.fit_mode),
    ensures
        cells@.len() == items@.len(),
        forall|i: int| 0 <= i < items@.len() ==> is_cell_of(
            #[trigger] cells@[i],
            items@[i].0,
            tw,
            th,
            *config,
            if is_preview { Resample::Triangle } else { Resample::Lanczos3 },
        ),
{
    items.par_iter().map(|item| prepare_cell(&item.0, tw, th, config, is_preview)).collect()
}

/// The cells of a sheet are well formed and of the grid's cell size, and the queue names only
/// existing cells.
pub open spec fn cells_fit_grid(cells: Seq<Canvas>, queue: Seq<usize>, g: GridGeometry) -> bool {
    &&& forall|j: int| 0 <= j < queue.len() ==> #[trigger] queue[j] < cells.len()
    &&& forall|k: int| 0 <= k < cells.len() ==> {
        &&& (#[trigger] cells[k]).wf()
        &&& cells[k].width == g.cell_w
        &&& cells[k].height == g.cell_h
    }
}

/// Everything composing the sheets of `queue` on a `pw` x `ph` page needs.
pub open spec fn sheets_ready(cells: Seq<Canvas>, queue: Seq<usize>, per: int, pw: u32, ph: u32, g: GridGeometry, marks: bool, len: int) -> bool {
    &&& per == g.slots()
    &&& 1 <= per <= u32::MAX
    &&& g.cols >= 1
    &&& queue.len() + per - 1 <= usize::MAX
    &&& 3 * pw * ph <= usize::MAX
    &&& cells_fit_grid(cells, queue, g)
    &&& slots_ready(g, if queue.len() < per { queue.len() as int } else { per }, pw as int, ph as int, marks, len)
}

/// The bytes of every cell.
pub open spec fn cell_data(cells: Seq<Canvas>) -> Seq<Seq<u8>> {
    Seq::new(cells.len(), |k: int| cells[k].data@)
}

/// Composes sheet `p` of the queue: its run of queued cells placed in consecutive slots.
pub fn compose_sheet(
    p: usize,
    per: usize,
    cells: &Vec<Canvas>,
    queue: &Vec<usize>,
    pw: u32,
    ph: u32,
    g: &GridGeometry,
    marks: bool,
    len: u32,
) -> (sheet: Canvas)
    requires
        sheets_ready(cells@, queue@, per as int, pw, ph, *g, marks, len as int),
        p < page_count_spec(queue@.len() as int, per as int),
    ensures
        sheet.wf(),
        sheet.width == pw,
        sheet.height == ph,
        sheet.data@ == sheet_spec(pw, ph, cell_data(cells@), queue@, *g, marks, len as int, p as int),
{
    let (start, end) = page_bounds(p, per, queue.len());
    proof {
        lemma_pages_partition_queue(queue@.len() as int, per as int, 0, p as int);
        let used = if queue@.len() < per { queue@.len() as int } else { per as int };
        assert(end - start <= used);
        assert forall|s: int| 0 <= s < end - start implies
            #[trigger] slot_ready(*g, s, pw as int, ph as int, marks, len as int) by {
            assert(0 <= s < used);
        }
        assert forall|j: int| start <= j < end implies #[trigger] queue@[j] < cells@.len() by {}
    }
    let page = compose_page(pw, ph, cells, queue, start, end, g, marks, len);
    assert(cell_data(cells@) =~= Seq::new(cells@.len(), |k: int| cells@[k].data@));
    page
}

/// Calls `rayon`'s `into_par_iter().map(..).collect()` over the sheet numbers `0 .. num_pages`:
/// `compose_sheet` composes each sheet on a worker thread, and collecting an indexed parallel
/// iterator into a `Vec` keeps the sheets' order. The contract claims one sheet per number, in
/// order, each as `compose_sheet` promises.
#[verifier::external_body]
fn compose_sheets_parallel(
    num_pages: usize,
    per: usize,
    cells: &Vec<Canvas>,
    queue: &Vec<usize>,
    pw: u32,
    ph: u32,
    g: &GridGeometry,
    marks: bool,
    len: u32,
) -> (sheets: Vec<Canvas>)
    requires
        sheets_ready(cells@, queue@, per as int, pw, ph, *g, marks, len as int),
        num_pages == page_count_spec(queue@.len() as int, per as int),
    ensures
        sheets@.len() == num_pages,
        forall|p: int| 0 <= p < num_pages ==> {
            &&& (#[trigger] sheets@[p]).wf()
            &&& sheets@[p].width == pw
            &&& sheets@[p].height == ph
            &&& sheets@[p].data@ == sheet_spec(pw, ph, cell_data(cells@), queue@, *g, marks, len as int, p)
        },
{
    (0..num_pages).into_par_iter().map(|p| compose_sheet(p, per, cells, queue, pw, ph, g, marks, len)).collect()
}

/// Prepares every photo's cell for `sheet` and queues the cells by their copy counts; gives the
/// cells, the queue and the grid.
fn layout_cells(
    items: &Vec<(Canvas, usize)>,
    config: &GridConfig,
    sheet: &SheetLayout,
    is_preview: bool,
    marks: bool,
    len: u32,
) -> (r: (Vec<Canvas>, Vec<usize>, GridGeometry))
    requires
        render_ready(items@, *config, *sheet, marks, len as int),
    ensures
        r.2 == sheet.geometry_spec(config.cols as int, config.rows as int),
        r.1@ == expand_spec(copies_of(items@)),
        cell_data(r.0@) == cells_spec(items@, r.2.cell_w, r.2.cell_h, *config, if is_preview { Resample::Triangle } else { Resample::Lanczos3 }),
        sheets_ready(r.0@, r.1@, r.2.slots(), sheet.page_w, sheet.page_h, r.2, marks, len as int),
{
    let g = sheet.geometry(config.cols, config.rows);
    let ghost filter = if is_preview { Resample::Triangle } else { Resample::Lanczos3 };
    let ghost cells_target = cells_spec(items@, g.cell_w, g.cell_h, *config, filter);
    assert forall|i: int| 0 <= i < items@.len() implies cell_ready((#[trigger] items@[i]).0, g.cell_w, g.cell_h, config.fit_mode) by {
        assert(photos_ready(items@, g, config.fit_mode));
    }
    let cells = prepare_cells_parallel(items, g.cell_w, g.cell_h, config, is_preview);
    assert(cell_data(cells@) =~= cells_target) by {
        assert forall|k: int| 0 <= k < cells@.len() implies cell_data(cells@)[k] == cells_target[k] by {
            assert(is_cell_of(cells@[k], items@[k].0, g.cell_w, g.cell_h, *config, filter));
        }
    }
    let mut copies: Vec<usize> = Vec::new();
    let mut i: usize = 0;
    while i < items.len()
        invariant
            0 <= i <= items@.len(),
            copies@ == copies_of(items@).take(i as int),
        decreases items@.len() - i,
    {
        copies.push(items[i].1);
        proof {
            assert(copies_of(items@).take(i + 1) =~= copies_of(items@).take(i as int).push(items@[i as int].1));
        }
        i = i + 1;
    }
    assert(copies@ =~= copies_of(items@));
    let queue = expand_copies(&copies);
    proof {
        lemma_expand_len(copies@);
        assert(g.cols as int * g.rows as int >= 1) by (nonlinear_arith)
            requires g.cols >= 1, g.rows >= 1;
        assert forall|j: int| 0 <= j < queue@.len() implies #[trigger] queue@[j] < cells@.len() by {
            lemma_expand_entries(copies_of(items@), j);
        }
        assert forall|k: int| 0 <= k < cells@.len() implies {
            &&& (#[trigger] cells@[k]).wf()
            &&& cells@[k].width == g.cell_w
            &&& cells@[k].height == g.cell_h
        } by {
            assert(is_cell_of(cells@[k], items@[k].0, g.cell_w, g.cell_h, *config, filter));
        }
        assert(cells_fit_grid(cells@, queue@, g));
    }
    (cells, queue, g)
}

/// Prepares every photo's cell for `sheet`, queues the cells by their copy counts and composes
/// the sheets.
fn render_sheets(items: &Vec<(Canvas, usize)>, config: &GridConfig, sheet: &SheetLayout, is_preview: bool, marks: bool, len: u32) -> (sheets: Vec<Canvas>)
    requires
        render_ready(items@, *config, *sheet, marks, len as int),
    ensures
        ({
            let g = sheet.geometry_spec(config.cols as int, config.rows as int);
            let queue = expand_spec(copies_of(items@));
            let cells = cells_spec(items@, g.cell_w, g.cell_h, *config, if is_preview { Resample::Triangle } else { Resample::Lanczos3 });
            &&& sheets@.len() == page_count_spec(queue.len() as int, g.slots())
            &&& forall|p: int| 0 <= p < sheets@.len() ==> {
                &&& (#[trigger] sheets@[p]).wf()
                &&& sheets@[p].width == sheet.page_w
                &&& sheets@[p].height == sheet.page_h
                &&& sheets@[p].data@ == sheet_spec(sheet.page_w, sheet.page_h, cells, queue, g, marks, len as int, p)
            }
        }),
{
    let (cells, queue, g) = layout_cells(items, config, sheet, is_preview, marks, len);
    if queue.len() == 0 {
        assert(page_count_spec(0, g.slots()) == 0) by {
            vstd::arithmetic::div_mod::lemma_basic_div(g.slots() - 1, g.slots());
        }
        return Vec::new();
    }
    let per: usize = (g.cols * g.rows) as usize;
    let num_pages = page_count(queue.len(), per);
    compose_sheets_parallel(num_pages, per, &cells, &queue, sheet.page_w, sheet.page_h, &g, marks, len)
}

/// The PDF page of print sheet `p`: the sheet composed, then encoded as a JPEG at quality 95.
pub fn render_print_page(
    p: usize,
    per: usize,
    cells: &Vec<Canvas>,
    queue: &Vec<usize>,
    pw: u32,
    ph: u32,
    g: &GridGeometry,
    marks: bool,
    len: u32,
) -> (page: PdfPage)
    requires
        sheets_ready(cells@, queue@, per as int, pw, ph, *g, marks, len as int),
        p < page_count_spec(queue@.len() as int, per as int),
    ensures
        page.width_px == pw,
        page.height_px == ph,
        page.jpeg_data@ == jpeg_encoded(sheet_spec(pw, ph, cell_data(cells@), queue@, *g, marks, len as int, p as int), pw, ph, 95),
{
    let sheet = compose_sheet(p, per, cells, queue, pw, ph, g, marks, len);
    let jpeg = encode_jpeg(&sheet.data, pw, ph, 95);
    PdfPage { jpeg_data: jpeg, width_px: pw, height_px: ph }
}

/// Calls `rayon`'s `into_par_iter().map(..).collect()` over the sheet numbers `0 .. num_pages`:
/// `render_print_page` composes and encodes each page on a worker thread, and collecting an
/// indexed parallel iterator into a `Vec` keeps the pages' order. The contract claims one page
/// per number, in order, each as `render_print_page` promises.
#[verifier::external_body]
fn print_pages_parallel(
    num_pages: usize,
    per: usize,
    cells: &Vec<Canvas>,
    queue: &Vec<usize>,
    pw: u32,
    ph: u32,
    g: &GridGeometry,
    marks: bool,
    len: u32,
) -> (pages: Vec<PdfPage>)
    requires
        sheets_ready(cells@, queue@, per as int, pw, ph, *g, marks, len as int),
        num_pages == page_count_spec(queue@.len() as int, per as int),
    ensures
        pages@.len() == num_pages,
        forall|p: int| 0 <= p < num_pages ==> {
            &&& (#[trigger] pages@[p]).width_px == pw
            &&& pages@[p].height_px == ph
            &&& pages@[p].jpeg_data@ == jpeg_encoded(sheet_spec(pw, ph, cell_data(cells@), queue@, *g, marks, len as int, p), pw, ph, 95)
        },
{
    (0..num_pages).into_par_iter().map(|p| render_print_page(p, per, cells, queue, pw, ph, g, marks, len)).collect()
}

/// Whether preparing a `tw` x `th` cell from a `sw` x `sh` photo keeps its buffers in memory.
fn cell_buffers_fit_check(sw: u32, sh: u32, tw: u32, th: u32, mode: FitMode) -> (r: bool)
    requires
        sw > 0,
        sh > 0,
    ensures
        r == cell_buffers_fit(sw as int, sh as int, tw as int, th as int, mode),
{
    let (nw, nh) = scaled_size(sw, sh, tw, th, mode);
    let lim: u128 = isize::MAX as u128;
    assert(sw * sh <= u32::MAX * u32::MAX && tw * th <= u32::MAX * u32::MAX && nw * nh <= u32::MAX * u32::MAX
        && sw * nh <= u32::MAX * u32::MAX) by (nonlinear_arith)
        requires sw <= u32::MAX, sh <= u32::MAX, tw <= u32::MAX, th <= u32::MAX, nw <= u32::MAX, nh <= u32::MAX,
            sw >= 0, sh >= 0, tw >= 0, th >= 0, nw >= 0, nh >= 0;
    assert(3 * sw * sh == 3 * (sw * sh) && 3 * tw * th == 3 * (tw * th) && 3 * nw * nh == 3 * (nw * nh)
        && 16 * sw * nh == 16 * (sw * nh)) by (nonlinear_arith);
    3 * (sw as u128 * sh as u128) <= lim && 3 * (tw as u128 * th as u128) <= lim
        && 3 * (nw as u128 * nh as u128) <= lim && 16 * (sw as u128 * nh as u128) <= lim
}

/// Whether slot `s` of grid `g` has its position, and with `marks` its guides of length `len`,
/// within `u32` and consistent with a `pw` x `ph` sheet.
fn slot_ready_check(g: &GridGeometry, s: u32, pw: u32, ph: u32, marks: bool, len: u32) -> (r: bool)
    requires
        g.cols >= 1,
    ensures
        r == slot_ready(*g, s as int, pw as int, ph as int, marks, len as int),
{
    let max: u128 = u32::MAX as u128;
    let step_x: u128 = g.cell_w as u128 + g.gap as u128;
    let step_y: u128 = g.cell_h as u128 + g.gap as u128;
    let col = s % g.cols;
    let row = s / g.cols;
    assert(col * step_x <= u32::MAX * (2 * u32::MAX) && row * step_y <= u32::MAX * (2 * u32::MAX)) by (nonlinear_arith)
        requires col <= u32::MAX, row <= u32::MAX, step_x <= 2 * u32::MAX, step_y <= 2 * u32::MAX, col >= 0, row >= 0, step_x >= 0, step_y >= 0;
    let x: u128 = g.start_x as u128 + col as u128 * step_x;
    let y: u128 = g.start_y as u128 + row as u128 * step_y;
    let in_range = step_x <= max && step_y <= max && x <= max && y <= max;
    if !in_range {
        return false;
    }
    if !marks || len == 0 {
        return true;
    }
    x + g.cell_w as u128 + len as u128 - 1 <= max && y + g.cell_h as u128 + len as u128 - 1 <= max
        && ((x < pw as u128) == (y < ph as u128))
}

/// Whether rendering `items` on `sheet` meets every condition of `render_ready`.
pub fn render_ready_check(items: &Vec<(Canvas, usize)>, config: &GridConfig, sheet: &SheetLayout, marks: bool, len: u32) -> (r: bool)
    ensures
        r == render_ready(items@, *config, *sheet, marks, len as int),
{
    let max32: u128 = u32::MAX as u128;
    let c: u128 = if config.cols < 1 { 1 } else { config.cols as u128 };
    let rw: u128 = if config.rows < 1 { 1 } else { config.rows as u128 };
    if !(c <= max32 && rw <= max32) {
        return false;
    }
    assert((c - 1) * sheet.gap <= u32::MAX * u32::MAX && (rw - 1) * sheet.gap <= u32::MAX * u32::MAX) by (nonlinear_arith)
        requires c <= u32::MAX, rw <= u32::MAX, c >= 1, rw >= 1, sheet.gap <= u32::MAX, sheet.gap >= 0;
    let axes_ok = 2 * sheet.margin_x as u128 <= max32 && (c - 1) * sheet.gap as u128 <= max32
        && 2 * sheet.margin_y as u128 <= max32 && (rw - 1) * sheet.gap as u128 <= max32;
    if !axes_ok {
        return false;
    }
    let g = sheet.geometry(config.cols, config.rows);
    assert(g.cols * g.rows <= u32::MAX * u32::MAX) by (nonlinear_arith)
        requires g.cols <= u32::MAX, g.rows <= u32::MAX, g.cols >= 0, g.rows >= 0;
    let slots: u128 = g.cols as u128 * g.rows as u128;
    if slots > max32 {
        return false;
    }
    assert(sheet.page_w * sheet.page_h <= u32::MAX * u32::MAX) by (nonlinear_arith)
        requires sheet.page_w <= u32::MAX, sheet.page_h <= u32::MAX, sheet.page_w >= 0, sheet.page_h >= 0;
    assert(3 * sheet.page_w * sheet.page_h == 3 * (sheet.page_w * sheet.page_h)) by (nonlinear_arith);
    if 3 * (sheet.page_w as u128 * sheet.page_h as u128) > isize::MAX as u128 {
        return false;
    }
    assert(g.slots() == slots);
    let mut copies: Vec<usize> = Vec::new();
    let mut i: usize = 0;
    while i < items.len()
        invariant
            0 <= i <= items@.len(),
            copies@ == copies_of(items@).take(i as int),
            g == sheet.geometry_spec(config.cols as int, config.rows as int),
            forall|k: int| 0 <= k < i ==> {
                &&& (#[trigger] items@[k]).0.wf()
                &&& items@[k].0.width > 0
                &&& items@[k].0.height > 0
                &&& cell_buffers_fit(items@[k].0.width as int, items@[k].0.height as int, g.cell_w as int, g.cell_h as int, config.fit_mode)
            },
        decreases items@.len() - i,
    {
        let img = &items[i].0;
        assert(img.width * img.height <= u32::MAX * u32::MAX) by (nonlinear_arith)
            requires img.width <= u32::MAX, img.height <= u32::MAX, img.width >= 0, img.height >= 0;
        assert(3 * img.width * img.height == 3 * (img.width * img.height)) by (nonlinear_arith);
        let ok = img.width > 0 && img.height > 0 && img.data.len() as u128 == 3 * (img.width as u128 * img.height as u128)
            && cell_buffers_fit_check(img.width, img.height, g.cell_w, g.cell_h, config.fit_mode);
        if !ok {
            assert(!({
                &&& items@[i as int].0.wf()
                &&& items@[i as int].0.width > 0
                &&& items@[i as int].0.height > 0
                &&& cell_buffers_fit(items@[i as int].0.width as int, items@[i as int].0.height as int, g.cell_w as int, g.cell_h as int, config.fit_mode)
            }));
            return false;
        }
        copies.push(items[i].1);
        proof {
            assert(copies_of(items@).take(i + 1) =~= copies_of(items@).take(i as int).push(items@[i as int].1));
        }
        i = i + 1;
    }
    assert(copies@ =~= copies_of(items@));
    let n = match crate::queue::checked_total_copies(&copies) {
        Some(n) => n,
        None => { return false; },
    };
    if n > 0 && n as u128 + slots - 1 > usize::MAX as u128 {
        return false;
    }
    let used: u128 = if (n as u128) < slots { n as u128 } else { slots };
    assert(photos_ready(items@, g, config.fit_mode));
    let mut s: u32 = 0;
    while (s as u128) < used
        invariant
            0 <= s <= used,
            used <= u32::MAX,
            used == (if n < g.slots() { n as int } else { g.slots() }),
            n == total_copies(copies_of(items@)),
            g == sheet.geometry_spec(config.cols as int, config.rows as int),
            sheet.fits(config.cols as int, config.rows as int),
            g.slots() <= u32::MAX,
            3 * sheet.page_w * sheet.page_h <= isize::MAX,
            n == 0 || n + g.slots() - 1 <= usize::MAX,
            photos_ready(items@, g, config.fit_mode),
            g.cols >= 1,
            slots_ready(g, s as int, sheet.page_w as int, sheet.page_h as int, marks, len as int),
        decreases used - s,
    {
        if !slot_ready_check(&g, s, sheet.page_w, sheet.page_h, marks, len) {
            return false;
        }
        s = s + 1;
    }
    true
}

/// Whether the print sheets of `items` can be rendered: `render_ready` for the print sheet.
pub fn print_ready(items: &Vec<(Canvas, usize)>, config: &GridConfig) -> (r: bool)
    ensures
        r == render_ready(items@, *config, print_sheet_spec(*config), config.show_cut_marks && config.gap > 4, 15),
{
    let sheet = print_sheet(config);
    render_ready_check(items, config, &sheet, config.show_cut_marks && config.gap > 4, 15)
}

/// Whether the preview sheets of `items` can be rendered at `max_dim`.
pub fn preview_ready(items: &Vec<(Canvas, usize)>, config: &GridConfig, max_dim: u32) -> (r: bool)
    ensures
        r == (items@.len() > 0 ==> render_ready(
            items@,
            *config,
            preview_sheet_spec(*config, max_dim),
            config.show_cut_marks && preview_sheet_spec(*config, max_dim).gap > 3,
            6,
        )),
{
    if items.len() == 0 {
        return true;
    }
    let sheet = preview_sheet(config, max_dim);
    render_ready_check(items, config, &sheet, config.show_cut_marks && sheet.gap > 3, 6)
}

/// Placing cells keeps the sheet's size.
proof fn lemma_compose_len(
    base: Seq<u8>,
    pw: int,
    ph: int,
    cells: Seq<Seq<u8>>,
    slots: Seq<usize>,
    g: GridGeometry,
    marks: bool,
    len: int,
    n: int,
)
    ensures
        compose_spec(base, pw, ph, cells, slots, g, marks, len, n).len() == base.len(),
    decreases n,
{
    if n > 0 {
        lemma_compose_len(base, pw, ph, cells, slots, g, marks, len, n - 1);
    }
}

/// Without guides, once the cells of the first `n` slots are placed, every pixel of slot `t`'s
/// rectangle holds the matching pixel of that slot's cell: later cells never cover it.
proof fn lemma_compose_shows_cell(
    base: Seq<u8>,
    pw: int,
    ph: int,
    cells: Seq<Seq<u8>>,
    slots: Seq<usize>,
    g: GridGeometry,
    len: int,
    n: int,
    t: int,
    cx: int,
    cy: int,
    k: int,
)
    requires
        base.len() == 3 * pw * ph,
        g.cols >= 1,
        0 <= t < n <= slots.len(),
        n <= g.slots(),
        g.start_x + grid_extent(g.cols as int, g.cell_w as int, g.gap as int) <= pw,
        g.start_y + grid_extent(g.rows as int, g.cell_h as int, g.gap as int) <= ph,
        forall|u: int| 0 <= u < n ==> (#[trigger] slots[u]) < cells.len(),
        forall|q: int| 0 <= q < cells.len() ==> (#[trigger] cells[q]).len() == 3 * g.cell_w * g.cell_h,
        0 <= cx < g.cell_w,
        0 <= cy < g.cell_h,
        0 <= k < 3,
    ensures
        compose_spec(base, pw, ph, cells, slots, g, false, len, n)[enc(pw, g.cell_x(t) + cx, g.cell_y(t) + cy) + k]
            == cells[slots[t] as int][enc(g.cell_w as int, cx, cy) + k],
    decreases n,
{
    let u = n - 1;
    let prev = compose_spec(base, pw, ph, cells, slots, g, false, len, u);
    lemma_compose_len(base, pw, ph, cells, slots, g, false, len, u);
    g.lemma_cells_within_grid_and_disjoint(t, u);
    let x = g.cell_x(t) + cx;
    let y = g.cell_y(t) + cy;
    lemma_encode(pw, ph, x, y, k);
    if t < u {
        lemma_compose_shows_cell(base, pw, ph, cells, slots, g, len, u, t, cx, cy, k);
    } else {
        assert(slots[t] < cells.len());
    }
}

/// Each photo of the queue appears in its grid cell on its sheet: without cutting guides, pixel
/// `(cx, cy)` of the cell of the photo queued at position `page_start(p) + s` is pixel
/// `(cell_x(s) + cx, cell_y(s) + cy)` of sheet `p`.
pub proof fn lemma_sheet_shows_queued_cells(
    sheet: SheetLayout,
    cols: int,
    rows: int,
    cells: Seq<Seq<u8>>,
    queue: Seq<usize>,
    len: int,
    p: int,
    s: int,
    cx: int,
    cy: int,
    k: int,
)
    requires
        sheet.fits(cols, rows),
        0 <= p < page_count_spec(queue.len() as int, sheet.geometry_spec(cols, rows).slots()),
        0 <= s < page_end(p, sheet.geometry_spec(cols, rows).slots(), queue.len() as int)
            - page_start(p, sheet.geometry_spec(cols, rows).slots()),
        forall|j: int| 0 <= j < queue.len() ==> (#[trigger] queue[j]) < cells.len(),
        forall|q: int| 0 <= q < cells.len() ==> (#[trigger] cells[q]).len()
            == 3 * sheet.geometry_spec(cols, rows).cell_w * sheet.geometry_spec(cols, rows).cell_h,
        0 <= cx < sheet.geometry_spec(cols, rows).cell_w,
        0 <= cy < sheet.geometry_spec(cols, rows).cell_h,
        0 <= k < 3,
    ensures
        ({
            let g = sheet.geometry_spec(cols, rows);
            sheet_spec(sheet.page_w, sheet.page_h, cells, queue, g, false, len, p)[enc(sheet.page_w as int, g.cell_x(s) + cx, g.cell_y(s) + cy) + k]
                == cells[queue[page_start(p, g.slots()) + s] as int][enc(g.cell_w as int, cx, cy) + k]
        }),
{
    let g = sheet.geometry_spec(cols, rows);
    let c = at_least_one(cols);
    let r = at_least_one(rows);
    let per = g.slots();
    let pw = sheet.page_w as int;
    let ph = sheet.page_h as int;
    lemma_grid_on_page(pw, sheet.margin_x as int, c, sheet.gap as int);
    lemma_grid_on_page(ph, sheet.margin_y as int, r, sheet.gap as int);
    assert(per >= 1) by (nonlinear_arith)
        requires per == c * r, c >= 1, r >= 1;
    lemma_pages_partition_queue(queue.len() as int, per, 0, p);
    let st = page_start(p, per);
    let en = page_end(p, per, queue.len() as int);
    let slots = queue.subrange(st, en);
    let base = filled_spec(pw, ph, white());
    assert(base.len() == 3 * pw * ph);
    assert forall|u: int| 0 <= u < en - st implies (#[trigger] slots[u]) < cells.len() by {
        assert(slots[u] == queue[st + u]);
    }
    lemma_compose_shows_cell(base, pw, ph, cells, slots, g, len, en - st, s, cx, cy, k);
}

/// Without guides, placing cells leaves every pixel outside their rectangles as it was.
proof fn lemma_compose_keeps_outside(
    base: Seq<u8>,
    pw: int,
    ph: int,
    cells: Seq<Seq<u8>>,
    slots: Seq<usize>,
    g: GridGeometry,
    len: int,
    n: int,
    px: int,
    py: int,
    k: int,
)
    requires
        base.len() == 3 * pw * ph,
        0 <= px < pw,
        0 <= py < ph,
        0 <= k < 3,
        forall|u: int| 0 <= u < n ==> !in_rect(px, py, #[trigger] g.cell_x(u), g.cell_y(u), g.cell_w as int, g.cell_h as int),
    ensures
        compose_spec(base, pw, ph, cells, slots, g, false, len, n)[enc(pw, px, py) + k] == base[enc(pw, px, py) + k],
    decreases n,
{
    lemma_encode(pw, ph, px, py, k);
    if n > 0 {
        lemma_compose_len(base, pw, ph, cells, slots, g, false, len, n - 1);
        assert(!in_rect(px, py, g.cell_x(n - 1), g.cell_y(n - 1), g.cell_w as int, g.cell_h as int));
        lemma_compose_keeps_outside(base, pw, ph, cells, slots, g, len, n - 1, px, py, k);
    }
}

/// The paper stays white outside the cells: without cutting guides, a pixel of sheet `p` that
/// lies in none of the rectangles of the cells that sheet shows is white.
pub proof fn lemma_sheet_white_outside_cells(
    sheet: SheetLayout,
    cols: int,
    rows: int,
    cells: Seq<Seq<u8>>,
    queue: Seq<usize>,
    len: int,
    p: int,
    px: int,
    py: int,
    k: int,
)
    requires
        sheet.fits(cols, rows),
        0 <= p < page_count_spec(queue.len() as int, sheet.geometry_spec(cols, rows).slots()),
        0 <= px < sheet.page_w,
        0 <= py < sheet.page_h,
        0 <= k < 3,
        forall|s: int| 0 <= s < page_end(p, sheet.geometry_spec(cols, rows).slots(), queue.len() as int)
            - page_start(p, sheet.geometry_spec(cols, rows).slots()) ==> !in_rect(
                px,
                py,
                #[trigger] sheet.geometry_spec(cols, rows).cell_x(s),
                sheet.geometry_spec(cols, rows).cell_y(s),
                sheet.geometry_spec(cols, rows).cell_w as int,
                sheet.geometry_spec(cols, rows).cell_h as int,
            ),
    ensures
        ({
            let g = sheet.geometry_spec(cols, rows);
            sheet_spec(sheet.page_w, sheet.page_h, cells, queue, g, false, len, p)[enc(sheet.page_w as int, px, py) + k] == 255
        }),
{
    let g = sheet.geometry_spec(cols, rows);
    let per = g.slots();
    let pw = sheet.page_w as int;
    let ph = sheet.page_h as int;
    let st = page_start(p, per);
    let en = page_end(p, per, queue.len() as int);
    let base = filled_spec(pw, ph, white());
    assert(base.len() == 3 * pw * ph);
    lemma_compose_keeps_outside(base, pw, ph, cells, queue.subrange(st, en), g, len, en - st, px, py, k);
    lemma_encode(pw, ph, px, py, k);
    assert((enc(pw, px, py) + k) % 3 == k);
}

/// The preview shows the print job as it will print: for any number `n` of queued cells, the
/// preview has as many sheets as the print, and each preview sheet shows the same run of the
/// queue as the print sheet of the same number.
pub proof fn lemma_preview_matches_print(c: GridConfig, max_dim: u32, n: int, p: int)
    ensures
        ({
            let print = print_sheet_spec(c).geometry_spec(c.cols as int, c.rows as int);
            let preview = preview_sheet_spec(c, max_dim).geometry_spec(c.cols as int, c.rows as int);
            &&& page_count_spec(n, preview.slots()) == page_count_spec(n, print.slots())
            &&& page_start(p, preview.slots()) == page_start(p, print.slots())
            &&& page_end(p, preview.slots(), n) == page_end(p, print.slots(), n)
        }),
{
}

/// A byte off every cell's guides holds the same value whether or not guides are drawn.
proof fn lemma_compose_off_guides(
    base: Seq<u8>,
    pw: int,
    ph: int,
    cells: Seq<Seq<u8>>,
    slots: Seq<usize>,
    g: GridGeometry,
    len: int,
    n: int,
    i: int,
)
    requires
        base.len() == 3 * pw * ph,
        0 <= i < base.len(),
        forall|u: int| 0 <= u < n ==> !corner_marks(
            #[trigger] g.cell_x(u),
            g.cell_y(u),
            g.cell_w as int,
            g.cell_h as int,
            len,
            dec_x(pw, i),
            dec_y(pw, i),
        ),
    ensures
        compose_spec(base, pw, ph, cells, slots, g, true, len, n)[i] == compose_spec(base, pw, ph, cells, slots, g, false, len, n)[i],
    decreases n,
{
    if n > 0 {
        lemma_compose_len(base, pw, ph, cells, slots, g, true, len, n - 1);
        lemma_compose_len(base, pw, ph, cells, slots, g, false, len, n - 1);
        assert(!corner_marks(g.cell_x(n - 1), g.cell_y(n - 1), g.cell_w as int, g.cell_h as int, len, dec_x(pw, i), dec_y(pw, i)));
        lemma_compose_off_guides(base, pw, ph, cells, slots, g, len, n - 1, i);
    }
}

/// A byte on a guide of slot `t` that no later cell covers holds the guide colour.
proof fn lemma_compose_on_guide(
    base: Seq<u8>,
    pw: int,
    ph: int,
    cells: Seq<Seq<u8>>,
    slots: Seq<usize>,
    g: GridGeometry,
    len: int,
    n: int,
    t: int,
    i: int,
)
    requires
        base.len() == 3 * pw * ph,
        0 <= i < base.len(),
        0 <= t < n,
        corner_marks(g.cell_x(t), g.cell_y(t), g.cell_w as int, g.cell_h as int, len, dec_x(pw, i), dec_y(pw, i)),
        forall|u: int| t < u < n ==> !in_rect(
            dec_x(pw, i),
            dec_y(pw, i),
            #[trigger] g.cell_x(u),
            g.cell_y(u),
            g.cell_w as int,
            g.cell_h as int,
        ),
    ensures
        compose_spec(base, pw, ph, cells, slots, g, true, len, n)[i] == mark_color()[i % 3],
    decreases n,
{
    lemma_compose_len(base, pw, ph, cells, slots, g, true, len, n - 1);
    if t < n - 1 {
        assert(!in_rect(dec_x(pw, i), dec_y(pw, i), g.cell_x(n - 1), g.cell_y(n - 1), g.cell_w as int, g.cell_h as int));
        lemma_compose_on_guide(base, pw, ph, cells, slots, g, len, n - 1, t, i);
    }
}

/// Cutting guides only add the guides: on a sheet drawn with guides, a pixel on no cell's guide
/// is as on the same sheet without guides, and a pixel on a guide of one of the sheet's cells
/// that no later cell of the sheet covers has the guide colour, light grey (190, 195, 205).
pub proof fn lemma_sheet_guides(
    pw: u32,
    ph: u32,
    cells: Seq<Seq<u8>>,
    queue: Seq<usize>,
    g: GridGeometry,
    len: int,
    p: int,
    px: int,
    py: int,
    k: int,
)
    requires
        0 <= px < pw,
        0 <= py < ph,
        0 <= k < 3,
    ensures
        ({
            let n = page_end(p, g.slots(), queue.len() as int) - page_start(p, g.slots());
            let i = enc(pw as int, px, py) + k;
            let marked = sheet_spec(pw, ph, cells, queue, g, true, len, p);
            let plain = sheet_spec(pw, ph, cells, queue, g, false, len, p);
            &&& (forall|u: int| 0 <= u < n ==> !corner_marks(
                #[trigger] g.cell_x(u),
                g.cell_y(u),
                g.cell_w as int,
                g.cell_h as int,
                len,
                px,
                py,
            )) ==> marked[i] == plain[i]
            &&& forall|t: int| 0 <= t < n && corner_marks(
                #[trigger] g.cell_x(t),
                g.cell_y(t),
                g.cell_w as int,
                g.cell_h as int,
                len,
                px,
                py,
            ) && (forall|u: int| t < u < n ==> !in_rect(px, py, #[trigger] g.cell_x(u), g.cell_y(u), g.cell_w as int, g.cell_h as int))
                ==> marked[i] == [190u8, 195u8, 205u8][k]
        }),
{
    let per = g.slots();
    let st = page_start(p, per);
    let en = page_end(p, per, queue.len() as int);
    let n = en - st;
    let slots = queue.subrange(st, en);
    let base = filled_spec(pw as int, ph as int, white());
    let i = enc(pw as int, px, py) + k;
    lemma_encode(pw as int, ph as int, px, py, k);
    assert(base.len() == 3 * pw * ph);
    if forall|u: int| 0 <= u < n ==> !corner_marks(#[trigger] g.cell_x(u), g.cell_y(u), g.cell_w as int, g.cell_h as int, len, px, py) {
        lemma_compose_off_guides(base, pw as int, ph as int, cells, slots, g, len, n, i);
    }
    assert forall|t: int| 0 <= t < n && corner_marks(
        #[trigger] g.cell_x(t),
        g.cell_y(t),
        g.cell_w as int,
        g.cell_h as int,
        len,
        px,
        py,
    ) && (forall|u: int| t < u < n ==> !in_rect(px, py, #[trigger] g.cell_x(u), g.cell_y(u), g.cell_w as int, g.cell_h as int))
        implies sheet_spec(pw, ph, cells, queue, g, true, len, p)[i] == mark_color()[k] by {
        lemma_compose_on_guide(base, pw as int, ph as int, cells, slots, g, len, n, t, i);
    }
}

proof fn lemma_round_div_at_most(n: int, d: int, t: int)
    requires
        d > 0,
        0 <= n <= d * t,
    ensures
        round_div(n, d) <= t,
{
    assert(2 * n + d < (2 * d) * (t + 1)) by (nonlinear_arith)
        requires n <= d * t, d > 0;
    vstd::arithmetic::div_mod::lemma_div_is_ordered(2 * n + d, (2 * d) * (t + 1) - 1, 2 * d);
    vstd::arithmetic::div_mod::lemma_fundamental_div_mod((2 * d) * (t + 1) - 1, 2 * d);
    assert(((2 * d) * (t + 1) - 1) / (2 * d) <= t) by (nonlinear_arith)
        requires
            (2 * d) * (t + 1) - 1 == (2 * d) * (((2 * d) * (t + 1) - 1) / (2 * d)) + ((2 * d) * (t + 1) - 1) % (2 * d),
            0 <= ((2 * d) * (t + 1) - 1) % (2 * d),
            d > 0;
}

/// When containing, the scaled photo fits inside the cell.
proof fn lemma_contain_fits(sw: int, sh: int, tw: int, th: int)
    requires
        sw > 0,
        sh > 0,
        1 <= tw <= u32::MAX,
        1 <= th <= u32::MAX,
    ensures
        1 <= scaled_dims(sw, sh, tw, th, FitMode::Contain).0 <= tw,
        1 <= scaled_dims(sw, sh, tw, th, FitMode::Contain).1 <= th,
{
    if tw * sh <= th * sw {
        assert(0 <= sh * tw <= sw * th) by (nonlinear_arith)
            requires tw * sh <= th * sw, tw >= 1, sh >= 1;
        lemma_round_div_at_most(sh * tw, sw, th);
    } else {
        assert(0 <= sw * th <= sh * tw) by (nonlinear_arith)
            requires tw * sh > th * sw, th >= 1, sw >= 1;
        lemma_round_div_at_most(sw * th, sh, tw);
    }
}

/// Filling crops the scaled photo evenly: it covers the cell, and pixel `(x, y)` of the cell
/// (off the border) is pixel `(x + (nw - tw) / 2, y + (nh - th) / 2)` of the photo scaled to
/// `nw` x `nh`, so what is cut from the left and the right (and the top and the bottom)
/// differs by at most one pixel.
pub proof fn lemma_fill_crops_centred(
    src: Seq<u8>,
    sw: u32,
    sh: u32,
    tw: u32,
    th: u32,
    tone: ColorFilter,
    bw: u32,
    color: [u8; 3],
    filter: Resample,
    x: int,
    y: int,
    k: int,
)
    requires
        sw > 0,
        sh > 0,
        0 <= x < tw,
        0 <= y < th,
        0 <= k < 3,
        edge_distance(tw as int, th as int, x, y) >= bw,
    ensures
        ({
            let nw = scaled_dims(sw as int, sh as int, tw as int, th as int, FitMode::Fill).0;
            let nh = scaled_dims(sw as int, sh as int, tw as int, th as int, FitMode::Fill).1;
            let scaled = resized(filter_spec(src, sw, sh, tone), sw, sh, nw as u32, nh as u32, filter);
            let left = (nw - tw) / 2;
            let top = (nh - th) / 2;
            &&& tw <= nw && th <= nh
            &&& 0 <= (nw - tw - left) - left <= 1
            &&& 0 <= (nh - th - top) - top <= 1
            &&& cell_spec(src, sw, sh, tw, th, FitMode::Fill, tone, bw, color, filter)[enc(tw as int, x, y) + k]
                == scaled[enc(nw, x + left, y + top) + k]
        }),
{
    let nw = scaled_dims(sw as int, sh as int, tw as int, th as int, FitMode::Fill).0;
    let nh = scaled_dims(sw as int, sh as int, tw as int, th as int, FitMode::Fill).1;
    lemma_fill_covers(sw as int, sh as int, tw as int, th as int);
    let i = enc(tw as int, x, y) + k;
    lemma_encode(tw as int, th as int, x, y, k);
    let scaled = resized(filter_spec(src, sw, sh, tone), sw, sh, nw as u32, nh as u32, filter);
    let fitted = fitted_spec(scaled, nw, nh, tw as int, th as int, FitMode::Fill);
    assert(3 * tw * th == 3 * (tw * th)) by (nonlinear_arith);
    assert(fitted.len() == 3 * tw * th);
    assert(fitted[i] == scaled[enc(nw, x + (nw - tw) / 2, y + (nh - th) / 2) + k]);
}

/// Containing centres the scaled photo on white: the photo, scaled to `nw` x `nh`, fits the
/// cell and sits at `((tw - nw) / 2, (th - nh) / 2)`, so the white bars on either side differ by
/// at most one pixel; a pixel of the cell (off the border) shows the photo inside that
/// rectangle and is white outside it.
pub proof fn lemma_contain_centres_on_white(
    src: Seq<u8>,
    sw: u32,
    sh: u32,
    tw: u32,
    th: u32,
    tone: ColorFilter,
    bw: u32,
    color: [u8; 3],
    filter: Resample,
    x: int,
    y: int,
    k: int,
)
    requires
        sw > 0,
        sh > 0,
        0 <= x < tw,
        0 <= y < th,
        0 <= k < 3,
        edge_distance(tw as int, th as int, x, y) >= bw,
    ensures
        ({
            let nw = scaled_dims(sw as int, sh as int, tw as int, th as int, FitMode::Contain).0;
            let nh = scaled_dims(sw as int, sh as int, tw as int, th as int, FitMode::Contain).1;
            let scaled = resized(filter_spec(src, sw, sh, tone), sw, sh, nw as u32, nh as u32, filter);
            let left = (tw - nw) / 2;
            let top = (th - nh) / 2;
            &&& nw <= tw && nh <= th
            &&& 0 <= (tw - nw - left) - left <= 1
            &&& 0 <= (th - nh - top) - top <= 1
            &&& cell_spec(src, sw, sh, tw, th, FitMode::Contain, tone, bw, color, filter)[enc(tw as int, x, y) + k]
                == if left <= x < left + nw && top <= y < top + nh {
                    scaled[enc(nw, x - left, y - top) + k]
                } else {
                    255u8
                }
        }),
{
    let nw = scaled_dims(sw as int, sh as int, tw as int, th as int, FitMode::Contain).0;
    let nh = scaled_dims(sw as int, sh as int, tw as int, th as int, FitMode::Contain).1;
    lemma_contain_fits(sw as int, sh as int, tw as int, th as int);
    let i = enc(tw as int, x, y) + k;
    lemma_encode(tw as int, th as int, x, y, k);
    let scaled = resized(filter_spec(src, sw, sh, tone), sw, sh, nw as u32, nh as u32, filter);
    let fitted = fitted_spec(scaled, nw, nh, tw as int, th as int, FitMode::Contain);
    assert(3 * tw * th == 3 * (tw * th)) by (nonlinear_arith);
    assert(fitted.len() == 3 * tw * th);
    assert(i % 3 == k);
}

/// `n / d` rounded to the nearest integer lies within half a step of `n / d`, and not above `n`.
proof fn lemma_round_div_bounds(n: int, d: int)
    requires
        d > 0,
        n >= 0,
    ensures
        2 * n - d < 2 * d * round_div(n, d) <= 2 * n + d,
        0 <= round_div(n, d) <= n,
{
    let q = round_div(n, d);
    vstd::arithmetic::div_mod::lemma_fundamental_div_mod(2 * n + d, 2 * d);
    vstd::arithmetic::div_mod::lemma_div_pos_is_pos(2 * n + d, 2 * d);
    let r = (2 * n + d) % (2 * d);
    assert(2 * n + d == (2 * d) * q + r && 0 <= r < 2 * d);
    assert(2 * n - d < 2 * d * q <= 2 * n + d) by (nonlinear_arith)
        requires 2 * n + d == (2 * d) * q + r, 0 <= r < 2 * d;
    assert(q <= n) by (nonlinear_arith)
        requires 2 * d * q <= 2 * n + d, d > 0, n >= 0, q >= 0;
}

/// Scaling keeps the photo's shape: one side of the scaled photo is the cell's side, and the
/// other is the photo's other side scaled by the same ratio and rounded to the nearest pixel
/// (one pixel when that rounds to nothing), in either fit mode.
pub proof fn lemma_scaling_keeps_aspect(sw: int, sh: int, tw: int, th: int, mode: FitMode)
    requires
        sw >= 1,
        sh >= 1,
        tw >= 1,
        th >= 1,
        sh * tw <= u32::MAX,
        sw * th <= u32::MAX,
    ensures
        ({
            let nw = scaled_dims(sw, sh, tw, th, mode).0;
            let nh = scaled_dims(sw, sh, tw, th, mode).1;
            ||| nw == tw && ((2 * sh * tw - sw < 2 * nh * sw <= 2 * sh * tw + sw) || (nh == 1 && 2 * sh * tw < sw))
            ||| nh == th && ((2 * sw * th - sh < 2 * nw * sh <= 2 * sw * th + sh) || (nw == 1 && 2 * sw * th < sh))
        }),
{
    assert(sh * tw >= 0 && sw * th >= 0) by (nonlinear_arith)
        requires sw >= 1, sh >= 1, tw >= 1, th >= 1;
    lemma_round_div_bounds(sh * tw, sw);
    lemma_round_div_bounds(sw * th, sh);
    assert(2 * sh * tw == 2 * (sh * tw)) by (nonlinear_arith);
    assert(2 * sw * th == 2 * (sw * th)) by (nonlinear_arith);
    let q1 = round_div(sh * tw, sw);
    let q2 = round_div(sw * th, sh);
    assert(q1 == 0 ==> 2 * sh * tw < sw);
    assert(q2 == 0 ==> 2 * sw * th < sh);
    assert(2 * q1 * sw == 2 * sw * q1) by (nonlinear_arith);
    assert(2 * q2 * sh == 2 * sh * q2) by (nonlinear_arith);
}

/// The tone filters act pixel by pixel: the original keeps every byte; grey gives each pixel
/// the sRGB luminance of the source pixel in all three channels; high contrast gives each
/// channel the contrast curve applied to that luminance.
pub proof fn lemma_tone_filters(src: Seq<u8>, w: u32, h: u32, x: int, y: int, k: int)
    requires
        src.len() == 3 * w * h,
        0 <= x < w,
        0 <= y < h,
        0 <= k < 3,
    ensures
        ({
            let i = enc(w as int, x, y);
            let l = luma(src[i], src[i + 1], src[i + 2]);
            &&& filter_spec(src, w, h, ColorFilter::Original)[i + k] == src[i + k]
            &&& filter_spec(src, w, h, ColorFilter::Grayscale).len() == src.len()
            &&& filter_spec(src, w, h, ColorFilter::Grayscale)[i + k] == l as u8
            &&& filter_spec(src, w, h, ColorFilter::HighContrast).len() == src.len()
            &&& filter_spec(src, w, h, ColorFilter::HighContrast)[i + k] == contrast_level(l as u8) as u8
        }),
{
    let i = enc(w as int, x, y);
    lemma_encode(w as int, h as int, x, y, k);
    let p = y * w + x;
    assert(i == 3 * p);
    assert(p < w * h) by (nonlinear_arith)
        requires 0 <= x < w, 0 <= y < h, p == y * w + x;
    assert(3 * (w * h) == 3 * w * h) by (nonlinear_arith);
    assert((i + k) / 3 == p);
    let lp = luma_plane(src, w as int, h as int);
    assert(lp[p] == luma(src[3 * p], src[3 * p + 1], src[3 * p + 2]) as u8);
}

} // verus!
