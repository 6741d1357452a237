//! An RGB raster (three bytes per pixel, rows top to bottom) and the drawing
//! operations that compose a sheet: filling, copying rectangles, overlaying,
//! cropping, cell borders and cutting guides.

use vstd::prelude::*;
use vstd::arithmetic::div_mod::{lemma_fundamental_div_mod, lemma_fundamental_div_mod_converse, lemma_div_pos_is_pos};

verus! {

/// An RGB image: `data` holds `width * height` pixels, row by row, three bytes each.
pub struct Canvas {
    pub width: u32,
    pub height: u32,
    pub data: Vec<u8>,
}

/// Byte offset of pixel `(x, y)` in an image `w` pixels wide.
pub open spec fn enc(w: int, x: int, y: int) -> int {
    3 * (y * w + x)
}

/// Column of the pixel that byte `i` belongs to, in an image `w` pixels wide.
pub open spec fn dec_x(w: int, i: int) -> int {
    (i / 3) % w
}

/// Row of the pixel that byte `i` belongs to, in an image `w` pixels wide.
pub open spec fn dec_y(w: int, i: int) -> int {
    (i / 3) / w
}

/// `(x, y)` lies in the rectangle with corner `(rx, ry)` and size `rw` x `rh`.
pub open spec fn in_rect(x: int, y: int, rx: int, ry: int, rw: int, rh: int) -> bool {
    rx <= x < rx + rw && ry <= y < ry + rh
}

/// Bytes of an image `w` x `h` filled with one colour.
pub open spec fn filled_spec(w: int, h: int, color: [u8; 3]) -> Seq<u8> {
    Seq::new((3 * w * h) as nat, |i: int| color[i % 3])
}

/// `dst` (`dw` pixels wide) with the `w` x `h` rectangle at `(dx, dy)` replaced by the
/// rectangle of `src` (`sw` pixels wide) at `(sx, sy)`.
pub open spec fn blit_spec(
    dst: Seq<u8>,
    dw: int,
    src: Seq<u8>,
    sw: int,
    dx: int,
    dy: int,
    sx: int,
    sy: int,
    w: int,
    h: int,
) -> Seq<u8> {
    Seq::new(
        dst.len(),
        |i: int|
            if in_rect(dec_x(dw, i), dec_y(dw, i), dx, dy, w, h) {
                src[enc(sw, sx + dec_x(dw, i) - dx, sy + dec_y(dw, i) - dy) + i % 3]
            } else {
                dst[i]
            },
    )
}

/// Width of the part of an image `top_len` wide, placed at `pos`, that falls on an image
/// `bottom_len` wide.
pub open spec fn clip_len(bottom_len: int, top_len: int, pos: int) -> int {
    if pos >= bottom_len {
        0
    } else if top_len < bottom_len - pos {
        top_len
    } else {
        bottom_len - pos
    }
}

/// `bottom` with `top` drawn over it at `(x, y)`; what falls outside `bottom` is dropped.
pub open spec fn overlay_spec(
    bottom: Seq<u8>,
    bw: int,
    bh: int,
    top: Seq<u8>,
    tw: int,
    th: int,
    x: int,
    y: int,
) -> Seq<u8> {
    blit_spec(bottom, bw, top, tw, x, y, 0, 0, clip_len(bw, tw, x), clip_len(bh, th, y))
}

/// Where a crop begins along an axis of length `len`: at `pos`, or at the end when `pos` lies beyond it.
pub open spec fn crop_origin(len: int, pos: int) -> int {
    if pos < len { pos } else { len }
}

/// Bytes of the rectangle at `(x, y)` of size `w` x `h` cut from `src` (`sw` x `sh`), the
/// rectangle first cut down to what lies inside `src`.
pub open spec fn crop_spec(src: Seq<u8>, sw: int, sh: int, x: int, y: int, w: int, h: int) -> Seq<u8> {
    let cx = crop_origin(sw, x);
    let cy = crop_origin(sh, y);
    let cw = clip_len(sw, w, cx);
    let ch = clip_len(sh, h, cy);
    Seq::new((3 * cw * ch) as nat, |i: int| src[enc(sw, cx + dec_x(cw, i), cy + dec_y(cw, i)) + i % 3])
}

/// Distance from pixel `(x, y)` to the nearest edge of a `w` x `h` image.
pub open spec fn edge_distance(w: int, h: int, x: int, y: int) -> int {
    let a = if x < y { x } else { y };
    let b = if w - 1 - x < h - 1 - y { w - 1 - x } else { h - 1 - y };
    if a < b { a } else { b }
}

/// Bytes of an image `w` x `h` whose pixels within `bw` of an edge are set to `color`.
pub open spec fn border_spec(data: Seq<u8>, w: int, h: int, bw: int, color: [u8; 3]) -> Seq<u8> {
    Seq::new(
        data.len(),
        |i: int| if edge_distance(w, h, dec_x(w, i), dec_y(w, i)) < bw { color[i % 3] } else { data[i] },
    )
}


/// Bytes of an image `w` x `h` turned a quarter turn clockwise: the result is `h` pixels wide,
/// and its pixel `(x, y)` is pixel `(y, h - 1 - x)` of the source image.
pub open spec fn rotated_spec(src: Seq<u8>, w: int, h: int) -> Seq<u8> {
    Seq::new((3 * w * h) as nat, |i: int| src[enc(w, dec_y(h, i), h - 1 - dec_x(h, i)) + i % 3])
}

/// Bytes of an image `w` x `h` mirrored left to right: pixel `(x, y)` is pixel
/// `(w - 1 - x, y)` of the source image.
pub open spec fn mirrored_spec(src: Seq<u8>, w: int, h: int) -> Seq<u8> {
    Seq::new((3 * w * h) as nat, |i: int| src[enc(w, w - 1 - dec_x(w, i), dec_y(w, i)) + i % 3])
}

/// Pixel `(px, py)` belongs to the cutting guides of the cell at `(x, y)` of size `w` x `h`
/// once the four corner passes have drawn `n1`, `n2`, `n3` and `n4` pixels of their arms:
/// at each corner an L of two arms that run outwards from the corner, along the cell's edges.
pub open spec fn marks_upto(x: int, y: int, w: int, h: int, n1: int, n2: int, n3: int, n4: int, px: int, py: int) -> bool {
    ||| (py == y && px <= x && x - px < n1)
    ||| (px == x && py <= y && y - py < n1)
    ||| (py == y && px >= x + w && px - (x + w) < n2)
    ||| (px == x + w && py <= y && y - py < n2)
    ||| (py == y + h && px <= x && x - px < n3)
    ||| (px == x && py >= y + h && py - (y + h) < n3)
    ||| (py == y + h && px >= x + w && px - (x + w) < n4)
    ||| (px == x + w && py >= y + h && py - (y + h) < n4)
}

/// Pixel `(px, py)` belongs to the cutting guides of length `len` of the cell at `(x, y)`.
pub open spec fn corner_marks(x: int, y: int, w: int, h: int, len: int, px: int, py: int) -> bool {
    marks_upto(x, y, w, h, len, len, len, len, px, py)
}

/// Bytes of an image `cw` pixels wide with the cutting guides of the cell at `(x, y)` drawn in `color`.
pub open spec fn marks_spec(data: Seq<u8>, cw: int, x: int, y: int, w: int, h: int, len: int, color: [u8; 3]) -> Seq<u8> {
    Seq::new(
        data.len(),
        |i: int| if corner_marks(x, y, w, h, len, dec_x(cw, i), dec_y(cw, i)) { color[i % 3] } else { data[i] },
    )
}

/// The guides of a cell can be drawn within `u32` arithmetic and inside the image.
pub open spec fn marks_in_range(cw: int, ch: int, x: int, y: int, w: int, h: int, len: int) -> bool {
    len == 0 || {
        &&& x + w + len - 1 <= u32::MAX
        &&& y + h + len - 1 <= u32::MAX
        &&& (x < cw <==> y < ch)
    }
}

/// The guide colour.
pub open spec fn mark_color() -> [u8; 3] {
    [190u8, 195u8, 205u8]
}

impl Canvas {
    /// The byte buffer holds exactly the pixels of the image.
    pub open spec fn wf(&self) -> bool {
        self.data.len() == 3 * self.width * self.height
    }

    /// Colour channel `k` of pixel `(x, y)`.
    pub open spec fn channel(&self, x: int, y: int, k: int) -> u8 {
        self.data@[enc(self.width as int, x, y) + k]
    }
}

/// Every byte of an image `w` pixels wide and `h` high belongs to one pixel inside it.
pub proof fn lemma_decode(w: int, h: int, i: int)
    requires
        w >= 0,
        h >= 0,
        0 <= i < 3 * w * h,
    ensures
        0 <= dec_x(w, i) < w,
        0 <= dec_y(w, i) < h,
        0 <= i % 3 < 3,
        i == enc(w, dec_x(w, i), dec_y(w, i)) + i % 3,
{
    assert(w > 0) by (nonlinear_arith)
        requires w >= 0, h >= 0, 0 <= i < 3 * w * h;
    let p = i / 3;
    lemma_fundamental_div_mod(i, 3);
    lemma_div_pos_is_pos(i, 3);
    lemma_fundamental_div_mod(p, w);
    lemma_div_pos_is_pos(p, w);
    assert(p < w * h) by (nonlinear_arith)
        requires i == 3 * p + i % 3, 0 <= i % 3 < 3, i < 3 * w * h;
    assert(p / w < h) by (nonlinear_arith)
        requires p == w * (p / w) + p % w, 0 <= p % w, p < w * h, w > 0;
    assert(i == 3 * ((p / w) * w + p % w) + i % 3) by (nonlinear_arith)
        requires i == 3 * p + i % 3, p == w * (p / w) + p % w;
}

/// Byte `k` of pixel `(x, y)` decodes back to `(x, y)` and `k`, and lies inside the image.
pub proof fn lemma_encode(w: int, h: int, x: int, y: int, k: int)
    requires
        0 <= x < w,
        0 <= y < h,
        0 <= k < 3,
    ensures
        dec_x(w, enc(w, x, y) + k) == x,
        dec_y(w, enc(w, x, y) + k) == y,
        (enc(w, x, y) + k) % 3 == k,
        0 <= enc(w, x, y) + k < 3 * w * h,
{
    let i = enc(w, x, y) + k;
    lemma_fundamental_div_mod_converse(i, 3, y * w + x, k);
    lemma_fundamental_div_mod_converse(y * w + x, w, y, x);
    assert(0 <= y * w + x) by (nonlinear_arith)
        requires 0 <= x, 0 <= y, w > 0;
    assert(y * w + x < (y + 1) * w) by (nonlinear_arith)
        requires x < w;
    assert((y + 1) * w <= h * w) by (nonlinear_arith)
        requires y + 1 <= h, w > 0;
    assert(3 * w * h == 3 * (h * w)) by (nonlinear_arith);
}

/// The bytes `[base, base + 3 * w)` of row `y` from column `x0` are the pixels `x0 .. x0 + w`.
proof fn lemma_row_span(dw: int, dh: int, x0: int, y: int, w: int, t: int)
    requires
        0 <= x0,
        x0 + w <= dw,
        0 <= y < dh,
        0 <= t < 3 * w,
    ensures
        dec_x(dw, enc(dw, x0, y) + t) == x0 + t / 3,
        dec_y(dw, enc(dw, x0, y) + t) == y,
        (enc(dw, x0, y) + t) % 3 == t % 3,
        enc(dw, x0 + t / 3, y) + t % 3 == enc(dw, x0, y) + t,
        0 <= t / 3 < w,
{
    lemma_fundamental_div_mod(t, 3);
    lemma_div_pos_is_pos(t, 3);
    assert(t / 3 < w) by (nonlinear_arith)
        requires t == 3 * (t / 3) + t % 3, 0 <= t % 3, t < 3 * w;
    lemma_encode(dw, dh, x0 + t / 3, y, t % 3);
    assert(enc(dw, x0 + t / 3, y) + t % 3 == enc(dw, x0, y) + t) by (nonlinear_arith)
        requires t == 3 * (t / 3) + t % 3;
}

/// A byte of row `y` whose column lies in `[x0, x0 + w)` lies in that row's span.
proof fn lemma_row_span_back(dw: int, dh: int, x0: int, y: int, w: int, i: int)
    requires
        dw > 0,
        dh >= 0,
        0 <= x0,
        x0 + w <= dw,
        0 <= i < 3 * dw * dh,
        dec_y(dw, i) == y,
        x0 <= dec_x(dw, i) < x0 + w,
    ensures
        enc(dw, x0, y) <= i < enc(dw, x0, y) + 3 * w,
        (i - enc(dw, x0, y)) / 3 == dec_x(dw, i) - x0,
        (i - enc(dw, x0, y)) % 3 == i % 3,
{
    lemma_decode(dw, dh, i);
    let x = dec_x(dw, i);
    let k = i % 3;
    assert(i - enc(dw, x0, y) == 3 * (x - x0) + k) by (nonlinear_arith)
        requires i == 3 * (y * dw + x) + k;
    lemma_fundamental_div_mod_converse(i - enc(dw, x0, y), 3, x - x0, k);
}

impl Canvas {
    /// An image `width` x `height` of a single colour.
    pub fn filled(width: u32, height: u32, color: [u8; 3]) -> (c: Canvas)
        requires
            3 * width * height <= usize::MAX,
        ensures
            c.wf(),
            c.width == width,
            c.height == height,
            c.data@ == filled_spec(width as int, height as int, color),
    {
        assert(0 <= width as int * height as int) by (nonlinear_arith);
        assert(3 * width * height == 3 * (width as int * height as int)) by (nonlinear_arith);
        let n: usize = width as usize * height as usize;
        let mut data: Vec<u8> = Vec::new();
        let mut p: usize = 0;
        while p < n
            invariant
                0 <= p <= n,
                n == width * height,
                3 * n <= usize::MAX,
                data@.len() == 3 * p,
                forall|i: int| 0 <= i < 3 * p ==> #[trigger] data@[i] == color[i % 3],
            decreases n - p,
        {
            data.push(color[0]);
            data.push(color[1]);
            data.push(color[2]);
            proof {
                assert forall|i: int| 0 <= i < 3 * (p + 1) implies #[trigger] data@[i] == color[i % 3] by {
                    if i >= 3 * p {
                        lemma_fundamental_div_mod_converse(i, 3, p as int, i - 3 * p);
                    }
                }
            }
            p = p + 1;
        }
        let c = Canvas { width, height, data };
        assert(c.data@ =~= filled_spec(width as int, height as int, color));
        c
    }

    /// Sets pixel `(x, y)` to `color`; every other byte stays.
    pub fn put_pixel(&mut self, x: u32, y: u32, color: [u8; 3])
        requires
            old(self).wf(),
            x < old(self).width,
            y < old(self).height,
        ensures
            final(self).wf(),
            final(self).width == old(self).width,
            final(self).height == old(self).height,
            final(self).data@ == old(self).data@.update(enc(old(self).width as int, x as int, y as int), color[0])
                .update(enc(old(self).width as int, x as int, y as int) + 1, color[1])
                .update(enc(old(self).width as int, x as int, y as int) + 2, color[2]),
    {
        proof {
            lemma_encode(self.width as int, self.height as int, x as int, y as int, 2);
        }
        let base: usize = 3 * (y as usize * self.width as usize + x as usize);
        self.data.set(base, color[0]);
        self.data.set(base + 1, color[1]);
        self.data.set(base + 2, color[2]);
    }

    /// Copies the `w` x `h` rectangle of `src` at `(sx, sy)` onto this image at `(dx, dy)`.
    pub fn blit(&mut self, src: &Canvas, dx: u32, dy: u32, sx: u32, sy: u32, w: u32, h: u32)
        requires
            old(self).wf(),
            src.wf(),
            dx + w <= old(self).width,
            dy + h <= old(self).height,
            sx + w <= src.width,
            sy + h <= src.height,
        ensures
            final(self).wf(),
            final(self).width == old(self).width,
            final(self).height == old(self).height,
            final(self).data@ == blit_spec(
                old(self).data@,
                old(self).width as int,
                src.data@,
                src.width as int,
                dx as int,
                dy as int,
                sx as int,
                sy as int,
                w as int,
                h as int,
            ),
    {
        let ghost old_data = self.data@;
        let ghost dw = self.width as int;
        let ghost dh = self.height as int;
        let ghost sw = src.width as int;
        let ghost shh = src.height as int;
        let ghost target = blit_spec(old_data, dw, src.data@, sw, dx as int, dy as int, sx as int, sy as int, w as int, h as int);
        if w == 0 || h == 0 {
            assert(self.data@ =~= target);
            return;
        }
        let mut r: u32 = 0;
        while r < h
            invariant
                0 <= r <= h,
                self.wf(),
                src.wf(),
                self.width == dw,
                self.height == dh,
                src.width == sw,
                src.height == shh,
                w > 0,
                dx + w <= dw,
                dy + h <= dh,
                sx + w <= sw,
                sy + h <= shh,
                self.data@.len() == old_data.len(),
                old_data.len() == 3 * dw * dh,
                forall|i: int| 0 <= i < old_data.len() ==> #[trigger] self.data@[i] == (
                    if in_rect(dec_x(dw, i), dec_y(dw, i), dx as int, dy as int, w as int, r as int) {
                        src.data@[enc(sw, sx + dec_x(dw, i) - dx, sy + dec_y(dw, i) - dy) + i % 3]
                    } else {
                        old_data[i]
                    }),
            decreases h - r,
        {
            let ghost y = dy + r;
            let ghost srow = sy + r;
            proof {
                lemma_encode(dw, dh, dx as int, y as int, 0);
                lemma_encode(dw, dh, (dx + w - 1) as int, y as int, 2);
                lemma_encode(sw, shh, sx as int, srow as int, 0);
                lemma_encode(sw, shh, (sx + w - 1) as int, srow as int, 2);
                assert(enc(dw, (dx + w - 1) as int, y as int) + 2 == enc(dw, dx as int, y as int) + 3 * w - 1);
                assert(enc(sw, (sx + w - 1) as int, srow as int) + 2 == enc(sw, sx as int, srow as int) + 3 * w - 1);
            }
            let base: usize = 3 * ((dy + r) as usize * self.width as usize + dx as usize);
            let sbase: usize = 3 * ((sy + r) as usize * src.width as usize + sx as usize);
            let n: usize = 3 * w as usize;
            let src_len = src.data.len();
            let ghost before = self.data@;
            let mut j: usize = 0;
            while j < n
                invariant
                    0 <= j <= n,
                    n == 3 * w,
                    base == enc(dw, dx as int, y as int),
                    sbase == enc(sw, sx as int, srow as int),
                    base + n <= old_data.len(),
                    sbase + n <= src.data@.len(),
                    src_len == src.data@.len(),
                    self.wf(),
                    self.width == dw,
                    self.height == dh,
                    self.data@.len() == old_data.len(),
                    forall|i: int| 0 <= i < old_data.len() ==> #[trigger] self.data@[i] == (
                        if base <= i < base + j { src.data@[sbase + (i - base)] } else { before[i] }),
                decreases n - j,
            {
                self.data.set(base + j, src.data[sbase + j]);
                j = j + 1;
            }
            proof {
                assert forall|i: int| 0 <= i < old_data.len() implies #[trigger] self.data@[i] == (
                    if in_rect(dec_x(dw, i), dec_y(dw, i), dx as int, dy as int, w as int, (r + 1) as int) {
                        src.data@[enc(sw, sx + dec_x(dw, i) - dx, sy + dec_y(dw, i) - dy) + i % 3]
                    } else {
                        old_data[i]
                    }) by {
                    lemma_decode(dw, dh, i);
                    if base <= i < base + n {
                        let t = i - base;
                        lemma_row_span(dw, dh, dx as int, y as int, w as int, t);
                        lemma_row_span(sw, shh, sx as int, srow as int, w as int, t);
                    } else if dec_y(dw, i) == y && dx <= dec_x(dw, i) < dx + w {
                        lemma_row_span_back(dw, dh, dx as int, y as int, w as int, i);
                    }
                }
            }
            r = r + 1;
        }
        assert(self.data@ =~= target);
    }

    /// Draws `top` over this image with its corner at `(x, y)`; the part of `top` that falls
    /// outside this image is dropped.
    pub fn overlay(&mut self, top: &Canvas, x: u32, y: u32)
        requires
            old(self).wf(),
            top.wf(),
        ensures
            final(self).wf(),
            final(self).width == old(self).width,
            final(self).height == old(self).height,
            final(self).data@ == overlay_spec(
                old(self).data@,
                old(self).width as int,
                old(self).height as int,
                top.data@,
                top.width as int,
                top.height as int,
                x as int,
                y as int,
            ),
    {
        let w: u32 = if x >= self.width { 0 } else if top.width < self.width - x { top.width } else { self.width - x };
        let h: u32 = if y >= self.height { 0 } else if top.height < self.height - y { top.height } else { self.height - y };
        if w == 0 || h == 0 {
            let ghost target = overlay_spec(self.data@, self.width as int, self.height as int, top.data@, top.width as int, top.height as int, x as int, y as int);
            assert(self.data@ =~= target);
            return;
        }
        self.blit(top, x, y, 0, 0, w, h);
    }

    /// The rectangle of this image at `(x, y)` of size `w` x `h`, cut down to what lies inside
    /// the image.
    pub fn crop(&self, x: u32, y: u32, w: u32, h: u32) -> (c: Canvas)
        requires
            self.wf(),
            3 * self.width * self.height <= usize::MAX,
        ensures
            c.wf(),
            c.width == clip_len(self.width as int, w as int, crop_origin(self.width as int, x as int)),
            c.height == clip_len(self.height as int, h as int, crop_origin(self.height as int, y as int)),
            c.data@ == crop_spec(self.data@, self.width as int, self.height as int, x as int, y as int, w as int, h as int),
    {
        let cx: u32 = if x < self.width { x } else { self.width };
        let cy: u32 = if y < self.height { y } else { self.height };
        let cw: u32 = if w < self.width - cx { w } else { self.width - cx };
        let ch: u32 = if h < self.height - cy { h } else { self.height - cy };
        assert(3 * cw * ch <= 3 * self.width * self.height) by (nonlinear_arith)
            requires cw <= self.width, ch <= self.height;
        assert(0 <= cw as int * ch as int) by (nonlinear_arith);
        let mut c = Canvas::filled(cw, ch, [0u8, 0u8, 0u8]);
        c.blit(self, 0, 0, cx, cy, cw, ch);
        proof {
            let target = crop_spec(self.data@, self.width as int, self.height as int, x as int, y as int, w as int, h as int);
            assert(target.len() == c.data@.len()) by (nonlinear_arith)
                requires target.len() == 3 * cw * ch, c.data@.len() == 3 * cw * ch;
            assert forall|i: int| 0 <= i < c.data@.len() implies #[trigger] c.data@[i] == target[i] by {
                lemma_decode(cw as int, ch as int, i);
            }
            assert(c.data@ =~= target);
        }
        c
    }

    /// Paints every pixel within `bw` pixels of an edge with `color`.
    pub fn draw_border(&mut self, bw: u32, color: [u8; 3])
        requires
            old(self).wf(),
        ensures
            final(self).wf(),
            final(self).width == old(self).width,
            final(self).height == old(self).height,
            final(self).data@ == border_spec(old(self).data@, old(self).width as int, old(self).height as int, bw as int, color),
    {
        let ghost old_data = self.data@;
        let w = self.width;
        let h = self.height;
        let mut b: u32 = 0;
        assert forall|i: int| 0 <= i < old_data.len() implies #[trigger] border_spec(old_data, w as int, h as int, 0, color)[i] == old_data[i] by {
            lemma_decode(w as int, h as int, i);
        }
        assert(self.data@ =~= border_spec(old_data, w as int, h as int, 0, color));
        while b < bw
            invariant
                0 <= b <= bw,
                self.wf(),
                self.width == w,
                self.height == h,
                self.data@ == border_spec(old_data, w as int, h as int, b as int, color),
            decreases bw - b,
        {
            let ghost before = self.data@;
            let x_end: u32 = if w > b { w - b } else { 0 };
            let mut x: u32 = b;
            while x < x_end
                invariant
                    b <= x,
                    x_end <= w,
                    x_end == (if w > b { w - b } else { 0 }),
                    self.wf(),
                    self.width == w,
                    self.height == h,
                    self.data@.len() == before.len(),
                    forall|i: int| 0 <= i < before.len() ==> #[trigger] self.data@[i] == (
                        if Self::top_bottom_painted(w as int, h as int, b as int, x as int, dec_x(w as int, i), dec_y(w as int, i)) {
                            color[i % 3]
                        } else {
                            before[i]
                        }),
                decreases x_end - x,
            {
                let ghost pre = self.data@;
                if b < h {
                    self.put_pixel(x, b, color);
                    proof { Self::lemma_paint_step(pre, self.data@, w as int, h as int, x as int, b as int, color); }
                }
                let ghost mid = self.data@;
                if h > 1 + b {
                    self.put_pixel(x, h - 1 - b, color);
                    proof { Self::lemma_paint_step(mid, self.data@, w as int, h as int, x as int, (h - 1 - b) as int, color); }
                }
                proof {
                    assert forall|i: int| 0 <= i < before.len() implies #[trigger] self.data@[i] == (
                        if Self::top_bottom_painted(w as int, h as int, b as int, (x + 1) as int, dec_x(w as int, i), dec_y(w as int, i)) {
                            color[i % 3]
                        } else {
                            before[i]
                        }) by {
                        assert(self.data@[i] == (if dec_x(w as int, i) == x && ((b < h && dec_y(w as int, i) == b) || (h > 1 + b && dec_y(w as int, i) == h - 1 - b)) { color[i % 3] } else { pre[i] }));
                    }
                }
                x = x + 1;
            }
            let ghost after_rows = self.data@;
            let y_end: u32 = if h > b { h - b } else { 0 };
            let mut y: u32 = b;
            while y < y_end
                invariant
                    b <= y,
                    y_end <= h,
                    y_end == (if h > b { h - b } else { 0 }),
                    self.wf(),
                    self.width == w,
                    self.height == h,
                    self.data@.len() == before.len(),
                    forall|i: int| 0 <= i < before.len() ==> #[trigger] self.data@[i] == (
                        if Self::left_right_painted(w as int, h as int, b as int, y as int, dec_x(w as int, i), dec_y(w as int, i)) {
                            color[i % 3]
                        } else {
                            after_rows[i]
                        }),
                decreases y_end - y,
            {
                let ghost pre = self.data@;
                if b < w {
                    self.put_pixel(b, y, color);
                    proof { Self::lemma_paint_step(pre, self.data@, w as int, h as int, b as int, y as int, color); }
                }
                let ghost mid = self.data@;
                if w > 1 + b {
                    self.put_pixel(w - 1 - b, y, color);
                    proof { Self::lemma_paint_step(mid, self.data@, w as int, h as int, (w - 1 - b) as int, y as int, color); }
                }
                proof {
                    assert forall|i: int| 0 <= i < before.len() implies #[trigger] self.data@[i] == (
                        if Self::left_right_painted(w as int, h as int, b as int, (y + 1) as int, dec_x(w as int, i), dec_y(w as int, i)) {
                            color[i % 3]
                        } else {
                            after_rows[i]
                        }) by {
                        assert(self.data@[i] == (if dec_y(w as int, i) == y && ((b < w && dec_x(w as int, i) == b) || (w > 1 + b && dec_x(w as int, i) == w - 1 - b)) { color[i % 3] } else { pre[i] }));
                    }
                }
                y = y + 1;
            }
            proof {
                assert forall|i: int| 0 <= i < before.len() implies #[trigger] self.data@[i] == border_spec(old_data, w as int, h as int, (b + 1) as int, color)[i] by {
                    lemma_decode(w as int, h as int, i);
                    Self::lemma_ring(w as int, h as int, b as int, dec_x(w as int, i), dec_y(w as int, i));
                }
                assert(self.data@ =~= border_spec(old_data, w as int, h as int, (b + 1) as int, color));
            }
            b = b + 1;
        }
    }

    /// Draws the cutting guides around the cell at `(x, y)` of size `w` x `h`: at each corner
    /// two arms of `len` pixels that run outwards along the cell's edges, clipped to the image.
    pub fn draw_cut_corner_marks(&mut self, x: u32, y: u32, w: u32, h: u32, len: u32)
        requires
            old(self).wf(),
            marks_in_range(old(self).width as int, old(self).height as int, x as int, y as int, w as int, h as int, len as int),
        ensures
            final(self).wf(),
            final(self).width == old(self).width,
            final(self).height == old(self).height,
            final(self).data@ == marks_spec(old(self).data@, old(self).width as int, x as int, y as int, w as int, h as int, len as int, mark_color()),
    {
        let mark = [190u8, 195u8, 205u8];
        let ghost old_data = self.data@;
        let img_w = self.width;
        let img_h = self.height;
        let ghost (xi, yi, wi, hi, li) = (x as int, y as int, w as int, h as int, len as int);
        let ghost cw = img_w as int;
        let ghost chh = img_h as int;
        assert forall|k: int| 0 <= k < old_data.len() implies #[trigger] self.data@[k] == (
            if marks_upto(xi, yi, wi, hi, 0, 0, 0, 0, dec_x(cw, k), dec_y(cw, k)) { mark[k % 3] } else { old_data[k] }) by {}
        let mut i: u32 = 0;
        while i < len
            invariant
                0 <= i <= len,
                self.wf(),
                self.width == img_w,
                self.height == img_h,
                self.data@.len() == old_data.len(),
                marks_in_range(cw, chh, xi, yi, wi, hi, li),
                xi == x, yi == y, wi == w, hi == h, li == len, cw == img_w, chh == img_h,
                mark == mark_color(),
                forall|k: int| 0 <= k < old_data.len() ==> #[trigger] self.data@[k] == (
                    if marks_upto(xi, yi, wi, hi, i as int, 0, 0, 0, dec_x(cw, k), dec_y(cw, k)) { mark[k % 3] } else { old_data[k] }),
            decreases len - i,
        {
            let ghost pre = self.data@;
            if x >= i && y < img_h {
                self.put_pixel(x - i, y, mark);
                proof { Self::lemma_paint_step(pre, self.data@, cw, chh, (x - i) as int, y as int, mark); }
            }
            let ghost mid = self.data@;
            if y >= i && x < img_w {
                self.put_pixel(x, y - i, mark);
                proof { Self::lemma_paint_step(mid, self.data@, cw, chh, x as int, (y - i) as int, mark); }
            }
            proof { Self::lemma_marks_step(old_data, pre, self.data@, cw, chh, mark, xi, yi, wi, hi, i as int, 0, 0, 0, 1); }
            i = i + 1;
        }
        let mut i: u32 = 0;
        while i < len
            invariant
                0 <= i <= len,
                self.wf(),
                self.width == img_w,
                self.height == img_h,
                self.data@.len() == old_data.len(),
                marks_in_range(cw, chh, xi, yi, wi, hi, li),
                xi == x, yi == y, wi == w, hi == h, li == len, cw == img_w, chh == img_h,
                mark == mark_color(),
                forall|k: int| 0 <= k < old_data.len() ==> #[trigger] self.data@[k] == (
                    if marks_upto(xi, yi, wi, hi, li, i as int, 0, 0, dec_x(cw, k), dec_y(cw, k)) { mark[k % 3] } else { old_data[k] }),
            decreases len - i,
        {
            let ghost pre = self.data@;
            if x + w + i < img_w && y < img_h {
                self.put_pixel(x + w + i, y, mark);
                proof { Self::lemma_paint_step(pre, self.data@, cw, chh, (x + w + i) as int, y as int, mark); }
            }
            let ghost mid = self.data@;
            if y >= i && x + w < img_w {
                self.put_pixel(x + w, y - i, mark);
                proof { Self::lemma_paint_step(mid, self.data@, cw, chh, (x + w) as int, (y - i) as int, mark); }
            }
            proof { Self::lemma_marks_step(old_data, pre, self.data@, cw, chh, mark, xi, yi, wi, hi, li, i as int, 0, 0, 2); }
            i = i + 1;
        }
        let mut i: u32 = 0;
        while i < len
            invariant
                0 <= i <= len,
                self.wf(),
                self.width == img_w,
                self.height == img_h,
                self.data@.len() == old_data.len(),
                marks_in_range(cw, chh, xi, yi, wi, hi, li),
                xi == x, yi == y, wi == w, hi == h, li == len, cw == img_w, chh == img_h,
                mark == mark_color(),
                forall|k: int| 0 <= k < old_data.len() ==> #[trigger] self.data@[k] == (
                    if marks_upto(xi, yi, wi, hi, li, li, i as int, 0, dec_x(cw, k), dec_y(cw, k)) { mark[k % 3] } else { old_data[k] }),
            decreases len - i,
        {
            let ghost pre = self.data@;
            if x >= i && y + h < img_h {
                self.put_pixel(x - i, y + h, mark);
                proof { Self::lemma_paint_step(pre, self.data@, cw, chh, (x - i) as int, (y + h) as int, mark); }
            }
            let ghost mid = self.data@;
            if y + h + i < img_h && x < img_w {
                self.put_pixel(x, y + h + i, mark);
                proof { Self::lemma_paint_step(mid, self.data@, cw, chh, x as int, (y + h + i) as int, mark); }
            }
            proof { Self::lemma_marks_step(old_data, pre, self.data@, cw, chh, mark, xi, yi, wi, hi, li, li, i as int, 0, 3); }
            i = i + 1;
        }
        let mut i: u32 = 0;
        while i < len
            invariant
                0 <= i <= len,
                self.wf(),
                self.width == img_w,
                self.height == img_h,
                self.data@.len() == old_data.len(),
                marks_in_range(cw, chh, xi, yi, wi, hi, li),
                xi == x, yi == y, wi == w, hi == h, li == len, cw == img_w, chh == img_h,
                mark == mark_color(),
                forall|k: int| 0 <= k < old_data.len() ==> #[trigger] self.data@[k] == (
                    if marks_upto(xi, yi, wi, hi, li, li, li, i as int, dec_x(cw, k), dec_y(cw, k)) { mark[k % 3] } else { old_data[k] }),
            decreases len - i,
        {
            let ghost pre = self.data@;
            if x + w + i < img_w && y + h < img_h {
                self.put_pixel(x + w + i, y + h, mark);
                proof { Self::lemma_paint_step(pre, self.data@, cw, chh, (x + w + i) as int, (y + h) as int, mark); }
            }
            let ghost mid = self.data@;
            if y + h + i < img_h && x + w < img_w {
                self.put_pixel(x + w, y + h + i, mark);
                proof { Self::lemma_paint_step(mid, self.data@, cw, chh, (x + w) as int, (y + h + i) as int, mark); }
            }
            proof { Self::lemma_marks_step(old_data, pre, self.data@, cw, chh, mark, xi, yi, wi, hi, li, li, li, i as int, 4); }
            i = i + 1;
        }
        assert(self.data@ =~= marks_spec(old_data, cw, xi, yi, wi, hi, li, mark_color()));
    }

    /// One step of a corner pass extends the painted set by the two pixels it paints.
    proof fn lemma_marks_step(
        old_data: Seq<u8>,
        pre: Seq<u8>,
        post: Seq<u8>,
        cw: int,
        ch: int,
        mark: [u8; 3],
        x: int, y: int, w: int, h: int,
        n1: int, n2: int, n3: int, n4: int,
        pass: int,
    )
        requires
            cw >= 0,
            ch >= 0,
            old_data.len() == 3 * cw * ch,
            pre.len() == old_data.len(),
            post.len() == old_data.len(),
            0 <= x, 0 <= y, 0 <= w, 0 <= h, 0 <= n1, 0 <= n2, 0 <= n3, 0 <= n4,
            1 <= pass <= 4,
            forall|k: int| 0 <= k < old_data.len() ==> #[trigger] pre[k] == (
                if marks_upto(x, y, w, h, n1, n2, n3, n4, dec_x(cw, k), dec_y(cw, k)) { mark[k % 3] } else { old_data[k] }),
            forall|k: int| 0 <= k < old_data.len() ==> #[trigger] post[k] == (
                if Self::step_pixels(x, y, w, h, cw, ch, n1, n2, n3, n4, pass, dec_x(cw, k), dec_y(cw, k)) { mark[k % 3] } else { pre[k] }),
        ensures
            forall|k: int| 0 <= k < old_data.len() ==> #[trigger] post[k] == (
                if marks_upto(x, y, w, h,
                    if pass == 1 { n1 + 1 } else { n1 },
                    if pass == 2 { n2 + 1 } else { n2 },
                    if pass == 3 { n3 + 1 } else { n3 },
                    if pass == 4 { n4 + 1 } else { n4 },
                    dec_x(cw, k), dec_y(cw, k)) { mark[k % 3] } else { old_data[k] }),
    {
        assert forall|k: int| 0 <= k < old_data.len() implies #[trigger] post[k] == (
            if marks_upto(x, y, w, h,
                if pass == 1 { n1 + 1 } else { n1 },
                if pass == 2 { n2 + 1 } else { n2 },
                if pass == 3 { n3 + 1 } else { n3 },
                if pass == 4 { n4 + 1 } else { n4 },
                dec_x(cw, k), dec_y(cw, k)) { mark[k % 3] } else { old_data[k] }) by {
            lemma_decode(cw, ch, k);
            assert(pre[k] == (if marks_upto(x, y, w, h, n1, n2, n3, n4, dec_x(cw, k), dec_y(cw, k)) { mark[k % 3] } else { old_data[k] }));
        }
    }

    /// The pixels that step `n` of corner pass `pass` paints (`n` being that pass's count so far).
    pub open spec fn step_pixels(x: int, y: int, w: int, h: int, cw: int, ch: int, n1: int, n2: int, n3: int, n4: int, pass: int, px: int, py: int) -> bool {
        if pass == 1 {
            ||| (x >= n1 && y < ch && px == x - n1 && py == y)
            ||| (y >= n1 && x < cw && px == x && py == y - n1)
        } else if pass == 2 {
            ||| (x + w + n2 < cw && y < ch && px == x + w + n2 && py == y)
            ||| (y >= n2 && x + w < cw && px == x + w && py == y - n2)
        } else if pass == 3 {
            ||| (x >= n3 && y + h < ch && px == x - n3 && py == y + h)
            ||| (y + h + n3 < ch && x < cw && px == x && py == y + h + n3)
        } else {
            ||| (x + w + n4 < cw && y + h < ch && px == x + w + n4 && py == y + h)
            ||| (y + h + n4 < ch && x + w < cw && px == x + w && py == y + h + n4)
        }
    }

    /// Pixels painted by the first `x - b` steps of the row pass of border ring `b`.
    pub open spec fn top_bottom_painted(w: int, h: int, b: int, x: int, px: int, py: int) -> bool {
        &&& b <= px < x
        &&& ((b < h && py == b) || (h > 1 + b && py == h - 1 - b))
    }

    /// Pixels painted by the first `y - b` steps of the column pass of border ring `b`.
    pub open spec fn left_right_painted(w: int, h: int, b: int, y: int, px: int, py: int) -> bool {
        &&& b <= py < y
        &&& ((b < w && px == b) || (w > 1 + b && px == w - 1 - b))
    }

    /// Ring `b` of the border is exactly what the row and column passes paint.
    proof fn lemma_ring(w: int, h: int, b: int, px: int, py: int)
        requires
            0 <= b,
            0 <= px < w,
            0 <= py < h,
        ensures
            (edge_distance(w, h, px, py) < b + 1) == (edge_distance(w, h, px, py) < b
                || Self::top_bottom_painted(w, h, b, if w > b { w - b } else { 0 }, px, py)
                || Self::left_right_painted(w, h, b, if h > b { h - b } else { 0 }, px, py)),
    {
    }

    /// Painting pixel `(x, y)` changes exactly its three bytes.
    proof fn lemma_paint_step(pre: Seq<u8>, post: Seq<u8>, w: int, h: int, x: int, y: int, color: [u8; 3])
        requires
            0 <= x < w,
            0 <= y < h,
            pre.len() == 3 * w * h,
            post == pre.update(enc(w, x, y), color[0]).update(enc(w, x, y) + 1, color[1]).update(enc(w, x, y) + 2, color[2]),
        ensures
            post.len() == pre.len(),
            forall|i: int| 0 <= i < pre.len() ==> #[trigger] post[i] == (
                if dec_x(w, i) == x && dec_y(w, i) == y { color[i % 3] } else { pre[i] }),
    {
        lemma_encode(w, h, x, y, 0);
        lemma_encode(w, h, x, y, 1);
        lemma_encode(w, h, x, y, 2);
        assert forall|i: int| 0 <= i < pre.len() implies #[trigger] post[i] == (
            if dec_x(w, i) == x && dec_y(w, i) == y { color[i % 3] } else { pre[i] }) by {
            lemma_decode(w, h, i);
        }
    }
}

impl Canvas {
    /// The image turned a quarter turn clockwise.
    pub fn rotate90(&self) -> (r: Canvas)
        requires
            self.wf(),
            3 * self.width * self.height <= usize::MAX,
        ensures
            r.wf(),
            r.width == self.height,
            r.height == self.width,
            r.data@ == rotated_spec(self.data@, self.width as int, self.height as int),
    {
        let w = self.width;
        let h = self.height;
        let ghost target = rotated_spec(self.data@, w as int, h as int);
        let mut out: Vec<u8> = Vec::new();
        let mut y: u32 = 0;
        while y < w
            invariant
                0 <= y <= w,
                w == self.width,
                h == self.height,
                self.wf(),
                3 * w * h <= usize::MAX,
                target == rotated_spec(self.data@, w as int, h as int),
                out@.len() == 3 * (y * h),
                forall|i: int| 0 <= i < out@.len() ==> #[trigger] out@[i] == target[i],
            decreases w - y,
        {
            let mut x: u32 = 0;
            while x < h
                invariant
                    0 <= x <= h,
                    y < w,
                    w == self.width,
                    h == self.height,
                    self.wf(),
                    3 * w * h <= usize::MAX,
                    target == rotated_spec(self.data@, w as int, h as int),
                    out@.len() == 3 * (y * h + x),
                    forall|i: int| 0 <= i < out@.len() ==> #[trigger] out@[i] == target[i],
                decreases h - x,
            {
                let ghost sy = (h - 1 - x) as int;
                proof {
                    lemma_encode(w as int, h as int, y as int, sy, 2);
                    assert(0 <= sy * w + y) by (nonlinear_arith)
                        requires 0 <= sy, 0 <= y, w >= 0;
                    assert(3 * w * h == 3 * (w * h)) by (nonlinear_arith);
                    assert(y * h + x < w * h) by (nonlinear_arith)
                        requires y < w, x < h;
                    assert(target.len() == 3 * (w * h));
                    lemma_encode(h as int, w as int, x as int, y as int, 0);
                    lemma_encode(h as int, w as int, x as int, y as int, 1);
                    lemma_encode(h as int, w as int, x as int, y as int, 2);
                }
                let base: usize = 3 * ((h - 1 - x) as usize * w as usize + y as usize);
                let ghost before = out@;
                out.push(self.data[base]);
                out.push(self.data[base + 1]);
                out.push(self.data[base + 2]);
                proof {
                    assert forall|i: int| 0 <= i < out@.len() implies #[trigger] out@[i] == target[i] by {
                        if i >= before.len() {
                            let k = i - before.len();
                            assert(i == enc(h as int, x as int, y as int) + k);
                        }
                    }
                }
                x = x + 1;
            }
            assert(3 * (y * h + h) == 3 * ((y + 1) * h)) by (nonlinear_arith);
            y = y + 1;
        }
        assert(out@.len() == 3 * w * h && out@.len() == 3 * h * w) by (nonlinear_arith)
            requires out@.len() == 3 * (w * h);
        assert(out@ =~= target);
        Canvas { width: h, height: w, data: out }
    }

    /// The image mirrored left to right.
    pub fn flip_horizontal(&self) -> (r: Canvas)
        requires
            self.wf(),
            3 * self.width * self.height <= usize::MAX,
        ensures
            r.wf(),
            r.width == self.width,
            r.height == self.height,
            r.data@ == mirrored_spec(self.data@, self.width as int, self.height as int),
    {
        let w = self.width;
        let h = self.height;
        let ghost target = mirrored_spec(self.data@, w as int, h as int);
        let mut out: Vec<u8> = Vec::new();
        let mut y: u32 = 0;
        while y < h
            invariant
                0 <= y <= h,
                w == self.width,
                h == self.height,
                self.wf(),
                3 * w * h <= usize::MAX,
                target == mirrored_spec(self.data@, w as int, h as int),
                out@.len() == 3 * (y * w),
                forall|i: int| 0 <= i < out@.len() ==> #[trigger] out@[i] == target[i],
            decreases h - y,
        {
            let mut x: u32 = 0;
            while x < w
                invariant
                    0 <= x <= w,
                    y < h,
                    w == self.width,
                    h == self.height,
                    self.wf(),
                    3 * w * h <= usize::MAX,
                    target == mirrored_spec(self.data@, w as int, h as int),
                    out@.len() == 3 * (y * w + x),
                    forall|i: int| 0 <= i < out@.len() ==> #[trigger] out@[i] == target[i],
                decreases w - x,
            {
                let ghost sx = (w - 1 - x) as int;
                proof {
                    lemma_encode(w as int, h as int, sx, y as int, 2);
                    assert(3 * w * h == 3 * (w * h)) by (nonlinear_arith);
                    assert(y * w + x < w * h) by (nonlinear_arith)
                        requires y < h, x < w;
                    assert(target.len() == 3 * (w * h));
                    lemma_encode(w as int, h as int, x as int, y as int, 0);
                    lemma_encode(w as int, h as int, x as int, y as int, 1);
                    lemma_encode(w as int, h as int, x as int, y as int, 2);
                }
                let base: usize = 3 * (y as usize * w as usize + (w - 1 - x) as usize);
                let ghost before = out@;
                out.push(self.data[base]);
                out.push(self.data[base + 1]);
                out.push(self.data[base + 2]);
                proof {
                    assert forall|i: int| 0 <= i < out@.len() implies #[trigger] out@[i] == target[i] by {
                        if i >= before.len() {
                            let k = i - before.len();
                            assert(i == enc(w as int, x as int, y as int) + k);
                        }
                    }
                }
                x = x + 1;
            }
            assert(3 * (y * w + w) == 3 * ((y + 1) * w)) by (nonlinear_arith);
            y = y + 1;
        }
        assert(out@.len() == 3 * w * h) by (nonlinear_arith)
            requires out@.len() == 3 * (h * w);
        assert(out@ =~= target);
        Canvas { width: w, height: h, data: out }
    }
}

/// A quarter turn is clockwise: pixel `(x, y)` of the turned image (`h` pixels wide) is pixel
/// `(y, h - 1 - x)` of the source, so the source's top row becomes the right-hand column, read
/// from the top, and its bottom-left pixel becomes the top-left one.
pub proof fn lemma_quarter_turn_clockwise(src: Seq<u8>, w: int, h: int, x: int, y: int, k: int)
    requires
        0 <= x < h,
        0 <= y < w,
        0 <= k < 3,
    ensures
        0 <= enc(h, x, y) + k < rotated_spec(src, w, h).len(),
        rotated_spec(src, w, h)[enc(h, x, y) + k] == src[enc(w, y, h - 1 - x) + k],
{
    lemma_encode(h, w, x, y, k);
    assert(3 * h * w == 3 * w * h) by (nonlinear_arith);
}

/// Turning a photo a quarter turn four times gives it back.
pub proof fn lemma_four_quarter_turns(src: Seq<u8>, w: int, h: int)
    requires
        w >= 0,
        h >= 0,
        src.len() == 3 * w * h,
    ensures
        rotated_spec(rotated_spec(rotated_spec(rotated_spec(src, w, h), h, w), w, h), h, w) == src,
{
    let r1 = rotated_spec(src, w, h);
    let r2 = rotated_spec(r1, h, w);
    let r3 = rotated_spec(r2, w, h);
    let r4 = rotated_spec(r3, h, w);
    assert(3 * h * w == 3 * w * h) by (nonlinear_arith);
    assert forall|i: int| 0 <= i < src.len() implies #[trigger] r4[i] == src[i] by {
        lemma_decode(w, h, i);
        let x = dec_x(w, i);
        let y = dec_y(w, i);
        let k = i % 3;
        lemma_quarter_turn_clockwise(r3, h, w, x, y, k);
        lemma_quarter_turn_clockwise(r2, w, h, y, w - 1 - x, k);
        lemma_quarter_turn_clockwise(r1, h, w, w - 1 - x, h - 1 - y, k);
        lemma_quarter_turn_clockwise(src, w, h, h - 1 - y, x, k);
    }
    assert(r4 =~= src);
}

/// Mirroring a photo twice gives it back.
pub proof fn lemma_mirror_twice(src: Seq<u8>, w: int, h: int)
    requires
        w >= 0,
        h >= 0,
        src.len() == 3 * w * h,
    ensures
        mirrored_spec(mirrored_spec(src, w, h), w, h) == src,
{
    let m1 = mirrored_spec(src, w, h);
    let m2 = mirrored_spec(m1, w, h);
    assert forall|i: int| 0 <= i < src.len() implies #[trigger] m2[i] == src[i] by {
        lemma_decode(w, h, i);
        let x = dec_x(w, i);
        let y = dec_y(w, i);
        let k = i % 3;
        lemma_encode(w, h, w - 1 - x, y, k);
    }
    assert(m2 =~= src);
}

/// Mirroring is left to right: pixel `(x, y)` of the mirrored image is pixel `(w - 1 - x, y)`
/// of the source, on the same row.
pub proof fn lemma_mirror_left_right(src: Seq<u8>, w: int, h: int, x: int, y: int, k: int)
    requires
        0 <= x < w,
        0 <= y < h,
        0 <= k < 3,
    ensures
        0 <= enc(w, x, y) + k < mirrored_spec(src, w, h).len(),
        mirrored_spec(src, w, h)[enc(w, x, y) + k] == src[enc(w, w - 1 - x, y) + k],
{
    lemma_encode(w, h, x, y, k);
}

/// A border of width `bw` paints exactly the pixels less than `bw` pixels from the left, top,
/// right or bottom edge with `color`, and leaves every other pixel as it was.
pub proof fn lemma_border_band(data: Seq<u8>, w: int, h: int, bw: int, color: [u8; 3], x: int, y: int, k: int)
    requires
        data.len() == 3 * w * h,
        0 <= x < w,
        0 <= y < h,
        0 <= k < 3,
    ensures
        0 <= enc(w, x, y) + k < border_spec(data, w, h, bw, color).len(),
        border_spec(data, w, h, bw, color)[enc(w, x, y) + k] == (if x < bw || y < bw || w - 1 - x < bw || h - 1 - y < bw {
            color[k]
        } else {
            data[enc(w, x, y) + k]
        }),
{
    lemma_encode(w, h, x, y, k);
}

/// The cutting guides of a cell are L-shaped corner marks drawn outside it: every guide pixel
/// lies on the line of one of the cell's edges, within `len` pixels of one of its corners and
/// never inside the cell; at each corner both arms run outwards for exactly `len` pixels.
pub proof fn lemma_guides_at_corners(x: int, y: int, w: int, h: int, len: int, px: int, py: int)
    requires
        w >= 1,
        h >= 1,
        len >= 1,
    ensures
        corner_marks(x, y, w, h, len, px, py) ==> {
            &&& (px == x || px == x + w || py == y || py == y + h)
            &&& (x - len < px <= x || x + w <= px < x + w + len)
            &&& (y - len < py <= y || y + h <= py < y + h + len)
        },
        forall|i: int| 0 <= i < len ==> {
            &&& #[trigger] corner_marks(x, y, w, h, len, x - i, y) && corner_marks(x, y, w, h, len, x, y - i)
            &&& corner_marks(x, y, w, h, len, x + w + i, y) && corner_marks(x, y, w, h, len, x + w, y - i)
            &&& corner_marks(x, y, w, h, len, x - i, y + h) && corner_marks(x, y, w, h, len, x, y + h + i)
            &&& corner_marks(x, y, w, h, len, x + w + i, y + h) && corner_marks(x, y, w, h, len, x + w, y + h + i)
        },
        !corner_marks(x, y, w, h, len, x - len, y),
        !corner_marks(x, y, w, h, len, x, y - len),
        !corner_marks(x, y, w, h, len, x + w + len, y + h),
        !corner_marks(x, y, w, h, len, x + w, y + h + len),
{
}

} // verus!
