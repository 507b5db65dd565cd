//! Integer-ratio box-filter downsampling of RGBA frames to a pixel budget.

use vstd::prelude::*;
use std::sync::Arc;
use vstd::slice::slice_to_vec;

verus! {

/// The pixel budget: a 1920×1080 frame.
pub const MAX_PIXELS: usize = 1920 * 1080;

/// The largest scale the search goes up to.
pub const MAX_SEARCH_SCALE: usize = 16;

/// A captured RGBA frame: four bytes per pixel, rows top to bottom.
#[derive(Debug)]
pub struct Frame {
    pub width: u32,
    pub height: u32,
    pub raw: Vec<u8>,
}

impl Frame {
    pub open spec fn wf(&self) -> bool {
        self.raw@.len() == self.width * self.height * 4
    }
}

/// A frame after downsampling, with the integer factor applied to each side.
#[derive(Debug)]
pub struct DownsampledFrame {
    pub frame: Arc<Frame>,
    pub scale: u32,
}

/// Whether `s` is the least integer whose square is at least `r`.
pub open spec fn is_ceil_sqrt(s: int, r: int) -> bool {
    &&& s >= 0
    &&& s * s >= r
    &&& s == 0 || (s - 1) * (s - 1) < r
}

/// The least integer whose square is at least `r`.
pub open spec fn ceil_sqrt(r: int) -> int {
    choose|s: int| is_ceil_sqrt(s, r)
}

/// The first scale from `s` up that brings the frame within budget, stopping
/// at `MAX_SEARCH_SCALE`.
pub open spec fn scale_from(w: int, h: int, s: int) -> int
    recommends
        s >= 1,
    decreases MAX_SEARCH_SCALE - s,
{
    if s >= MAX_SEARCH_SCALE || (w / s) * (h / s) <= MAX_PIXELS {
        s
    } else {
        scale_from(w, h, s + 1)
    }
}

/// The scale chosen for a `w`×`h` frame before the empty-result check: 1 within
/// budget; otherwise the search starts at `max(2, ceil(sqrt(ceil(w*h / MAX_PIXELS))))`.
pub open spec fn chosen_scale(w: int, h: int) -> int {
    if w * h <= MAX_PIXELS {
        1
    } else {
        let ratio = (w * h + MAX_PIXELS - 1) / (MAX_PIXELS as int);
        let start = if ceil_sqrt(ratio) > 2 {
            ceil_sqrt(ratio)
        } else {
            2
        };
        scale_from(w, h, start)
    }
}

/// The scale actually applied: the chosen one, unless it leaves a side empty.
pub open spec fn applied_scale(w: int, h: int) -> int {
    let s = chosen_scale(w, h);
    if s <= 1 || w / s == 0 || h / s == 0 {
        1
    } else {
        s
    }
}

/// The sum of channel `c` over `k` consecutive pixels starting at byte `base`.
pub open spec fn row_sum(src: Seq<u8>, base: int, c: int, k: int) -> int
    decreases k,
{
    if k <= 0 {
        0
    } else {
        row_sum(src, base, c, k - 1) + src[base + 4 * (k - 1) + c]
    }
}

/// The sum of channel `c` over the first `rows` rows of the `s`×`s` block whose
/// top-left pixel is (`sx0`, `sy0`) in a frame `w` pixels wide.
pub open spec fn block_sum(src: Seq<u8>, w: int, sx0: int, sy0: int, s: int, c: int, rows: int) -> int
    decreases rows,
{
    if rows <= 0 {
        0
    } else {
        block_sum(src, w, sx0, sy0, s, c, rows - 1) + row_sum(
            src,
            ((sy0 + rows - 1) * w + sx0) * 4,
            c,
            s,
        )
    }
}

/// Channel `c` of destination pixel (`x`, `y`): the mean of its `s`×`s` source block.
pub open spec fn block_mean(src: Seq<u8>, w: int, s: int, x: int, y: int, c: int) -> int {
    block_sum(src, w, x * s, y * s, s, c, s) / (s * s)
}

/// Whether `out` is the `dw`×`dh` RGBA image of block means of `src` at scale `s`.
pub open spec fn is_box_filtered(out: Seq<u8>, src: Seq<u8>, w: int, s: int, dw: int, dh: int) -> bool {
    &&& out.len() == dw * dh * 4
    &&& forall|x: int, y: int, c: int|
        0 <= x < dw && 0 <= y < dh && 0 <= c < 4 ==> #[trigger] out[(y * dw + x) * 4 + c]
            == block_mean(src, w, s, x, y, c)
}

proof fn lemma_ceil_sqrt_unique(s: int, r: int)
    requires
        is_ceil_sqrt(s, r),
        r >= 1,
    ensures
        ceil_sqrt(r) == s,
{
    assert(is_ceil_sqrt(ceil_sqrt(r), r));
    let t = ceil_sqrt(r);
    if t < s {
        assert(t <= s - 1);
        assert(t * t <= (s - 1) * (s - 1)) by (nonlinear_arith)
            requires
                0 <= t <= s - 1,
        ;
    } else if t > s {
        assert(s <= t - 1);
        assert(s * s <= (t - 1) * (t - 1)) by (nonlinear_arith)
            requires
                0 <= s <= t - 1,
        ;
    }
}

proof fn lemma_square_below(s: int, r: int, q: int)
    requires
        s >= 1,
        r >= 1,
        q == (r - 1) / s,
    ensures
        (s * s < r) == (s <= q),
{
    assert(q * s <= r - 1 && r - 1 < (q + 1) * s) by (nonlinear_arith)
        requires
            s >= 1,
            r >= 1,
            q == (r - 1) / s,
    ;
    if s <= q {
        assert(s * s <= q * s) by (nonlinear_arith)
            requires
                s <= q,
                s >= 1,
        ;
    } else {
        assert(s * s >= (q + 1) * s) by (nonlinear_arith)
            requires
                s >= q + 1,
                s >= 1,
        ;
    }
}

fn int_ceil_sqrt(r: usize) -> (s: usize)
    requires
        r >= 1,
    ensures
        is_ceil_sqrt(s as int, r as int),
        s <= r,
{
    let mut s: usize = 1;
    loop
        invariant
            1 <= s <= r,
            (s - 1) * (s - 1) < r,
        decreases r - s,
    {
        let q = (r - 1) / s;
        proof {
            lemma_square_below(s as int, r as int, q as int);
        }
        if s > q {
            return s;
        }
        assert(s < r) by (nonlinear_arith)
            requires
                s * s < r,
                s >= 1,
        ;
        s = s + 1;
    }
}

proof fn lemma_row_sum_bound(src: Seq<u8>, base: int, c: int, k: int)
    requires
        k >= 0,
    ensures
        0 <= row_sum(src, base, c, k) <= 255 * k,
    decreases k,
{
    if k > 0 {
        lemma_row_sum_bound(src, base, c, k - 1);
    }
}

proof fn lemma_block_sum_bound(src: Seq<u8>, w: int, sx0: int, sy0: int, s: int, c: int, rows: int)
    requires
        rows >= 0,
        s >= 0,
    ensures
        0 <= block_sum(src, w, sx0, sy0, s, c, rows) <= 255 * s * rows,
    decreases rows,
{
    if rows > 0 {
        lemma_block_sum_bound(src, w, sx0, sy0, s, c, rows - 1);
        lemma_row_sum_bound(src, ((sy0 + rows - 1) * w + sx0) * 4, c, s);
        assert(255 * s * (rows - 1) + 255 * s == 255 * s * rows) by (nonlinear_arith);
    }
}

/// The byte read for channel `c` of pixel (`sx0 + kx`, `sy0 + ky`) lies inside the frame.
proof fn lemma_source_index(w: int, h: int, s: int, x: int, y: int, ky: int, kx: int, c: int)
    requires
        w >= 0,
        h >= 0,
        s >= 1,
        0 <= x < w / s,
        0 <= y < h / s,
        0 <= ky < s,
        0 <= kx < s,
        0 <= c < 4,
    ensures
        0 <= ((y * s + ky) * w + x * s) * 4 + 4 * kx + c < w * h * 4,
        0 <= (y * s + ky) < h,
        0 <= y * s,
        0 <= x * s,
        x * s + kx < w,
        (y * s + ky) * w <= ((y * s + ky) * w + x * s) * 4,
        ((y * s + ky) * w + x * s) <= ((y * s + ky) * w + x * s) * 4,
        4 * kx + c <= ((y * s + ky) * w + x * s) * 4 + 4 * kx + c,
{
    let dw = w / s;
    let dh = h / s;
    assert(dw * s <= w && dh * s <= h) by (nonlinear_arith)
        requires
            s >= 1,
            dw == w / s,
            dh == h / s,
            w >= 0,
            h >= 0,
    ;
    assert(y * s + ky <= dh * s - 1) by (nonlinear_arith)
        requires
            y <= dh - 1,
            ky <= s - 1,
            s >= 1,
    ;
    assert(x * s + kx <= dw * s - 1) by (nonlinear_arith)
        requires
            x <= dw - 1,
            kx <= s - 1,
            s >= 1,
    ;
    let yy = y * s + ky;
    let xx = x * s + kx;
    assert(0 <= yy && 0 <= xx) by (nonlinear_arith)
        requires
            y >= 0,
            x >= 0,
            s >= 1,
            ky >= 0,
            kx >= 0,
            yy == y * s + ky,
            xx == x * s + kx,
    ;
    assert(0 <= (yy * w + xx) * 4 + c < w * h * 4) by (nonlinear_arith)
        requires
            0 <= yy <= h - 1,
            0 <= xx <= w - 1,
            0 <= c < 4,
    ;
    assert(((yy * w + x * s) * 4 + 4 * kx + c) == (yy * w + xx) * 4 + c) by (nonlinear_arith)
        requires
            xx == x * s + kx,
    ;
    assert(0 <= x * s && 0 <= y * s) by (nonlinear_arith)
        requires
            x >= 0,
            y >= 0,
            s >= 1,
    ;
    assert(yy * w <= (yy * w + x * s) * 4) by (nonlinear_arith)
        requires
            yy >= 0,
            w >= 0,
            x * s >= 0,
    ;
}

fn block_channel_sum(src: &Vec<u8>, w: usize, h: usize, s: usize, x: usize, y: usize, c: usize) -> (r: u128)
    requires
        src@.len() == w * h * 4,
        s >= 1,
        x < w / s,
        y < h / s,
        c < 4,
    ensures
        r == block_sum(src@, w as int, x * s, y * s, s as int, c as int, s as int),
{
    let n = src.len();
    let mut acc: u128 = 0;
    let mut ky: usize = 0;
    proof {
        assert(x * s < w && y * s < h) by {
            lemma_source_index(w as int, h as int, s as int, x as int, y as int, 0, 0, 0);
        }
    }
    while ky < s
        invariant
            src@.len() == w * h * 4,
            n == src@.len(),
            s >= 1,
            x < w / s,
            y < h / s,
            c < 4,
            ky <= s,
            acc == block_sum(src@, w as int, x * s, y * s, s as int, c as int, ky as int),
            acc <= 255 * s * ky,
        decreases s - ky,
    {
        proof {
            lemma_source_index(w as int, h as int, s as int, x as int, y as int, ky as int, 0, c as int);
        }
        let start: usize = ((y * s + ky) * w + x * s) * 4;
        let mut row: u128 = 0;
        let mut kx: usize = 0;
        while kx < s
            invariant
                src@.len() == w * h * 4,
                n == src@.len(),
                s >= 1,
                x < w / s,
                y < h / s,
                ky < s,
                c < 4,
                kx <= s,
                start == ((y * s + ky) * w + x * s) * 4,
                row == row_sum(src@, start as int, c as int, kx as int),
                row <= 255 * kx,
            decreases s - kx,
        {
            proof {
                lemma_source_index(w as int, h as int, s as int, x as int, y as int, ky as int, kx as int, c as int);
            }
            row = row + src[start + 4 * kx + c] as u128;
            kx = kx + 1;
        }
        proof {
            assert(255 * s * ky + 255 * s == 255 * s * (ky + 1)) by (nonlinear_arith);
            assert(255 * s * (ky + 1) <= 255 * s * s) by (nonlinear_arith)
                requires
                    ky + 1 <= s,
            ;
            assert(s <= w && s <= h) by (nonlinear_arith)
                requires
                    s >= 1,
                    x < w / s,
                    y < h / s,
            ;
            assert(s * s <= w * h) by (nonlinear_arith)
                requires
                    s <= w,
                    s <= h,
            ;
        }
        proof {
            assert(n as int <= 0xffff_ffff_ffff_ffff);
            assert(255 * (w * h) <= 255 * 0xffff_ffff_ffff_ffffnat) by (nonlinear_arith)
                requires
                    w * h * 4 == n,
                    n <= 0xffff_ffff_ffff_ffffnat,
            ;
            assert(255 * s * s <= 255 * (w * h)) by (nonlinear_arith)
                requires
                    s * s <= w * h,
            ;
        }
        acc = acc + row;
        ky = ky + 1;
    }
    acc
}

proof fn lemma_mean_fits(sum: int, s: int)
    requires
        s >= 1,
        0 <= sum <= 255 * s * s,
    ensures
        0 <= sum / (s * s) <= 255,
        s * s >= 1,
{
    assert(s * s >= 1) by (nonlinear_arith)
        requires
            s >= 1,
    ;
    assert(255 * s * s == 255 * (s * s)) by (nonlinear_arith);
    assert(sum / (s * s) <= 255) by (nonlinear_arith)
        requires
            s * s >= 1,
            0 <= sum <= 255 * (s * s),
    ;
    assert(sum / (s * s) >= 0) by (nonlinear_arith)
        requires
            s * s >= 1,
            0 <= sum,
    ;
}

proof fn lemma_ceil_sqrt_from(s: int, r: int)
    requires
        1 <= s <= r,
        (s - 1) * (s - 1) < r,
    ensures
        is_ceil_sqrt(ceil_sqrt(r), r),
    decreases r - s,
{
    if s * s >= r {
        assert(is_ceil_sqrt(s, r));
    } else {
        assert(s < r) by (nonlinear_arith)
            requires
                s * s < r,
                s >= 1,
        ;
        lemma_ceil_sqrt_from(s + 1, r);
    }
}

proof fn lemma_scale_from_ge(w: int, h: int, s: int)
    requires
        s >= 1,
    ensures
        scale_from(w, h, s) >= s,
    decreases MAX_SEARCH_SCALE - s,
{
    if !(s >= MAX_SEARCH_SCALE || (w / s) * (h / s) <= MAX_PIXELS) {
        lemma_scale_from_ge(w, h, s + 1);
    }
}

/// Identity within budget: a frame of at most `MAX_PIXELS` pixels is left at scale 1,
/// which `Downsampler::downsample` returns unchanged.
pub proof fn lemma_within_budget_unchanged(w: int, h: int)
    requires
        0 <= w,
        0 <= h,
        w * h <= MAX_PIXELS,
    ensures
        applied_scale(w, h) == 1,
{
}

/// Budget bound: the applied scale either leaves a frame within budget at
/// scale 1, or brings the destination within `MAX_PIXELS`; the frames left out
/// are those over budget where the chosen scale would leave a side empty.
pub proof fn lemma_downsample_bound(w: int, h: int)
    requires
        0 <= w,
        0 <= h,
        w * h <= MAX_PIXELS || (chosen_scale(w, h) <= w && chosen_scale(w, h) <= h),
    ensures
        ({
            let s = applied_scale(w, h);
            (s == 1 && w * h <= MAX_PIXELS) || (s > 1 && (w / s) * (h / s) <= MAX_PIXELS)
        }),
{
    if w * h > MAX_PIXELS {
        let m = MAX_PIXELS as int;
        let ratio = (w * h + m - 1) / m;
        assert(ratio * m >= w * h) by (nonlinear_arith)
            requires
                ratio == (w * h + m - 1) / m,
                m > 0,
                w * h >= 0,
        ;
        assert(ratio >= 1) by (nonlinear_arith)
            requires
                ratio == (w * h + m - 1) / m,
                m > 0,
                w * h > m,
        ;
        let r = ceil_sqrt(ratio);
        lemma_ceil_sqrt_from(1, ratio);
        let start = if r > 2 { r } else { 2 };
        let s = chosen_scale(w, h);
        lemma_scale_from_ge(w, h, start);
        assert(s * s >= r * r) by (nonlinear_arith)
            requires
                s >= r,
                r >= 0,
        ;
        let dw = w / s;
        let dh = h / s;
        assert(dw * s <= w && dh * s <= h && dw >= 1 && dh >= 1) by (nonlinear_arith)
            requires
                s >= 1,
                dw == w / s,
                dh == h / s,
                s <= w,
                s <= h,
        ;
        assert((dw * dh) * (s * s) <= w * h) by (nonlinear_arith)
            requires
                dw * s <= w,
                dh * s <= h,
                dw >= 0,
                dh >= 0,
                s >= 0,
        ;
        assert(dw * dh <= m) by (nonlinear_arith)
            requires
                (dw * dh) * (s * s) <= w * h,
                w * h <= ratio * m,
                ratio <= s * s,
                s >= 1,
                m > 0,
                dw * dh >= 0,
        ;
    }
}

fn mean_byte(src: &Vec<u8>, w: usize, h: usize, s: usize, x: usize, y: usize, c: usize) -> (r: u8)
    requires
        src@.len() == w * h * 4,
        s >= 1,
        x < w / s,
        y < h / s,
        c < 4,
    ensures
        r == block_mean(src@, w as int, s as int, x as int, y as int, c as int),
{
    let sum = block_channel_sum(src, w, h, s, x, y, c);
    proof {
        lemma_block_sum_bound(src@, w as int, x * s, y * s, s as int, c as int, s as int);
        lemma_mean_fits(sum as int, s as int);
        assert(s <= w && s <= h) by (nonlinear_arith)
            requires
                s >= 1,
                x < w / s,
                y < h / s,
        ;
        assert(s * s <= w * h) by (nonlinear_arith)
            requires
                s <= w,
                s <= h,
        ;
        assert(w * h <= src.len()) ;
    }
    let area: u128 = (s * s) as u128;
    (sum / area) as u8
}

/// Whether the first `done` destination pixels (row-major) of `out` hold their means.
spec fn filled_up_to(out: Seq<u8>, src: Seq<u8>, w: int, s: int, dw: int, dh: int, done: int) -> bool {
    &&& out.len() == done * 4
    &&& forall|x: int, y: int, c: int|
        0 <= x < dw && 0 <= y < dh && 0 <= c < 4 && y * dw + x < done ==> #[trigger] out[(y * dw
            + x) * 4 + c] == block_mean(src, w, s, x, y, c)
}

impl Downsampler {
    pub fn new() -> (r: Downsampler) {
        Downsampler { buffer: Vec::new() }
    }

    /// Reduces a frame over `MAX_PIXELS` by an integer factor, each destination
    /// pixel being the per-channel mean of its source block; a frame within
    /// budget, or one that a side would leave empty, comes back unchanged with
    /// scale 1.
    pub fn downsample(&mut self, frame: Arc<Frame>) -> (r: DownsampledFrame)
        requires
            frame.wf(),
        ensures
            r.scale == applied_scale(frame.width as int, frame.height as int),
            r.scale == 1 ==> r.frame.width == frame.width && r.frame.height == frame.height
                && r.frame.raw@ == frame.raw@,
            r.scale > 1 ==> {
                let s = r.scale as int;
                let dw = frame.width as int / s;
                let dh = frame.height as int / s;
                &&& r.frame.width == dw
                &&& r.frame.height == dh
                &&& r.frame.wf()
                &&& is_box_filtered(r.frame.raw@, frame.raw@, frame.width as int, s, dw, dh)
            },
    {
        let w = frame.width as usize;
        let h = frame.height as usize;
        let src = &frame.raw;
        let n = src.len();
        assert(w * h <= n);
        let pixels = w * h;
        let mut scale: usize = 1;
        if pixels > MAX_PIXELS {
            let ratio = (pixels + MAX_PIXELS - 1) / MAX_PIXELS;
            assert(ratio >= 1);
            let approx = int_ceil_sqrt(ratio);
            proof {
                lemma_ceil_sqrt_unique(approx as int, ratio as int);
            }
            scale = if approx > 2 {
                approx
            } else {
                2
            };
            let ghost start = scale;
            loop
                invariant
                    2 <= scale,
                    w * h <= n,
                    scale_from(w as int, h as int, scale as int) == scale_from(
                        w as int,
                        h as int,
                        start as int,
                    ),
                ensures
                    scale_from(w as int, h as int, scale as int) == scale,
                decreases MAX_SEARCH_SCALE - scale,
            {
                if scale >= MAX_SEARCH_SCALE {
                    break;
                }
                let dw = w / scale;
                let dh = h / scale;
                assert(dw * dh <= w * h) by (nonlinear_arith)
                    requires
                        scale >= 1,
                        dw == w / scale,
                        dh == h / scale,
                ;
                if dw * dh <= MAX_PIXELS {
                    break;
                }
                scale = scale + 1;
            }
        }
        assert(scale == chosen_scale(w as int, h as int));
        if scale <= 1 {
            return DownsampledFrame { frame, scale: 1 };
        }
        let dst_w = w / scale;
        let dst_h = h / scale;
        if dst_w == 0 || dst_h == 0 {
            return DownsampledFrame { frame, scale: 1 };
        }
        proof {
            assert(dst_w * dst_h <= w * h) by (nonlinear_arith)
                requires
                    dst_w <= w,
                    dst_h <= h,
            ;
            assert(dst_w <= w && dst_h <= h) by (nonlinear_arith)
                requires
                    scale >= 1,
                    dst_w == w / scale,
                    dst_h == h / scale,
            ;
            assert(scale <= w) by (nonlinear_arith)
                requires
                    scale >= 1,
                    dst_w == w / scale,
                    dst_w >= 1,
            ;
        }
        self.buffer.clear();
        let mut y: usize = 0;
        while y < dst_h
            invariant
                src@ == frame.raw@,
                src@.len() == w * h * 4,
                scale >= 1,
                dst_w == w / scale,
                dst_h == h / scale,
                dst_w >= 1,
                dst_w * dst_h <= w * h,
                y <= dst_h,
                filled_up_to(self.buffer@, src@, w as int, scale as int, dst_w as int, dst_h as int, y * dst_w),
            decreases dst_h - y,
        {
            let mut x: usize = 0;
            while x < dst_w
                invariant
                    src@ == frame.raw@,
                    src@.len() == w * h * 4,
                    scale >= 1,
                    dst_w == w / scale,
                    dst_h == h / scale,
                    dst_w * dst_h <= w * h,
                    y < dst_h,
                    x <= dst_w,
                    filled_up_to(
                        self.buffer@,
                        src@,
                        w as int,
                        scale as int,
                        dst_w as int,
                        dst_h as int,
                        y * dst_w + x,
                    ),
                decreases dst_w - x,
            {
                let ghost before = self.buffer@;
                let ghost done = y * dst_w + x;
                let b0 = mean_byte(src, w, h, scale, x, y, 0);
                let b1 = mean_byte(src, w, h, scale, x, y, 1);
                let b2 = mean_byte(src, w, h, scale, x, y, 2);
                let b3 = mean_byte(src, w, h, scale, x, y, 3);
                self.buffer.push(b0);
                self.buffer.push(b1);
                self.buffer.push(b2);
                self.buffer.push(b3);
                proof {
                    let out = self.buffer@;
                    assert(out.len() == (done + 1) * 4);
                    assert forall|xx: int, yy: int, c: int|
                        0 <= xx < dst_w && 0 <= yy < dst_h && 0 <= c < 4 && yy * dst_w + xx < done
                            + 1 implies #[trigger] out[(yy * dst_w + xx) * 4 + c] == block_mean(
                        src@,
                        w as int,
                        scale as int,
                        xx,
                        yy,
                        c,
                    ) by {
                        if yy * dst_w + xx < done {
                            assert(out[(yy * dst_w + xx) * 4 + c] == before[(yy * dst_w + xx) * 4 + c]);
                        } else {
                            assert(yy == y && xx == x) by (nonlinear_arith)
                                requires
                                    yy * dst_w + xx == y * dst_w + x,
                                    0 <= xx < dst_w,
                                    0 <= x < dst_w,
                                    0 <= yy,
                                    0 <= y,
                            ;
                        }
                    }
                }
                x = x + 1;
            }
            proof {
                assert(y * dst_w + dst_w == (y + 1) * dst_w) by (nonlinear_arith);
            }
            y = y + 1;
        }
        let raw = slice_to_vec(self.buffer.as_slice());
        proof {
            let out = raw@;
            assert(dst_h * dst_w == dst_w * dst_h) by (nonlinear_arith);
            assert forall|xx: int, yy: int, c: int|
                0 <= xx < dst_w && 0 <= yy < dst_h && 0 <= c < 4 implies #[trigger] out[(yy * dst_w
                + xx) * 4 + c] == block_mean(src@, w as int, scale as int, xx, yy, c) by {
                assert(yy * dst_w + xx < dst_h * dst_w) by (nonlinear_arith)
                    requires
                        0 <= xx < dst_w,
                        0 <= yy < dst_h,
                ;
            }
        }
        let down = Frame { width: dst_w as u32, height: dst_h as u32, raw };
        DownsampledFrame { frame: Arc::new(down), scale: scale as u32 }
    }
}

/// Reduces frames over the pixel budget by box filtering; reuses its output
/// buffer across calls.
pub struct Downsampler {
    buffer: Vec<u8>,
}

} // verus!
