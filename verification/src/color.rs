//! Average colors of pixel regions, and the distance between two colors.
//!
//! A channel average is carried in fixed point: the per-channel arithmetic
//! mean over a region, scaled by `SCALE` and rounded down. The scale keeps
//! eight fractional bits, so a region of uniform color loses nothing.

use vstd::prelude::*;

verus! {

use crate::img::Img;
use crate::img::pixel_at;
use vstd::arithmetic::div_mod::lemma_div_by_multiple;
use vstd::arithmetic::div_mod::lemma_div_is_ordered;
use vstd::arithmetic::div_mod::lemma_fundamental_div_mod_converse;

/// Fixed-point scale of a channel average: eight fractional bits.
pub const SCALE: u32 = 256;

/// The largest channel value of a color: a full channel byte at scale.
pub const CHAN_MAX: u32 = 65280;

/// An average color: per-channel fixed-point intensities, each in
/// `0 ..= CHAN_MAX` (that is, `255 * SCALE`).
#[derive(Clone, Copy, Debug, PartialEq, Eq, Structural)]
pub struct Color {
    pub r: u32,
    pub g: u32,
    pub b: u32,
}

impl Color {
    pub open spec fn wf(self) -> bool {
        self.r <= CHAN_MAX && self.g <= CHAN_MAX && self.b <= CHAN_MAX
    }
}

/// Sum of the red channel over a pixel sequence.
pub open spec fn sum_r(s: Seq<(u8, u8, u8)>) -> int
    decreases s.len(),
{
    if s.len() == 0 {
        0
    } else {
        sum_r(s.drop_last()) + s.last().0
    }
}

/// Sum of the green channel over a pixel sequence.
pub open spec fn sum_g(s: Seq<(u8, u8, u8)>) -> int
    decreases s.len(),
{
    if s.len() == 0 {
        0
    } else {
        sum_g(s.drop_last()) + s.last().1
    }
}

/// Sum of the blue channel over a pixel sequence.
pub open spec fn sum_b(s: Seq<(u8, u8, u8)>) -> int
    decreases s.len(),
{
    if s.len() == 0 {
        0
    } else {
        sum_b(s.drop_last()) + s.last().2
    }
}

/// The pixels of the `w * h` region whose top-left corner is `(x, y)`,
/// row-major, read from a buffer of row stride `iw`.
pub open spec fn region(px: Seq<(u8, u8, u8)>, iw: int, x: int, y: int, w: int, h: int) -> Seq<
    (u8, u8, u8),
> {
    Seq::new((w * h) as nat, |k: int| pixel_at(px, iw, x + k % w, y + k / w))
}

/// The average color of a region: each channel is the scaled channel sum
/// divided by the pixel count, rounded down.
pub open spec fn avg_of(px: Seq<(u8, u8, u8)>, iw: int, x: int, y: int, w: int, h: int) -> Color {
    let s = region(px, iw, x, y, w, h);
    let n = w * h;
    Color {
        r: ((sum_r(s) * SCALE) / n) as u32,
        g: ((sum_g(s) * SCALE) / n) as u32,
        b: ((sum_b(s) * SCALE) / n) as u32,
    }
}

/// Channel sums lie between 0 and 255 per pixel.
pub proof fn lemma_sum_bounds(s: Seq<(u8, u8, u8)>)
    ensures
        0 <= sum_r(s) <= 255 * s.len(),
        0 <= sum_g(s) <= 255 * s.len(),
        0 <= sum_b(s) <= 255 * s.len(),
    decreases s.len(),
{
    if s.len() > 0 {
        lemma_sum_bounds(s.drop_last());
    }
}

/// Appending one pixel adds its channels to the sums.
pub proof fn lemma_sum_push(s: Seq<(u8, u8, u8)>, p: (u8, u8, u8))
    ensures
        sum_r(s.push(p)) == sum_r(s) + p.0,
        sum_g(s.push(p)) == sum_g(s) + p.1,
        sum_b(s.push(p)) == sum_b(s) + p.2,
{
    assert(s.push(p).drop_last() =~= s);
    assert(s.push(p).last() == p);
}

/// Computes the average color of an in-bounds rectangular region of an
/// image: the arithmetic mean of each channel over all pixels of the
/// region, in fixed point.
pub fn average_color(img: &Img, x: u32, y: u32, w: u32, h: u32) -> (c: Color)
    requires
        img.wf(),
        1 <= w,
        1 <= h,
        x + w <= img.width,
        y + h <= img.height,
    ensures
        c == avg_of(img.pixels@, img.width as int, x as int, y as int, w as int, h as int),
        c.wf(),
{
    let ghost reg = region(img.pixels@, img.width as int, x as int, y as int, w as int, h as int);
    proof {
        assert(w * h <= 0x1_0000_0000) by (nonlinear_arith)
            requires
                w <= 0x10000,
                h <= 0x10000,
        ;
    }
    let mut sr: u64 = 0;
    let mut sg: u64 = 0;
    let mut sb: u64 = 0;
    let mut j: u32 = 0;
    while j < h
        invariant
            img.wf(),
            1 <= w,
            1 <= h,
            x + w <= img.width,
            y + h <= img.height,
            j <= h,
            w * h <= 0x1_0000_0000,
            reg == region(img.pixels@, img.width as int, x as int, y as int, w as int, h as int),
            sr == sum_r(reg.take(j * w)),
            sg == sum_g(reg.take(j * w)),
            sb == sum_b(reg.take(j * w)),
        decreases h - j,
    {
        let mut i: u32 = 0;
        proof {
            assert(j * w + w <= h * w && (j + 1) * w == j * w + w && h * w == w * h)
                by (nonlinear_arith)
                requires
                    j < h,
                    1 <= w,
            ;
        }
        while i < w
            invariant
                img.wf(),
                1 <= w,
                1 <= h,
                x + w <= img.width,
                y + h <= img.height,
                j < h,
                i <= w,
                w * h <= 0x1_0000_0000,
                j * w + w <= w * h,
                reg == region(
                    img.pixels@,
                    img.width as int,
                    x as int,
                    y as int,
                    w as int,
                    h as int,
                ),
                sr == sum_r(reg.take(j * w + i)),
                sg == sum_g(reg.take(j * w + i)),
                sb == sum_b(reg.take(j * w + i)),
            decreases w - i,
        {
            let ghost k: int = j * w + i;
            let p = img.pixel(x + i, y + j);
            proof {
                lemma_fundamental_div_mod_converse(k, w as int, j as int, i as int);
                assert(reg[k] == p);
                assert(reg.take(k + 1) =~= reg.take(k).push(reg[k]));
                lemma_sum_push(reg.take(k), p);
                lemma_sum_bounds(reg.take(k + 1));
            }
            sr = sr + p.0 as u64;
            sg = sg + p.1 as u64;
            sb = sb + p.2 as u64;
            i = i + 1;
        }
        j = j + 1;
    }
    proof {
        assert(h * w == w * h && w * h >= 1) by (nonlinear_arith)
            requires
                1 <= w,
                1 <= h,
        ;
        assert(reg.take(h * w) =~= reg);
        lemma_sum_bounds(reg);
        lemma_avg_in_range(sum_r(reg), (w * h) as int);
        lemma_avg_in_range(sum_g(reg), (w * h) as int);
        lemma_avg_in_range(sum_b(reg), (w * h) as int);
    }
    let n: u64 = w as u64 * h as u64;
    Color { r: (sr * 256 / n) as u32, g: (sg * 256 / n) as u32, b: (sb * 256 / n) as u32 }
}

/// A scaled channel sum divided by the pixel count stays within a channel.
proof fn lemma_avg_in_range(sum: int, n: int)
    requires
        1 <= n,
        0 <= sum <= 255 * n,
    ensures
        0 <= (sum * 256) / n <= 65280,
{
    assert(sum * 256 <= 65280 * n) by (nonlinear_arith)
        requires
            sum <= 255 * n,
    ;
    lemma_div_is_ordered(sum * 256, 65280 * n, n);
    lemma_div_by_multiple(65280, n);
    assert(65280 * n == n * 65280) by (nonlinear_arith);
    assert(sum * 256 >= 0) by (nonlinear_arith)
        requires
            0 <= sum,
    ;
    lemma_div_is_ordered(0, sum * 256, n);
}

/// The average color of any region is a well-formed color.
pub proof fn lemma_avg_wf(px: Seq<(u8, u8, u8)>, iw: int, x: int, y: int, w: int, h: int)
    requires
        1 <= w,
        1 <= h,
    ensures
        avg_of(px, iw, x, y, w, h).wf(),
{
    let s = region(px, iw, x, y, w, h);
    assert(w * h >= 1) by (nonlinear_arith)
        requires
            1 <= w,
            1 <= h,
    ;
    lemma_sum_bounds(s);
    lemma_avg_in_range(sum_r(s), w * h);
    lemma_avg_in_range(sum_g(s), w * h);
    lemma_avg_in_range(sum_b(s), w * h);
}

/// Over a region of one uniform color, the average is exactly that color
/// at scale: nothing is lost to rounding.
pub proof fn lemma_average_uniform(
    px: Seq<(u8, u8, u8)>,
    iw: int,
    x: int,
    y: int,
    w: int,
    h: int,
    p: (u8, u8, u8),
)
    requires
        1 <= w,
        1 <= h,
        forall|ax: int, ay: int|
            x <= ax < x + w && y <= ay < y + h ==> #[trigger] pixel_at(px, iw, ax, ay) == p,
    ensures
        avg_of(px, iw, x, y, w, h) == (Color {
            r: (p.0 * SCALE) as u32,
            g: (p.1 * SCALE) as u32,
            b: (p.2 * SCALE) as u32,
        }),
{
    let s = region(px, iw, x, y, w, h);
    let n = w * h;
    assert(w * h >= 1) by (nonlinear_arith)
        requires
            1 <= w,
            1 <= h,
    ;
    assert forall|k: int| 0 <= k < s.len() implies s[k] == p by {
        lemma_fundamental_div_mod_converse_ranges(k, w, h);
        assert(pixel_at(px, iw, x + k % w, y + k / w) == p);
    }
    lemma_sum_uniform(s, p);
    lemma_div_by_multiple(p.0 as int * 256, n);
    lemma_div_by_multiple(p.1 as int * 256, n);
    lemma_div_by_multiple(p.2 as int * 256, n);
    assert((p.0 * n) * 256 == (p.0 * 256) * n && (p.1 * n) * 256 == (p.1 * 256) * n && (p.2 * n)
        * 256 == (p.2 * 256) * n) by (nonlinear_arith);
}

/// For `0 <= k < w * h`, the row `k / w` is below `h` and the column
/// `k % w` is below `w`.
proof fn lemma_fundamental_div_mod_converse_ranges(k: int, w: int, h: int)
    requires
        1 <= w,
        1 <= h,
        0 <= k < w * h,
    ensures
        0 <= k % w < w,
        0 <= k / w < h,
{
    assert(0 <= k % w < w && 0 <= k / w < h) by (nonlinear_arith)
        requires
            1 <= w,
            1 <= h,
            0 <= k < w * h,
    ;
}

/// The channel sums of a uniform sequence.
proof fn lemma_sum_uniform(s: Seq<(u8, u8, u8)>, p: (u8, u8, u8))
    requires
        forall|k: int| 0 <= k < s.len() ==> s[k] == p,
    ensures
        sum_r(s) == p.0 * s.len(),
        sum_g(s) == p.1 * s.len(),
        sum_b(s) == p.2 * s.len(),
    decreases s.len(),
{
    if s.len() == 0 {
    } else {
        lemma_sum_uniform(s.drop_last(), p);
        assert(p.0 * s.len() == p.0 * (s.len() - 1) + p.0 && p.1 * s.len() == p.1 * (s.len() - 1)
            + p.1 && p.2 * s.len() == p.2 * (s.len() - 1) + p.2) by (nonlinear_arith);
    }
}

/// The squared Euclidean distance between two colors in channel space.
/// Square roots are monotone, so comparing squared distances orders any
/// two colors exactly as the Euclidean distance does.
pub open spec fn dist_sq_of(a: Color, b: Color) -> int {
    (a.r - b.r) * (a.r - b.r) + (a.g - b.g) * (a.g - b.g) + (a.b - b.b) * (a.b - b.b)
}

/// Computes the squared channel-space distance between two colors.
pub fn dist_sq(a: &Color, b: &Color) -> (d: u64)
    requires
        a.wf(),
        b.wf(),
    ensures
        d == dist_sq_of(*a, *b),
{
    let dr: i64 = a.r as i64 - b.r as i64;
    let dg: i64 = a.g as i64 - b.g as i64;
    let db: i64 = a.b as i64 - b.b as i64;
    proof {
        assert(0 <= dr * dr <= 65280 * 65280 && 0 <= dg * dg <= 65280 * 65280 && 0 <= db * db
            <= 65280 * 65280) by (nonlinear_arith)
            requires
                -65280 <= dr <= 65280,
                -65280 <= dg <= 65280,
                -65280 <= db <= 65280,
        ;
    }
    (dr * dr + dg * dg + db * db) as u64
}

/// A squared distance is never negative, and it is zero exactly between
/// equal colors.
pub proof fn lemma_dist_zero(a: Color, b: Color)
    ensures
        dist_sq_of(a, b) >= 0,
        dist_sq_of(a, b) == 0 <==> a == b,
{
    assert(dist_sq_of(a, b) >= 0 && (dist_sq_of(a, b) == 0 <==> (a.r == b.r && a.g == b.g && a.b
        == b.b))) by (nonlinear_arith);
}

} // verus!
