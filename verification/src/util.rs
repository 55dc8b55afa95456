//! The overlay compositor: alpha-blends the radar canvas over the map
//! canvas at a global opacity.

use crate::canvas::{Canvas, Rgba};
use vstd::prelude::*;

verus! {

/// Largest opacity denominator accepted, a machine limit keeping the blend
/// arithmetic in `i64`.
pub const OPACITY_DEN_LIMIT: u32 = 1_000_000;

/// One blended channel: `a + trunc((b - a) * o)` where the effective
/// opacity `o` is `alpha * num / (255 * den)`, truncation toward zero.
pub open spec fn spec_blend_channel(pa: int, qa: int, alpha: int, num: int, den: int) -> int {
    pa + crate::arith::div_trunc((qa - pa) * alpha * num, 255 * den)
}

/// One blended pixel.  A fully transparent overlay pixel leaves the base
/// pixel untouched; a fully opaque one blends at the global opacity; in
/// between, the overlay's alpha scales the opacity.  The base alpha channel
/// is always kept.
pub open spec fn spec_blend(p: Rgba, q: Rgba, num: int, den: int) -> Rgba {
    if q.a == 0 {
        p
    } else {
        Rgba {
            r: spec_blend_channel(p.r as int, q.r as int, q.a as int, num, den) as u8,
            g: spec_blend_channel(p.g as int, q.g as int, q.a as int, num, den) as u8,
            b: spec_blend_channel(p.b as int, q.b as int, q.a as int, num, den) as u8,
            a: p.a,
        }
    }
}

/// The blended channel lies between the two source channels, so it fits a
/// byte.
proof fn lemma_blend_channel_range(pa: int, qa: int, alpha: int, num: int, den: int)
    requires
        0 <= pa <= 255,
        0 <= qa <= 255,
        0 <= alpha <= 255,
        0 <= num <= den,
        0 < den <= OPACITY_DEN_LIMIT,
    ensures
        0 <= spec_blend_channel(pa, qa, alpha, num, den) <= 255,
{
    let d = (qa - pa) * alpha * num;
    let m = 255 * den;
    if qa >= pa {
        assert(0 <= d <= (qa - pa) * m) by (nonlinear_arith)
            requires
                0 <= qa - pa && 0 <= alpha <= 255 && 0 <= num <= den && 0 < den && d == (qa - pa)
                    * alpha * num && m == 255 * den,
        ;
        assert(0 <= d / m <= qa - pa) by (nonlinear_arith)
            requires
                0 <= d <= (qa - pa) * m && 0 < m && 0 <= qa - pa,
        ;
    } else {
        assert(0 <= -d <= (pa - qa) * m) by (nonlinear_arith)
            requires
                0 < pa - qa && 0 <= alpha <= 255 && 0 <= num <= den && 0 < den && d == (qa - pa)
                    * alpha * num && m == 255 * den,
        ;
        assert(0 <= (-d) / m <= pa - qa) by (nonlinear_arith)
            requires
                0 <= -d <= (pa - qa) * m && 0 < m && 0 < pa - qa,
        ;
    }
}

/// One blended channel, in machine integers.
fn blend_channel(pa: u8, qa: u8, alpha: u8, num: u32, den: u32) -> (r: u8)
    requires
        num <= den,
        0 < den <= OPACITY_DEN_LIMIT,
    ensures
        r == spec_blend_channel(pa as int, qa as int, alpha as int, num as int, den as int),
{
    proof {
        assert(-65026 <= (qa as int - pa as int) * (alpha as int) <= 65026
            && -17_000_000_000_000 <= ((qa as int - pa as int) * (alpha as int)) * (num as int)
            <= 17_000_000_000_000) by (nonlinear_arith)
            requires
                -255 <= qa as int - pa as int <= 255,
                0 <= alpha as int <= 255,
                0 <= num as int <= 1_000_000,
        ;
        lemma_blend_channel_range(pa as int, qa as int, alpha as int, num as int, den as int);
    }
    let d: i64 = (qa as i64 - pa as i64) * (alpha as i64) * (num as i64);
    let m: i64 = 255 * (den as i64);
    let t: i64 = if d >= 0 {
        d / m
    } else {
        -((-d) / m)
    };
    (pa as i64 + t) as u8
}

/// Blends `b` over `a` at global opacity `num / den`, pixel by pixel, and
/// returns the blended canvas.  The two canvases must agree in size.
pub fn overlay_image(a: Canvas, b: &Canvas, num: u32, den: u32) -> (r: Canvas)
    requires
        a.wf(),
        b.wf(),
        a.width == b.width,
        a.height == b.height,
        num <= den,
        0 < den <= OPACITY_DEN_LIMIT,
    ensures
        r.wf(),
        r.width == a.width,
        r.height == a.height,
        forall|x: int, y: int|
            0 <= x < a.width && 0 <= y < a.height ==> r.pixel(x, y) == spec_blend(
                a.pixel(x, y),
                b.pixel(x, y),
                num as int,
                den as int,
            ),
{
    let mut a = a;
    let ghost orig = a;
    let width: u32 = a.width;
    let height: u32 = a.height;
    let mut y: u32 = 0;
    while y < height
        invariant
            a.wf(),
            a.width == width,
            a.height == height,
            b.wf(),
            b.width == width,
            b.height == height,
            orig.width == width,
            orig.height == height,
            num <= den,
            0 < den <= OPACITY_DEN_LIMIT,
            0 <= y <= height,
            forall|i: int, j: int|
                0 <= i < width && 0 <= j < y ==> a.pixel(i, j) == spec_blend(
                    orig.pixel(i, j),
                    b.pixel(i, j),
                    num as int,
                    den as int,
                ),
            forall|i: int, j: int|
                0 <= i < width && y <= j < height ==> a.pixel(i, j) == orig.pixel(i, j),
        decreases height - y,
    {
        let mut x: u32 = 0;
        while x < width
            invariant
                a.wf(),
                a.width == width,
                a.height == height,
                b.wf(),
                b.width == width,
                b.height == height,
                orig.width == width,
                orig.height == height,
                num <= den,
                0 < den <= OPACITY_DEN_LIMIT,
                0 <= y < height,
                0 <= x <= width,
                forall|i: int, j: int|
                    0 <= i < width && 0 <= j < y ==> a.pixel(i, j) == spec_blend(
                        orig.pixel(i, j),
                        b.pixel(i, j),
                        num as int,
                        den as int,
                    ),
                forall|i: int| 0 <= i < x ==> a.pixel(i, y as int) == spec_blend(
                    orig.pixel(i, y as int),
                    b.pixel(i, y as int),
                    num as int,
                    den as int,
                ),
                forall|i: int| x <= i < width ==> a.pixel(i, y as int) == orig.pixel(i, y as int),
                forall|i: int, j: int|
                    0 <= i < width && y < j < height ==> a.pixel(i, j) == orig.pixel(i, j),
            decreases width - x,
        {
            let a_pixel: Rgba = a.get_pixel(x, y);
            let b_pixel: Rgba = b.get_pixel(x, y);
            let new_px: Rgba = if b_pixel.a == 0 {
                a_pixel
            } else {
                Rgba {
                    r: blend_channel(a_pixel.r, b_pixel.r, b_pixel.a, num, den),
                    g: blend_channel(a_pixel.g, b_pixel.g, b_pixel.a, num, den),
                    b: blend_channel(a_pixel.b, b_pixel.b, b_pixel.a, num, den),
                    a: a_pixel.a,
                }
            };
            a.put_pixel(x, y, new_px);
            x = x + 1;
        }
        y = y + 1;
    }
    a
}

/// Overlaying a fully transparent canvas changes nothing: every output
/// pixel equals the base pixel exactly, whatever the opacity.
pub proof fn lemma_overlay_transparent(p: Rgba, q: Rgba, num: int, den: int)
    requires
        q.a == 0,
    ensures
        spec_blend(p, q, num, den) == p,
{
}

} // verus!
