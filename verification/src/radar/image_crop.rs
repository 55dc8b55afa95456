//! The per-station crop: trims a station's native raster to the part its
//! rectangle shares with the viewport, and computes where the trimmed part
//! sits — exactly in latitude/longitude, and as the integer sub-image the
//! resampler reads.
//!
//! Pixel offsets carry nine fractional digits (pixel-nano); divisions round
//! half away from zero.  The integer crop floors each edge, bumping up only
//! an edge within one billionth of the next whole pixel — the same guard
//! against `9.99999... -> 9` as `considerate_floor`.

use crate::arith::{div_round, i128_div_round};
use crate::canvas::Canvas;
use crate::common::{Coordinate, Position, NANO};
use crate::radar::{rd_wf, RadarData, RadarImagery};
use vstd::prelude::*;

verus! {

/// Largest raster edge and canvas edge the crop accepts, in pixels: a
/// machine limit keeping all products within `i128`.
pub const CROP_SIZE_LIMIT: u32 = 1_000_000;

/// The fractional pixel crop of one edge: the share of `diff` in `span`,
/// scaled to `size` pixels, in pixel-nano; a negative share is clamped to
/// zero and one beyond the whole image to the whole image.
pub open spec fn spec_crop_edge_nano(diff: int, span: int, size: int) -> int {
    if diff <= 0 {
        0
    } else {
        let q = div_round(diff * size * NANO, span);
        if q > size * NANO {
            size * NANO
        } else {
            q
        }
    }
}

/// The integer pixel count of a fractional crop edge: its floor, bumped up
/// by one when the fraction exceeds `1 - 10^-9` of a pixel.  On whole
/// pixel-nano values the fraction never exceeds that tolerance, so the bump
/// arm cannot fire here; the guard it expresses — an edge a hair short of
/// the next pixel counts as that pixel — is already provided by the
/// rounding division of `spec_crop_edge_nano`.  The arm is kept so the
/// rounding rule reads the same as `considerate_floor`'s.
pub open spec fn spec_crop_edge_px(nano: int) -> int {
    let fl = nano / (NANO as int);
    if nano - fl * NANO > 999_999_999 {
        fl + 1
    } else {
        fl
    }
}

/// An edge of the trimmed rectangle in nano-degrees: the native edge moved
/// inward by the crop's share of the native extent. `crop` is in pixel-nano
/// when `scale` is `NANO`, in whole pixels when `scale` is one.
pub open spec fn spec_cropped_edge(edge: int, dist: int, crop: int, size: int, scale: int) -> int {
    edge + div_round(dist * crop, size * scale)
}

/// Where a longitude sits on the canvas, in pixel-nano.
pub open spec fn spec_on_canvas(v: int, origin: int, span: int, size: int) -> int {
    div_round((v - origin) * size * NANO, span)
}

/// What the per-station crop hands the resampler.
pub struct CropResult {
    pub image: Canvas,
    pub cropped_bounds: [Coordinate; 2],
    pub accurate_bounds: [Coordinate; 2],
    pub on_canvas_pos: [Position; 2],
}

/// One fractional crop edge, in pixel-nano.
fn crop_edge_nano(diff: i64, span: i64, size: u32) -> (r: i64)
    requires
        1 <= span <= 800_000_000_000,
        -800_000_000_000 <= diff <= 800_000_000_000,
        size <= CROP_SIZE_LIMIT,
    ensures
        r == spec_crop_edge_nano(diff as int, span as int, size as int),
        0 <= r <= (size as int) * (NANO as int),
{
    proof {
        assert(0 <= (size as int) * (NANO as int) <= 1_000_000_000_000_000) by (nonlinear_arith)
            requires
                0 <= size <= 1_000_000,
                NANO == 1_000_000_000i64,
        ;
    }
    if diff <= 0 {
        return 0;
    }
    proof {
        assert(0 <= (diff as int) * (size as int) * (NANO as int)
            <= 800_000_000_000_000_000_000_000_000_000) by (nonlinear_arith)
            requires
                0 < diff <= 800_000_000_000,
                0 <= size <= 1_000_000,
                NANO == 1_000_000_000i64,
        ;
        assert(0 <= div_round((diff as int) * (size as int) * (NANO as int), span as int))
            by (nonlinear_arith)
            requires
                0 <= (diff as int) * (size as int) * (NANO as int),
                1 <= span,
                div_round((diff as int) * (size as int) * (NANO as int), span as int) == ((
                diff as int) * (size as int) * (NANO as int) + (span as int) / 2) / (span as int),
        ;
    }
    let q: i128 = i128_div_round((diff as i128) * (size as i128) * (NANO as i128), span as i128);
    let cap: i128 = (size as i128) * (NANO as i128);
    if q > cap {
        cap as i64
    } else {
        q as i64
    }
}

/// The integer pixel count of one edge.
fn crop_edge_px(nano: i64) -> (r: i64)
    requires
        0 <= nano,
    ensures
        r == spec_crop_edge_px(nano as int),
        0 <= r <= (nano as int) / (NANO as int) + 1,
{
    let fl: i64 = nano / NANO;
    proof {
        assert(0 <= fl * (NANO as int) <= nano && nano - fl * NANO <= NANO) by (nonlinear_arith)
            requires
                0 <= nano && fl == (nano as int) / (NANO as int) && NANO == 1_000_000_000i64,
        ;
    }
    if nano - fl * NANO > 999_999_999 {
        fl + 1
    } else {
        fl
    }
}

/// One trimmed edge in nano-degrees.
fn cropped_edge(edge: i64, dist: i64, crop: i64, size: u32, scale: i64) -> (r: i64)
    requires
        -800_000_000_000 <= edge <= 800_000_000_000,
        -800_000_000_000 <= dist <= 800_000_000_000,
        0 <= crop <= 2 * (size as int) * (scale as int),
        1 <= size <= CROP_SIZE_LIMIT,
        scale == 1 || scale == NANO,
    ensures
        r == spec_cropped_edge(edge as int, dist as int, crop as int, size as int, scale as int),
        -3_000_000_000_000 <= r <= 3_000_000_000_000,
{
    proof {
        assert(1 <= (size as int) * (scale as int) <= 1_000_000_000_000_000) by (nonlinear_arith)
            requires
                1 <= size <= 1_000_000,
                scale == 1 || scale == 1_000_000_000i64,
        ;
        assert(0 <= crop <= 2_000_000_000_000_000 && crop <= 2 * ((size as int) * (scale as int)))
            by (nonlinear_arith)
            requires
                0 <= crop <= 2 * (size as int) * (scale as int),
                1 <= size <= 1_000_000,
                scale == 1 || scale == 1_000_000_000i64,
        ;
        assert(-1_600_000_000_000_000_000_000_000_000 <= (dist as int) * (crop as int)
            <= 1_600_000_000_000_000_000_000_000_000) by (nonlinear_arith)
            requires
                -800_000_000_000 <= dist <= 800_000_000_000,
                0 <= crop <= 2_000_000_000_000_000,
        ;
        lemma_div_round_scaled(
            dist as int,
            crop as int,
            (size as int) * (scale as int),
        );
    }
    let q: i128 = i128_div_round((dist as i128) * (crop as i128), (size as i128) * (scale as i128));
    (edge as i128 + q) as i64
}

/// With the scaled offset at most twice the divisor, the rounded quotient
/// stays within twice the distance plus one.
proof fn lemma_div_round_scaled(dist: int, crop: int, b: int)
    requires
        -800_000_000_000 <= dist <= 800_000_000_000,
        0 <= crop <= 2 * b,
        b >= 1,
    ensures
        -1_600_000_000_000 - 1 <= div_round(dist * crop, b) <= 1_600_000_000_000 + 1,
{
    let a = dist * crop;
    assert(-1_600_000_000_000 * b <= a <= 1_600_000_000_000 * b) by (nonlinear_arith)
        requires
            -800_000_000_000 <= dist <= 800_000_000_000 && 0 <= crop <= 2 * b && b >= 1 && a
                == dist * crop,
    ;
    if a >= 0 {
        assert((a + b / 2) / b <= 1_600_000_000_000 + 1 && (a + b / 2) / b >= 0)
            by (nonlinear_arith)
            requires
                0 <= a <= 1_600_000_000_000 * b && b >= 1,
        ;
    } else {
        assert((-a + b / 2) / b <= 1_600_000_000_000 + 1 && (-a + b / 2) / b >= 0)
            by (nonlinear_arith)
            requires
                0 <= -a <= 1_600_000_000_000 * b && b >= 1,
        ;
    }
}

/// A rounded quotient is no larger in magnitude than its dividend.
pub(crate) proof fn lemma_div_round_magnitude(a: int, b: int)
    requires
        b >= 1,
    ensures
        -(if a >= 0 {
            a
        } else {
            -a
        }) - 1 <= div_round(a, b) <= (if a >= 0 {
            a
        } else {
            -a
        }) + 1,
{
    let m = if a >= 0 {
        a
    } else {
        -a
    };
    assert(0 <= (m + b / 2) / b <= m + 1) by (nonlinear_arith)
        requires
            m >= 0 && b >= 1,
    ;
}

/// Where a longitude or latitude offset sits on the canvas, in pixel-nano,
/// clamped into `i64`.
pub(crate) fn on_canvas(v: i64, origin: i64, span: i64, size: u32) -> (r: i64)
    requires
        -4_000_000_000_000 <= v <= 4_000_000_000_000,
        -4_000_000_000_000 <= origin <= 4_000_000_000_000,
        1 <= span <= 8_000_000_000_000,
        1 <= size <= CROP_SIZE_LIMIT,
    ensures
        r == crate::radar::formula::spec_sat_i64(
            spec_on_canvas(v as int, origin as int, span as int, size as int),
        ),
{
    proof {
        assert(-9_000_000_000_000_000_000_000_000_000_000_000 <= ((v as int) - (origin as int)) * (
        size as int) * (NANO as int) <= 9_000_000_000_000_000_000_000_000_000_000_000)
            by (nonlinear_arith)
            requires
                -8_000_000_000_000 <= (v as int) - (origin as int) <= 8_000_000_000_000,
                1 <= size <= 1_000_000,
                NANO == 1_000_000_000i64,
        ;
    }
    let num: i128 = ((v as i128) - (origin as i128)) * (size as i128) * (NANO as i128);
    let q: i128 = i128_div_round(num, span as i128);
    crate::radar::formula::sat_i64(q)
}


/// The smaller of two pixel counts.
pub open spec fn spec_min_px(a: int, b: int) -> int {
    if a < b {
        a
    } else {
        b
    }
}

impl RadarImagery {
    /// Trims a station's native raster against the viewport.  The returned
    /// sub-image is the integer crop; `accurate_bounds` is the exact
    /// latitude/longitude rectangle of the ideal (fractional) crop,
    /// `cropped_bounds` the rectangle the integer sub-image really covers,
    /// and `on_canvas_pos` where the ideal rectangle falls on the canvas in
    /// pixel-nano.
    pub fn crop(&self, image: &Canvas, radar: &RadarData, canvas_width: u32, canvas_height: u32)
        -> (r: CropResult)
        requires
            image.wf(),
            1 <= image.width <= CROP_SIZE_LIMIT,
            1 <= image.height <= CROP_SIZE_LIMIT,
            1 <= canvas_width <= CROP_SIZE_LIMIT,
            1 <= canvas_height <= CROP_SIZE_LIMIT,
            crate::radar::coord_ok(radar.bounds[0]),
            crate::radar::coord_ok(radar.bounds[1]),
            crate::radar::coord_ok(self.bounds[0]),
            crate::radar::coord_ok(self.bounds[1]),
            radar.bounds[1].lon - radar.bounds[0].lon >= 1,
            radar.bounds[0].lat - radar.bounds[1].lat >= 1,
            self.bounds[1].lon - self.bounds[0].lon >= 1,
            self.bounds[0].lat - self.bounds[1].lat >= 1,
        ensures
            ({
                let w = image.width as int;
                let h = image.height as int;
                let bw = radar.bounds[1].lon - radar.bounds[0].lon;
                let bh = radar.bounds[0].lat - radar.bounds[1].lat;
                let l_nano = spec_crop_edge_nano(self.bounds[0].lon - radar.bounds[0].lon, bw, w);
                let r_nano = spec_crop_edge_nano(radar.bounds[1].lon - self.bounds[1].lon, bw, w);
                let t_nano = spec_crop_edge_nano(radar.bounds[0].lat - self.bounds[0].lat, bh, h);
                let b_nano = spec_crop_edge_nano(self.bounds[1].lat - radar.bounds[1].lat, bh, h);
                let l_px = spec_crop_edge_px(l_nano);
                let r_px = spec_crop_edge_px(r_nano);
                let t_px = spec_crop_edge_px(t_nano);
                let b_px = spec_crop_edge_px(b_nano);
                let lc = spec_min_px(l_px, w);
                let rc = spec_min_px(r_px, w - lc);
                let tc = spec_min_px(t_px, h);
                let bc = spec_min_px(b_px, h - tc);
                &&& r.image.wf()
                &&& r.image.width == w - lc - rc
                &&& r.image.height == h - tc - bc
                &&& 0 <= lc && 0 <= tc
                &&& lc + r.image.width <= w
                &&& tc + r.image.height <= h
                &&& forall|a: int, b: int|
                    0 <= a < r.image.width && 0 <= b < r.image.height ==> r.image.pixel(a, b)
                        == image.pixel(lc + a, tc + b)
                &&& r.accurate_bounds[0].lat == spec_cropped_edge(
                    radar.bounds[0].lat as int,
                    -bh,
                    t_nano,
                    h as int,
                    NANO as int,
                )
                &&& r.accurate_bounds[0].lon == spec_cropped_edge(
                    radar.bounds[0].lon as int,
                    bw,
                    l_nano,
                    w as int,
                    NANO as int,
                )
                &&& r.accurate_bounds[1].lat == spec_cropped_edge(
                    radar.bounds[1].lat as int,
                    bh,
                    b_nano,
                    h as int,
                    NANO as int,
                )
                &&& r.accurate_bounds[1].lon == spec_cropped_edge(
                    radar.bounds[1].lon as int,
                    -bw,
                    r_nano,
                    w as int,
                    NANO as int,
                )
                &&& r.cropped_bounds[0].lat == spec_cropped_edge(
                    radar.bounds[0].lat as int,
                    -bh,
                    t_px,
                    h as int,
                    1,
                )
                &&& r.cropped_bounds[0].lon == spec_cropped_edge(
                    radar.bounds[0].lon as int,
                    bw,
                    l_px,
                    w as int,
                    1,
                )
                &&& r.cropped_bounds[1].lat == spec_cropped_edge(
                    radar.bounds[1].lat as int,
                    bh,
                    b_px,
                    h as int,
                    1,
                )
                &&& r.cropped_bounds[1].lon == spec_cropped_edge(
                    radar.bounds[1].lon as int,
                    -bw,
                    r_px,
                    w as int,
                    1,
                )
                &&& r.on_canvas_pos[0].x == crate::radar::formula::spec_sat_i64(
                    spec_on_canvas(
                        r.accurate_bounds[0].lon as int,
                        self.bounds[0].lon as int,
                        self.bounds[1].lon - self.bounds[0].lon,
                        canvas_width as int,
                    ),
                )
                &&& r.on_canvas_pos[0].y == crate::radar::formula::spec_sat_i64(
                    spec_on_canvas(
                        self.bounds[0].lat as int,
                        r.accurate_bounds[0].lat as int,
                        self.bounds[0].lat - self.bounds[1].lat,
                        canvas_height as int,
                    ),
                )
                &&& r.on_canvas_pos[1].x == crate::radar::formula::spec_sat_i64(
                    spec_on_canvas(
                        r.accurate_bounds[1].lon as int,
                        self.bounds[0].lon as int,
                        self.bounds[1].lon - self.bounds[0].lon,
                        canvas_width as int,
                    ),
                )
                &&& r.on_canvas_pos[1].y == crate::radar::formula::spec_sat_i64(
                    spec_on_canvas(
                        self.bounds[0].lat as int,
                        r.accurate_bounds[1].lat as int,
                        self.bounds[0].lat - self.bounds[1].lat,
                        canvas_height as int,
                    ),
                )
                &&& -3_000_000_000_000 <= r.accurate_bounds[0].lat <= 3_000_000_000_000
                &&& -3_000_000_000_000 <= r.accurate_bounds[0].lon <= 3_000_000_000_000
                &&& -3_000_000_000_000 <= r.accurate_bounds[1].lat <= 3_000_000_000_000
                &&& -3_000_000_000_000 <= r.accurate_bounds[1].lon <= 3_000_000_000_000
                &&& -3_000_000_000_000 <= r.cropped_bounds[0].lat <= 3_000_000_000_000
                &&& -3_000_000_000_000 <= r.cropped_bounds[0].lon <= 3_000_000_000_000
                &&& -3_000_000_000_000 <= r.cropped_bounds[1].lat <= 3_000_000_000_000
                &&& -3_000_000_000_000 <= r.cropped_bounds[1].lon <= 3_000_000_000_000
            }),
    {
        let w: u32 = image.width;
        let h: u32 = image.height;
        let bw: i64 = radar.bounds[1].lon - radar.bounds[0].lon;
        let bh: i64 = radar.bounds[0].lat - radar.bounds[1].lat;
        let l_nano: i64 = crop_edge_nano(self.bounds[0].lon - radar.bounds[0].lon, bw, w);
        let r_nano: i64 = crop_edge_nano(radar.bounds[1].lon - self.bounds[1].lon, bw, w);
        let t_nano: i64 = crop_edge_nano(radar.bounds[0].lat - self.bounds[0].lat, bh, h);
        let b_nano: i64 = crop_edge_nano(self.bounds[1].lat - radar.bounds[1].lat, bh, h);
        let l_px: i64 = crop_edge_px(l_nano);
        let r_px: i64 = crop_edge_px(r_nano);
        let t_px: i64 = crop_edge_px(t_nano);
        let b_px: i64 = crop_edge_px(b_nano);
        proof {
            lemma_px_within(l_nano as int, w as int);
            lemma_px_within(r_nano as int, w as int);
            lemma_px_within(t_nano as int, h as int);
            lemma_px_within(b_nano as int, h as int);
        }
        let lc: u32 = if l_px < w as i64 {
            l_px as u32
        } else {
            w
        };
        let rc: u32 = if r_px < (w - lc) as i64 {
            r_px as u32
        } else {
            w - lc
        };
        let tc: u32 = if t_px < h as i64 {
            t_px as u32
        } else {
            h
        };
        let bc: u32 = if b_px < (h - tc) as i64 {
            b_px as u32
        } else {
            h - tc
        };
        let cropped: Canvas = image.crop_rect(lc, tc, w - lc - rc, h - tc - bc);
        let acc0 = Coordinate {
            lat: cropped_edge(radar.bounds[0].lat, -bh, t_nano, h, NANO),
            lon: cropped_edge(radar.bounds[0].lon, bw, l_nano, w, NANO),
        };
        let acc1 = Coordinate {
            lat: cropped_edge(radar.bounds[1].lat, bh, b_nano, h, NANO),
            lon: cropped_edge(radar.bounds[1].lon, -bw, r_nano, w, NANO),
        };
        let cb0 = Coordinate {
            lat: cropped_edge(radar.bounds[0].lat, -bh, t_px, h, 1),
            lon: cropped_edge(radar.bounds[0].lon, bw, l_px, w, 1),
        };
        let cb1 = Coordinate {
            lat: cropped_edge(radar.bounds[1].lat, bh, b_px, h, 1),
            lon: cropped_edge(radar.bounds[1].lon, -bw, r_px, w, 1),
        };
        let pos0 = Position {
            x: on_canvas(
                acc0.lon,
                self.bounds[0].lon,
                self.bounds[1].lon - self.bounds[0].lon,
                canvas_width,
            ),
            y: on_canvas(
                self.bounds[0].lat,
                acc0.lat,
                self.bounds[0].lat - self.bounds[1].lat,
                canvas_height,
            ),
        };
        let pos1 = Position {
            x: on_canvas(
                acc1.lon,
                self.bounds[0].lon,
                self.bounds[1].lon - self.bounds[0].lon,
                canvas_width,
            ),
            y: on_canvas(
                self.bounds[0].lat,
                acc1.lat,
                self.bounds[0].lat - self.bounds[1].lat,
                canvas_height,
            ),
        };
        CropResult {
            image: cropped,
            cropped_bounds: [cb0, cb1],
            accurate_bounds: [acc0, acc1],
            on_canvas_pos: [pos0, pos1],
        }
    }
}

/// An integer crop edge of a clamped fractional one is at most one past the
/// image, and twice the image covers it.
proof fn lemma_px_within(nano: int, size: int)
    requires
        0 <= nano <= size * (NANO as int),
        1 <= size,
    ensures
        0 <= spec_crop_edge_px(nano) <= size + 1,
        spec_crop_edge_px(nano) <= 2 * size * 1,
{
    assert(0 <= nano / (NANO as int) <= size) by (nonlinear_arith)
        requires
            0 <= nano <= size * (NANO as int) && size >= 1 && NANO == 1_000_000_000i64,
    ;
}

} // verus!
