//! The analytic forms driving per-pixel ownership resolution.
//!
//! All geometry lives in the longitude/latitude plane treated as Euclidean,
//! in nano-degrees; a station's coverage disk has its configured range as
//! radius.  The quadratic forms (`q_inside`, `q_outside`, `q_half_dist`) are
//! computed exactly in `i128`, in units of square nano-degrees; the solved
//! forms (`qx_circ`, `qx_half_dist`) return longitudes in nano-degrees.

use crate::arith::{div_trunc, i128_div_trunc};
use crate::common::NANO;
use crate::radar::{rd_wf, RadarData};
use vstd::prelude::*;

verus! {

/// Bound on the plane coordinates the quadratic forms accept, in
/// nano-degrees: wide enough for every longitude a solved form can emit.
pub const Q_LIMIT: i64 = 2_000_000_000_000_000;

/// A station's scan radius in nano-degrees.
pub open spec fn spec_range_nano(r: RadarData) -> int {
    r.range.spec_to_degrees().spec_to_nano()
}

/// Negative strictly inside the station's coverage disk, zero on its
/// boundary, positive outside.
pub open spec fn spec_q_inside(r: RadarData, x: int, y: int) -> int {
    (x - r.center.lon) * (x - r.center.lon) + (y - r.center.lat) * (y - r.center.lat)
        - spec_range_nano(r) * spec_range_nano(r)
}

/// The negation of `spec_q_inside`: positive strictly inside.
pub open spec fn spec_q_outside(r: RadarData, x: int, y: int) -> int {
    -spec_q_inside(r, x, y)
}

/// The perpendicular bisector form between the centers of `a` and `b`:
/// negative on `a`'s side, zero on the bisector.
pub open spec fn spec_q_half_dist(a: RadarData, b: RadarData, x: int, y: int) -> int {
    (x - a.center.lon) * (x - a.center.lon) - (x - b.center.lon) * (x - b.center.lon) + (y
        - a.center.lat) * (y - a.center.lat) - (y - b.center.lat) * (y - b.center.lat)
}

/// Computes `spec_q_inside` exactly.
pub fn q_inside(r: &RadarData, x: i64, y: i64) -> (q: i128)
    requires
        rd_wf(*r),
        -Q_LIMIT <= x <= Q_LIMIT,
        -Q_LIMIT <= y <= Q_LIMIT,
    ensures
        q == spec_q_inside(*r, x as int, y as int),
        -0x1000_0000_0000_0000_0000_0000_0000_0000 < q < 0x1000_0000_0000_0000_0000_0000_0000_0000,
{
    let dx: i128 = x as i128 - r.center.lon as i128;
    let dy: i128 = y as i128 - r.center.lat as i128;
    let rr: i128 = r.range.to_nano_degrees() as i128;
    proof {
        lemma_square_bound(dx as int, 3_000_000_000_000_000);
        lemma_square_bound(dy as int, 3_000_000_000_000_000);
        lemma_square_bound(rr as int, 1_000_000_000_000_000);
    }
    dx * dx + dy * dy - rr * rr
}

/// Computes `spec_q_outside` exactly.
pub fn q_outside(r: &RadarData, x: i64, y: i64) -> (q: i128)
    requires
        rd_wf(*r),
        -Q_LIMIT <= x <= Q_LIMIT,
        -Q_LIMIT <= y <= Q_LIMIT,
    ensures
        q == spec_q_outside(*r, x as int, y as int),
        -0x1000_0000_0000_0000_0000_0000_0000_0000 < q < 0x1000_0000_0000_0000_0000_0000_0000_0000,
{
    -q_inside(r, x, y)
}

/// Computes `spec_q_half_dist` exactly.
pub fn q_half_dist(a: &RadarData, b: &RadarData, x: i64, y: i64) -> (q: i128)
    requires
        rd_wf(*a),
        rd_wf(*b),
        -Q_LIMIT <= x <= Q_LIMIT,
        -Q_LIMIT <= y <= Q_LIMIT,
    ensures
        q == spec_q_half_dist(*a, *b, x as int, y as int),
        -0x1000_0000_0000_0000_0000_0000_0000_0000 < q < 0x1000_0000_0000_0000_0000_0000_0000_0000,
{
    let dxa: i128 = x as i128 - a.center.lon as i128;
    let dxb: i128 = x as i128 - b.center.lon as i128;
    let dya: i128 = y as i128 - a.center.lat as i128;
    let dyb: i128 = y as i128 - b.center.lat as i128;
    proof {
        lemma_square_bound(dxa as int, 3_000_000_000_000_000);
        lemma_square_bound(dxb as int, 3_000_000_000_000_000);
        lemma_square_bound(dya as int, 3_000_000_000_000_000);
        lemma_square_bound(dyb as int, 3_000_000_000_000_000);
    }
    dxa * dxa - dxb * dxb + dya * dya - dyb * dyb
}

/// A number of magnitude at most `c` squares to at most `c * c`.
proof fn lemma_square_bound(v: int, c: int)
    requires
        -c <= v <= c,
        0 <= c,
    ensures
        0 <= v * v <= c * c,
{
    assert(0 <= v * v <= c * c) by (nonlinear_arith)
        requires
            -c <= v <= c && 0 <= c,
    ;
}

/// Where a horizontal line meets a coverage disk: no intersection, or the
/// two crossing longitudes.
pub enum EqResult {
    NoResult,
    Real(i64, i64),
}

/// The integer square root: the largest `s` with `s * s <= n`.
pub fn isqrt(n: u128) -> (s: u64)
    ensures
        (s as int) * (s as int) <= n,
        n < (s as int + 1) * (s as int + 1),
{
    let mut lo: u128 = 0;
    let mut hi: u128 = 0x1_0000_0000_0000_0000;
    proof {
        assert((0x1_0000_0000_0000_0000 as int) * (0x1_0000_0000_0000_0000 as int) > u128::MAX
            as int) by (nonlinear_arith);
    }
    while lo + 1 < hi
        invariant
            0 <= lo < hi <= 0x1_0000_0000_0000_0000,
            (lo as int) * (lo as int) <= n,
            (hi as int) * (hi as int) > n,
        decreases hi - lo,
    {
        let mid: u128 = lo + (hi - lo) / 2;
        proof {
            assert(lo < mid < hi);
            assert(0 <= (mid as int) * (mid as int) < 0x1_0000_0000_0000_0000
                * 0x1_0000_0000_0000_0000) by (nonlinear_arith)
                requires
                    0 <= mid < 0x1_0000_0000_0000_0000,
            ;
        }
        if mid * mid <= n {
            lo = mid;
        } else {
            hi = mid;
        }
    }
    lo as u64
}

/// Solves the station's circle equation for longitude on the horizontal
/// line at latitude `y`: `NoResult` when the line misses the disk, otherwise
/// the eastern and western crossings (rounded down to whole nano-degrees,
/// symmetrically about the center).
pub fn qx_circ(r: &RadarData, y: i64) -> (q: EqResult)
    requires
        rd_wf(*r),
        -Q_LIMIT <= y <= Q_LIMIT,
    ensures
        ({
            let det = spec_range_nano(*r) * spec_range_nano(*r) - (y - r.center.lat) * (y
                - r.center.lat);
            match q {
                EqResult::NoResult => det < 0,
                EqResult::Real(pos, neg) => det >= 0 && ({
                    let s = pos - r.center.lon;
                    &&& 0 <= s
                    &&& s * s <= det
                    &&& det < (s + 1) * (s + 1)
                    &&& neg == r.center.lon - s
                }),
            }
        }),
{
    let dy: i128 = y as i128 - r.center.lat as i128;
    let rr: i128 = r.range.to_nano_degrees() as i128;
    proof {
        lemma_square_bound(dy as int, 3_000_000_000_000_000);
        lemma_square_bound(rr as int, 1_000_000_000_000_000);
    }
    let det: i128 = rr * rr - dy * dy;
    if det < 0 {
        return EqResult::NoResult;
    }
    let det_sqrt: u64 = isqrt(det as u128);
    proof {
        assert((det_sqrt as int) * (det_sqrt as int) <= 1_000_000_000_000_000_000_000_000_000_000
            ==> det_sqrt <= 1_000_000_000_000_000) by (nonlinear_arith);
    }
    let pos: i64 = r.center.lon + det_sqrt as i64;
    let neg: i64 = r.center.lon - det_sqrt as i64;
    EqResult::Real(pos, neg)
}

/// Clamps an integer into `i64` range.
pub open spec fn spec_sat_i64(v: int) -> int {
    if v < i64::MIN {
        i64::MIN as int
    } else if v > i64::MAX {
        i64::MAX as int
    } else {
        v
    }
}

/// The longitude where the perpendicular bisector of the centers of `a` and
/// `b` crosses the horizontal line at latitude `y` (truncated toward zero
/// and clamped into `i64`), or nothing when the centers share a longitude
/// and no such single crossing exists.
pub fn qx_half_dist(a: &RadarData, b: &RadarData, y: i64) -> (q: Option<i64>)
    requires
        rd_wf(*a),
        rd_wf(*b),
        -Q_LIMIT <= y <= Q_LIMIT,
    ensures
        ({
            let x1 = a.center.lon as int;
            let x2 = b.center.lon as int;
            let y1 = a.center.lat as int;
            let y2 = b.center.lat as int;
            let num = -((y - y1) * (y - y1)) + (y - y2) * (y - y2) - x1 * x1 + x2 * x2;
            let den = 2 * (x2 - x1);
            match q {
                Option::None => x1 == x2,
                Option::Some(lon) => x1 != x2 && lon == spec_sat_i64(
                    if den > 0 {
                        div_trunc(num, den)
                    } else {
                        div_trunc(-num, -den)
                    },
                ),
            }
        }),
{
    let x1: i128 = a.center.lon as i128;
    let x2: i128 = b.center.lon as i128;
    if x1 == x2 {
        return None;
    }
    let dya: i128 = y as i128 - a.center.lat as i128;
    let dyb: i128 = y as i128 - b.center.lat as i128;
    proof {
        lemma_square_bound(dya as int, 3_000_000_000_000_000);
        lemma_square_bound(dyb as int, 3_000_000_000_000_000);
        lemma_square_bound(x1 as int, 1_000_000_000_000);
        lemma_square_bound(x2 as int, 1_000_000_000_000);
    }
    let numerator: i128 = -(dya * dya) + dyb * dyb - x1 * x1 + x2 * x2;
    let denominator: i128 = 2 * (x2 - x1);
    let v: i128 = if denominator > 0 {
        i128_div_trunc(numerator, denominator)
    } else {
        i128_div_trunc(-numerator, -denominator)
    };
    proof {
        lemma_div_magnitude(numerator as int, denominator as int);
    }
    Some(sat_i64(v))
}

/// A truncated quotient is no larger in magnitude than its dividend.
proof fn lemma_div_magnitude(num: int, den: int)
    requires
        den != 0,
    ensures
        den > 0 ==> -(if num >= 0 {
            num
        } else {
            -num
        }) <= div_trunc(num, den) <= (if num >= 0 {
            num
        } else {
            -num
        }),
        den < 0 ==> -(if num >= 0 {
            num
        } else {
            -num
        }) <= div_trunc(-num, -den) <= (if num >= 0 {
            num
        } else {
            -num
        }),
{
    let m = if num >= 0 {
        num
    } else {
        -num
    };
    assert(0 <= m / (if den > 0 {
        den
    } else {
        -den
    }) <= m) by (nonlinear_arith)
        requires
            m >= 0 && den != 0,
    ;
}

/// Clamps into `i64`.
pub(crate) fn sat_i64(v: i128) -> (r: i64)
    ensures
        r == spec_sat_i64(v as int),
{
    if v < i64::MIN as i128 {
        i64::MIN
    } else if v > i64::MAX as i128 {
        i64::MAX
    } else {
        v as i64
    }
}

/// The competing bound each higher-or-equal-priority overlapping station
/// places at a point: how far outside that station's disk the point is and,
/// on a priority tie, no further than the bisector.  Stations of strictly
/// lower priority place no bound.
pub open spec fn spec_overlay_bounds(radar: RadarData, list: Seq<RadarData>, x: int, y: int) -> Seq<
    i128,
>
    decreases list.len(),
{
    if list.len() == 0 {
        Seq::empty()
    } else {
        let first = list[0];
        let tail = spec_overlay_bounds(radar, list.subrange(1, list.len() as int), x, y);
        if radar.priority > first.priority {
            tail
        } else {
            let outside = spec_q_outside(first, x, y);
            let b = if first.priority == radar.priority {
                let hd = spec_q_half_dist(radar, first, x, y);
                if hd < outside {
                    hd
                } else {
                    outside
                }
            } else {
                outside
            };
            seq![b as i128] + tail
        }
    }
}

/// Computes `spec_overlay_bounds` over a station list.
pub fn min_q1_q2(radar: &RadarData, overlapping: &Vec<RadarData>, lon: i64, lat: i64) -> (r: Vec<
    i128,
>)
    requires
        rd_wf(*radar),
        forall|i: int| 0 <= i < overlapping@.len() ==> rd_wf(#[trigger] overlapping@[i]),
        -Q_LIMIT <= lon <= Q_LIMIT,
        -Q_LIMIT <= lat <= Q_LIMIT,
    ensures
        r@ == spec_overlay_bounds(*radar, overlapping@, lon as int, lat as int),
        forall|k: int|
            0 <= k < r@.len() ==> -0x1000_0000_0000_0000_0000_0000_0000_0000 < #[trigger] r@[k]
                < 0x1000_0000_0000_0000_0000_0000_0000_0000,
{
    let mut result: Vec<i128> = Vec::new();
    let mut i: usize = 0;
    let n: usize = overlapping.len();
    proof {
        assert(overlapping@.skip(0) =~= overlapping@);
    }
    while i < n
        invariant
            0 <= i <= n,
            n == overlapping@.len(),
            rd_wf(*radar),
            forall|k: int| 0 <= k < overlapping@.len() ==> rd_wf(#[trigger] overlapping@[k]),
            -Q_LIMIT <= lon <= Q_LIMIT,
            -Q_LIMIT <= lat <= Q_LIMIT,
            spec_overlay_bounds(*radar, overlapping@, lon as int, lat as int) =~= result@
                + spec_overlay_bounds(*radar, overlapping@.skip(i as int), lon as int, lat as int),
            forall|k: int|
                0 <= k < result@.len() ==> -0x1000_0000_0000_0000_0000_0000_0000_0000
                    < #[trigger] result@[k] < 0x1000_0000_0000_0000_0000_0000_0000_0000,
        decreases n - i,
    {
        let current = &overlapping[i];
        proof {
            assert(overlapping@.skip(i as int)[0] == overlapping@[i as int]);
            assert(overlapping@.skip(i as int).subrange(
                1,
                overlapping@.skip(i as int).len() as int,
            ) =~= overlapping@.skip(i as int + 1));
        }
        if radar.priority <= current.priority {
            let mut circ2_bound: i128 = q_outside(current, lon, lat);
            if current.priority == radar.priority {
                let half_dist: i128 = q_half_dist(radar, current, lon, lat);
                if half_dist < circ2_bound {
                    circ2_bound = half_dist;
                }
            }
            result.push(circ2_bound);
        }
        i = i + 1;
    }
    proof {
        assert(overlapping@.skip(n as int) =~= Seq::<RadarData>::empty());
        assert(result@ + Seq::<i128>::empty() =~= result@);
    }
    result
}

/// The epsilon numerator of `considerate_floor`: `2^52`, so that
/// `eps = |x| / 2^52` is the relative spacing of double-precision numbers.
pub const EPS_DEN: i64 = 0x10_0000_0000_0000;

/// Floor to a whole number of units (`NANO` sub-units), except that a value
/// within one double-precision spacing of a whole number snaps to that
/// whole number: this defeats the `9.99999... -> 9` pathology at tile and
/// pixel boundaries.  Input and result are in nano-units.
pub open spec fn spec_considerate_floor(x: int) -> int {
    let rounded = crate::arith::div_round(x, NANO as int) * NANO;
    let diff = if x - rounded >= 0 {
        x - rounded
    } else {
        rounded - x
    };
    let ax = if x >= 0 {
        x
    } else {
        -x
    };
    if diff * EPS_DEN < ax {
        rounded
    } else {
        (x / (NANO as int)) * NANO
    }
}

/// Computes `spec_considerate_floor`.
pub fn considerate_floor(x: i64) -> (r: i64)
    requires
        -Q_LIMIT <= x <= Q_LIMIT,
    ensures
        r == spec_considerate_floor(x as int),
{
    let rounded: i64 = (crate::arith::i128_div_round(x as i128, NANO as i128) as i64) * NANO;
    proof {
        lemma_round_nano_bounds(x as int);
    }
    let diff: i64 = if x >= rounded {
        x - rounded
    } else {
        rounded - x
    };
    let ax: i64 = if x >= 0 {
        x
    } else {
        -x
    };
    proof {
        assert(0 <= (diff as int) * (EPS_DEN as int) <= 1_000_000_000 * (EPS_DEN as int))
            by (nonlinear_arith)
            requires
                0 <= diff <= 1_000_000_000,
                EPS_DEN == 0x10_0000_0000_0000i64,
        ;
    }
    if (diff as i128) * (EPS_DEN as i128) < ax as i128 {
        rounded
    } else {
        let f: i64 = if x >= 0 {
            (x / NANO) * NANO
        } else {
            proof {
                assert((x as int) / (NANO as int) * NANO == -((-(x as int) + NANO - 1) / (NANO
                    as int)) * NANO && -(x as int) <= -((x as int) / (NANO as int)) * NANO
                    <= -(x as int) + NANO) by (nonlinear_arith)
                    requires
                        x < 0,
                        NANO == 1_000_000_000i64,
                ;
            }
            -(((-x + (NANO - 1)) / NANO) * NANO)
        };
        f
    }
}

/// Rounding to the nearest whole unit moves a value by at most half a unit
/// and keeps it within `i64`.
proof fn lemma_round_nano_bounds(x: int)
    requires
        -Q_LIMIT <= x <= Q_LIMIT,
    ensures
        x - NANO <= crate::arith::div_round(x, NANO as int) * NANO <= x + NANO,
        crate::arith::div_round(x, NANO as int) * NANO % NANO as int == 0,
{
    let q = crate::arith::div_round(x, NANO as int);
    if x >= 0 {
        assert(x - NANO <= (x + (NANO as int) / 2) / (NANO as int) * NANO <= x + NANO && 0 <= (x
            + (NANO as int) / 2) / (NANO as int) * NANO && (x + (NANO as int) / 2) / (NANO as int)
            * NANO % NANO as int == 0) by (nonlinear_arith)
            requires
                x >= 0,
                NANO == 1_000_000_000i64,
        ;
    } else {
        assert(x - NANO <= -((-x + (NANO as int) / 2) / (NANO as int)) * NANO <= x + NANO && -((-x
            + (NANO as int) / 2) / (NANO as int)) * NANO <= 0 && -((-x + (NANO as int) / 2) / (NANO
            as int)) * NANO % NANO as int == 0) by (nonlinear_arith)
            requires
                x < 0,
                NANO == 1_000_000_000i64,
        ;
    }
}

/// A whole number of units passes through `considerate_floor` unchanged.
pub proof fn lemma_considerate_floor_whole(n: int)
    requires
        -Q_LIMIT <= n * NANO <= Q_LIMIT,
    ensures
        spec_considerate_floor(n * NANO) == n * NANO,
{
    let x = n * NANO;
    assert(crate::arith::div_round(x, NANO as int) == n && x / (NANO as int) == n)
        by (nonlinear_arith)
        requires
            x == n * NANO,
            NANO == 1_000_000_000i64,
    ;
    assert(spec_considerate_floor(x) == if 0 < (if x >= 0 {
        x
    } else {
        -x
    }) {
        n * NANO
    } else {
        x / (NANO as int) * NANO
    });
    assert(x / (NANO as int) * NANO == x) by (nonlinear_arith)
        requires
            x == n * NANO && x / (NANO as int) == n,
            NANO == 1_000_000_000i64,
    ;
}

} // verus!
