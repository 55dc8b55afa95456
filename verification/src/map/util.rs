//! Web-Mercator projection in fixed-point arithmetic.
//!
//! A coordinate in nano-degrees is mapped to fractional tile coordinates at a
//! given zoom: `x = 2^z * (lon + 180) / 360` and
//! `y = 2^z * (1 - ln(tan(latrad) + sec(latrad)) / pi) / 2`.  The
//! transcendental part is computed over `i128` at `FIX` (10^18) resolution
//! through the identity `ln(tan(p) + sec(p)) = atanh(sin(p))
//! = ln((1 + sin(p)) / (1 - sin(p))) / 2`, with `sin` by its Taylor series
//! and `ln` by range reduction and the `atanh` series.  Every function's
//! result is pinned exactly to its specification mirror.

use crate::arith::{div_round, div_trunc, i128_div_round, i128_div_trunc};
use crate::common::{Coordinate, Position, NANO};
use vstd::arithmetic::power2::pow2;
use vstd::prelude::*;

verus! {

/// Resolution of the transcendental computations: units per 1.0.
pub const FIX: i128 = 1_000_000_000_000_000_000;

/// The circle constant at `FIX` resolution.
pub const PI_FIX: i128 = 3_141_592_653_589_793_238;

/// The natural logarithm of two at `FIX` resolution.
pub const LN2_FIX: i128 = 693_147_180_559_945_309;

/// Latitudes beyond this bound (89 degrees, in nano-degrees) are not
/// projected: the Mercator ordinate diverges toward the poles.
pub const MAX_LAT_NANO: i64 = 89_000_000_000;

/// Half and full turns in nano-degrees.
pub const NANO_180: i64 = 180_000_000_000;

/// See `NANO_180`.
pub const NANO_360: i64 = 360_000_000_000;

/// Largest zoom level accepted by the tile mathematics: above this the
/// nano-tile coordinates would leave `i64`.
pub const MAX_ZOOM: i32 = 30;

/// Number of Taylor terms of `sin`; the first dropped term is below the
/// output resolution for all accepted latitudes.
pub const SIN_TERMS: u32 = 16;

/// Number of series terms of `atanh` on `[0, 1/3]`.
pub const ATANH_TERMS: u32 = 24;

/// A sine magnitude is clamped to this value before the `atanh` step, so the
/// following division is well defined; the clamp is above `sin(89 degrees)`
/// and therefore never reached for accepted latitudes.
pub const SIN_CLAMP: i128 = 999_900_000_000_000_000;

/// Alternating tail of the Taylor series of `sin`, from term `k` on:
/// `term - next + ...` where each term is the previous one times
/// `a2 / (2k * (2k + 1))` at `FIX` resolution.
pub open spec fn spec_sin_tail(a2: int, term: int, k: int) -> int
    decreases SIN_TERMS - k,
{
    if k < 1 || k >= SIN_TERMS {
        0
    } else {
        term - spec_sin_tail(a2, term * a2 / (FIX as int) / ((2 * k) * (2 * k + 1)), k + 1)
    }
}

/// One step of the alternating sine series.
fn sin_tail(a2: i128, term: i128, k: u32) -> (r: i128)
    requires
        1 <= k <= SIN_TERMS,
        0 <= a2 <= 2_600_000_000_000_000_000,
        0 <= term <= 2_000_000_000_000_000_000,
    ensures
        r == spec_sin_tail(a2 as int, term as int, k as int),
        0 <= r <= term,
    decreases SIN_TERMS - k,
{
    if k >= SIN_TERMS {
        0
    } else {
        proof {
            assert(6 <= (2 * (k as int)) * (2 * (k as int) + 1) <= 1056) by (nonlinear_arith)
                requires
                    1 <= k <= 16,
            ;
            assert(0 <= (term as int) * (a2 as int)
                <= 6_000_000_000_000_000_000_000_000_000_000_000_000) by (nonlinear_arith)
                requires
                    0 <= a2 <= 2_600_000_000_000_000_000,
                    0 <= term <= 2_000_000_000_000_000_000,
            ;
        }
        let d: i128 = ((2 * k) as i128) * ((2 * k + 1) as i128);
        let scaled: i128 = term * a2 / FIX;
        proof {
            assert(0 <= scaled <= 3 * term) by (nonlinear_arith)
                requires
                    scaled == term * a2 / (FIX as int),
                    0 <= a2 <= 2_600_000_000_000_000_000,
                    0 <= term,
                    FIX == 1_000_000_000_000_000_000i128,
            ;
            assert(0 <= scaled / d <= term) by (nonlinear_arith)
                requires
                    0 <= scaled <= 3 * term,
                    d >= 6,
            ;
        }
        let next: i128 = scaled / d;
        let rec: i128 = sin_tail(a2, next, k + 1);
        term - rec
    }
}

/// `sin` of a non-negative angle at `FIX` resolution, by its Taylor series.
pub open spec fn spec_sin_pos(a: int) -> int {
    spec_sin_tail(a * a / (FIX as int), a, 1)
}

/// Computes `spec_sin_pos` on `[0, 1.6]`.
fn sin_pos(a: i128) -> (r: i128)
    requires
        0 <= a <= 1_600_000_000_000_000_000,
    ensures
        r == spec_sin_pos(a as int),
        0 <= r <= a,
{
    proof {
        assert(0 <= (a as int) * (a as int) <= 2_560_000_000_000_000_000_000_000_000_000_000_000)
            by (nonlinear_arith)
            requires
                0 <= a <= 1_600_000_000_000_000_000,
        ;
    }
    let a2: i128 = a * a / FIX;
    proof {
        assert(0 <= a2 <= 2_600_000_000_000_000_000) by (nonlinear_arith)
            requires
                a2 == a * a / (FIX as int),
                0 <= a <= 1_600_000_000_000_000_000,
                FIX == 1_000_000_000_000_000_000i128,
        ;
    }
    sin_tail(a2, a, 1)
}

/// Divides by two until the value drops below `2 * FIX`, counting the steps:
/// the pair `(mantissa, exponent)` of the range reduction for `ln`.
pub open spec fn spec_normalize(x: int) -> (int, int)
    decreases x,
{
    if x < 2 * (FIX as int) {
        (x, 0)
    } else {
        let (m, k) = spec_normalize(x / 2);
        (m, k + 1)
    }
}

/// Computes `spec_normalize` for `x` in `[FIX, 10^26]`.
fn normalize(x: i128) -> (r: (i128, u32))
    requires
        FIX <= x <= 100_000_000_000_000_000_000_000_000,
    ensures
        (r.0 as int, r.1 as int) == spec_normalize(x as int),
        FIX <= r.0 < 2 * FIX,
        r.1 <= 26,
        pow2(r.1 as nat) * (FIX as int) <= x,
    decreases x,
{
    if x < 2 * FIX {
        proof {
            vstd::arithmetic::power2::lemma2_to64();
        }
        (x, 0)
    } else {
        proof {
            assert(x / 2 < x && x / 2 >= FIX && x / 2 <= 50_000_000_000_000_000_000_000_000)
                by (nonlinear_arith)
                requires
                    2 * (FIX as int) <= x <= 100_000_000_000_000_000_000_000_000,
                    FIX == 1_000_000_000_000_000_000i128,
            ;
        }
        let (m, k) = normalize(x / 2);
        proof {
            vstd::arithmetic::power2::lemma_pow2_unfold((k + 1) as nat);
            assert(pow2((k + 1) as nat) * (FIX as int) <= x) by (nonlinear_arith)
                requires
                    pow2(k as nat) * (FIX as int) <= x / 2,
                    pow2((k + 1) as nat) == 2 * pow2(k as nat),
                    x >= 0,
            ;
            if k + 1 > 26 {
                vstd::arithmetic::power2::lemma2_to64();
                if k + 1 > 27 {
                    vstd::arithmetic::power2::lemma_pow2_strictly_increases(27, (k + 1) as nat);
                }
                assert(pow2((k + 1) as nat) * (FIX as int) > 100_000_000_000_000_000_000_000_000)
                    by (nonlinear_arith)
                    requires
                        pow2((k + 1) as nat) >= pow2(27),
                        pow2(27) == 0x8000000,
                        FIX == 1_000_000_000_000_000_000i128,
                ;
            }
        }
        (m, k + 1)
    }
}

/// Tail of the series `atanh(u) = u + u^3/3 + u^5/5 + ...` from term `k` on,
/// with `p` the current odd power of `u` at `FIX` resolution.
pub open spec fn spec_atanh_tail(u2: int, p: int, k: int) -> int
    decreases ATANH_TERMS - k,
{
    if k < 0 || k >= ATANH_TERMS {
        0
    } else {
        p / (2 * k + 1) + spec_atanh_tail(u2, p * u2 / (FIX as int), k + 1)
    }
}

/// One step of the `atanh` series.
fn atanh_tail(u2: i128, p: i128, k: u32) -> (r: i128)
    requires
        k <= ATANH_TERMS,
        0 <= u2 <= 125_000_000_000_000_000,
        0 <= p <= 400_000_000_000_000_000,
    ensures
        r == spec_atanh_tail(u2 as int, p as int, k as int),
        0 <= r <= 2 * p,
    decreases ATANH_TERMS - k,
{
    if k >= ATANH_TERMS {
        0
    } else {
        let here: i128 = p / (2 * k as i128 + 1);
        proof {
            assert(0 <= (p as int) * (u2 as int)
                <= 50_000_000_000_000_000_000_000_000_000_000_000) by (nonlinear_arith)
                requires
                    0 <= u2 <= 125_000_000_000_000_000,
                    0 <= p <= 400_000_000_000_000_000,
            ;
        }
        let nextp: i128 = p * u2 / FIX;
        proof {
            assert(0 <= nextp <= p / 4) by (nonlinear_arith)
                requires
                    nextp == p * u2 / (FIX as int),
                    0 <= u2 <= 125_000_000_000_000_000,
                    0 <= p,
                    FIX == 1_000_000_000_000_000_000i128,
            ;
        }
        let rec: i128 = atanh_tail(u2, nextp, k + 1);
        proof {
            assert(0 <= here <= p) by (nonlinear_arith)
                requires
                    here == (p as int) / (2 * (k as int) + 1),
                    0 <= p,
                    k >= 0,
            ;
        }
        here + rec
    }
}

/// `ln` of `x / FIX` for `x >= FIX`, at `FIX` resolution: range reduction to
/// `[1, 2)` followed by `ln(m) = 2 * atanh((m - FIX) / (m + FIX))`.
pub open spec fn spec_ln(x: int) -> int {
    let (m, k) = spec_normalize(x);
    let u = (m - FIX) * (FIX as int) / (m + FIX);
    let u2 = u * u / (FIX as int);
    k * (LN2_FIX as int) + 2 * spec_atanh_tail(u2, u, 0)
}

/// Computes `spec_ln` on `[FIX, 10^26]`.
fn ln_fix(x: i128) -> (r: i128)
    requires
        FIX <= x <= 100_000_000_000_000_000_000_000_000,
    ensures
        r == spec_ln(x as int),
        0 <= r <= 20_000_000_000_000_000_000,
{
    let (m, k) = normalize(x);
    proof {
        assert(0 <= ((m - FIX) as int) * (FIX as int)
            <= 1_000_000_000_000_000_000_000_000_000_000_000_000) by (nonlinear_arith)
            requires
                FIX as int <= m < 2 * (FIX as int),
                FIX == 1_000_000_000_000_000_000i128,
        ;
    }
    let u: i128 = (m - FIX) * FIX / (m + FIX);
    proof {
        assert(0 <= u <= 334_000_000_000_000_000) by (nonlinear_arith)
            requires
                u == (m - FIX as int) * (FIX as int) / (m + FIX as int),
                FIX as int <= m < 2 * (FIX as int),
                FIX == 1_000_000_000_000_000_000i128,
        ;
    }
    proof {
        assert(0 <= (u as int) * (u as int) <= 120_000_000_000_000_000_000_000_000_000_000_000)
            by (nonlinear_arith)
            requires
                0 <= u <= 334_000_000_000_000_000,
        ;
    }
    let u2: i128 = u * u / FIX;
    proof {
        assert(0 <= u2 <= 125_000_000_000_000_000) by (nonlinear_arith)
            requires
                u2 == u * u / (FIX as int),
                0 <= u <= 334_000_000_000_000_000,
                FIX == 1_000_000_000_000_000_000i128,
        ;
    }
    let a: i128 = atanh_tail(u2, u, 0);
    proof {
        assert(0 <= (k as int) * (LN2_FIX as int) <= 18_100_000_000_000_000_000)
            by (nonlinear_arith)
            requires
                0 <= k <= 26,
                LN2_FIX == 693_147_180_559_945_309i128,
        ;
    }
    (k as i128) * LN2_FIX + 2 * a
}

/// The Mercator ordinate `(1 - atanh(sin(latrad)) / pi) / 2` at `FIX`
/// resolution, for a latitude in nano-degrees.
pub open spec fn spec_mercator_y_fix(lat: int) -> int {
    let phi = if lat >= 0 {
        lat * (PI_FIX as int) / (NANO_180 as int)
    } else {
        (-lat) * (PI_FIX as int) / (NANO_180 as int)
    };
    let s0 = spec_sin_pos(phi);
    let s = if s0 > SIN_CLAMP {
        SIN_CLAMP as int
    } else {
        s0
    };
    let ratio = ((FIX as int) + s) * (FIX as int) / ((FIX as int) - s);
    let half_ln = spec_ln(ratio) / 2;
    let at = if lat >= 0 {
        half_ln
    } else {
        -half_ln
    };
    div_trunc((FIX as int) - div_trunc(at * (FIX as int), (PI_FIX as int)), 2)
}

/// Computes `spec_mercator_y_fix` for latitudes within `MAX_LAT_NANO`.
pub(crate) fn mercator_y_fix(lat: i64) -> (r: i128)
    requires
        -MAX_LAT_NANO <= lat <= MAX_LAT_NANO,
    ensures
        r == spec_mercator_y_fix(lat as int),
        -3 * FIX <= r <= 3 * FIX,
{
    let alat: i128 = if lat >= 0 {
        lat as i128
    } else {
        -(lat as i128)
    };
    proof {
        assert(0 <= (alat as int) * (PI_FIX as int)
            <= 300_000_000_000_000_000_000_000_000_000) by (nonlinear_arith)
            requires
                0 <= alat <= 89_000_000_000,
                PI_FIX == 3_141_592_653_589_793_238i128,
        ;
    }
    let phi: i128 = alat * PI_FIX / (NANO_180 as i128);
    proof {
        assert(0 <= phi <= 1_600_000_000_000_000_000) by (nonlinear_arith)
            requires
                phi == alat * (PI_FIX as int) / (NANO_180 as int),
                0 <= alat <= MAX_LAT_NANO as int,
                PI_FIX == 3_141_592_653_589_793_238i128,
                NANO_180 == 180_000_000_000i64,
                MAX_LAT_NANO == 89_000_000_000i64,
        ;
    }
    let s0: i128 = sin_pos(phi);
    let s: i128 = if s0 > SIN_CLAMP {
        SIN_CLAMP
    } else {
        s0
    };
    proof {
        assert(0 <= ((FIX + s) as int) * (FIX as int)
            <= 2_000_000_000_000_000_000_000_000_000_000_000_000) by (nonlinear_arith)
            requires
                0 <= s <= SIN_CLAMP as int,
                FIX == 1_000_000_000_000_000_000i128,
                SIN_CLAMP == 999_900_000_000_000_000i128,
        ;
    }
    let ratio: i128 = (FIX + s) * FIX / (FIX - s);
    proof {
        assert(FIX as int <= ratio <= 100_000_000_000_000_000_000_000_000) by (nonlinear_arith)
            requires
                ratio == ((FIX as int) + s) * (FIX as int) / ((FIX as int) - s),
                0 <= s <= SIN_CLAMP as int,
                FIX == 1_000_000_000_000_000_000i128,
                SIN_CLAMP == 999_900_000_000_000_000i128,
        ;
    }
    let half_ln: i128 = ln_fix(ratio) / 2;
    let at: i128 = if lat >= 0 {
        half_ln
    } else {
        -half_ln
    };
    proof {
        assert(-10_000_000_000_000_000_000 * (FIX as int) <= (at as int) * (FIX as int)
            <= 10_000_000_000_000_000_000 * (FIX as int)) by (nonlinear_arith)
            requires
                -10_000_000_000_000_000_000 <= at <= 10_000_000_000_000_000_000,
                FIX == 1_000_000_000_000_000_000i128,
        ;
    }
    let scaled: i128 = i128_div_trunc(at * FIX, PI_FIX);
    proof {
        assert(-4 * (FIX as int) <= div_trunc((at as int) * (FIX as int), PI_FIX as int) <= 4
            * (FIX as int)) by (nonlinear_arith)
            requires
                -10_000_000_000_000_000_000 * (FIX as int) <= (at as int) * (FIX as int)
                    <= 10_000_000_000_000_000_000 * (FIX as int),
                div_trunc((at as int) * (FIX as int), PI_FIX as int) == (if (at as int) * (FIX
                    as int) >= 0 {
                    (at as int) * (FIX as int) / (PI_FIX as int)
                } else {
                    -((-((at as int) * (FIX as int))) / (PI_FIX as int))
                }),
                FIX == 1_000_000_000_000_000_000i128,
                PI_FIX == 3_141_592_653_589_793_238i128,
        ;
    }
    i128_div_trunc(FIX - scaled, 2)
}

/// The Mercator abscissa `(lon + 180) / 360` at `FIX` resolution, for a
/// longitude in nano-degrees.
pub open spec fn spec_mercator_x_fix(lon: int) -> int {
    (lon + NANO_180) * (FIX as int) / (NANO_360 as int)
}

/// Computes `spec_mercator_x_fix`.
pub(crate) fn mercator_x_fix(lon: i64) -> (r: i128)
    requires
        -NANO_180 <= lon <= NANO_180,
    ensures
        r == spec_mercator_x_fix(lon as int),
        0 <= r <= FIX,
{
    let shifted: i128 = lon as i128 + NANO_180 as i128;
    proof {
        assert(0 <= (shifted as int) * (FIX as int)
            <= 360_000_000_000_000_000_000_000_000_000) by (nonlinear_arith)
            requires
                0 <= shifted <= 360_000_000_000,
                FIX == 1_000_000_000_000_000_000i128,
        ;
    }
    let r: i128 = shifted * FIX / (NANO_360 as i128);
    proof {
        assert(0 <= shifted * (FIX as int) / (NANO_360 as int) <= FIX as int) by (nonlinear_arith)
            requires
                0 <= shifted <= NANO_360 as int,
                FIX == 1_000_000_000_000_000_000i128,
                NANO_360 == 360_000_000_000i64,
        ;
    }
    r
}

/// `2^z`.
pub fn pow2_i64(z: u32) -> (r: i64)
    requires
        z <= 62,
    ensures
        r == pow2(z as nat),
        r >= 1,
    decreases z,
{
    if z == 0 {
        proof {
            vstd::arithmetic::power2::lemma2_to64();
        }
        1
    } else {
        let half: i64 = pow2_i64(z - 1);
        proof {
            vstd::arithmetic::power2::lemma_pow2_strictly_increases((z - 1) as nat, 62);
            vstd::arithmetic::power2::lemma2_to64_rest();
            vstd::arithmetic::power2::lemma_pow2_unfold(z as nat);
        }
        2 * half
    }
}

/// The fractional tile position of `coord` at zoom `zoom`, in nano-tiles.
/// Divisions by the output resolution round half away from zero.
pub open spec fn spec_coord_to_tile(coord: Coordinate, zoom: int) -> Position {
    Position {
        x: div_round(spec_mercator_x_fix(coord.lon as int) * pow2(zoom as nat), (FIX as int)
            / (NANO as int)) as i64,
        y: div_round(spec_mercator_y_fix(coord.lat as int) * pow2(zoom as nat), (FIX as int)
            / (NANO as int)) as i64,
    }
}

/// A coordinate the projection accepts: within 89 degrees of latitude.
pub open spec fn projectable(coord: Coordinate) -> bool {
    -MAX_LAT_NANO <= coord.lat <= MAX_LAT_NANO && -NANO_180 <= coord.lon <= NANO_180
}

/// Projects a coordinate to fractional tile coordinates at the given zoom,
/// in nano-tiles.
pub fn _coord_to_tile(coord: &Coordinate, zoom: i32) -> (r: Position)
    requires
        projectable(*coord),
        0 <= zoom <= MAX_ZOOM,
    ensures
        r == spec_coord_to_tile(*coord, zoom as int),
        0 <= r.x <= pow2(zoom as nat) * (NANO as int),
        -4 * pow2(zoom as nat) * (NANO as int) <= r.y <= 4 * pow2(zoom as nat) * (NANO as int),
{
    let xf: i128 = mercator_x_fix(coord.lon);
    let yf: i128 = mercator_y_fix(coord.lat);
    let p: i64 = pow2_i64(zoom as u32);
    let scale: i128 = FIX / (NANO as i128);
    proof {
        vstd::arithmetic::power2::lemma_pow2_pos(zoom as nat);
        vstd::arithmetic::power2::lemma_pow2_strictly_increases(zoom as nat, 31);
        vstd::arithmetic::power2::lemma2_to64();
        assert(0 <= xf * (p as int) <= (FIX as int) * (p as int) && -3 * (FIX as int) * (p as int)
            <= yf * (p as int) <= 3 * (FIX as int) * (p as int)) by (nonlinear_arith)
            requires
                0 <= xf <= FIX as int,
                -3 * (FIX as int) <= yf <= 3 * (FIX as int),
                1 <= p,
        ;
        lemma_nano_scale_bound(xf as int, p as int, 1);
        lemma_nano_scale_bound(yf as int, p as int, 3);
    }
    let x: i128 = i128_div_round(xf * (p as i128), scale);
    let y: i128 = i128_div_round(yf * (p as i128), scale);
    Position { x: x as i64, y: y as i64 }
}

/// Rounding a `FIX`-scale value of magnitude at most `c` down to nano
/// resolution and scaling by `p` stays within `(c + 1) * p * NANO`.
proof fn lemma_nano_scale_bound(v: int, p: int, c: int)
    requires
        1 <= p <= 0x8000_0000,
        1 <= c <= 3,
        -c * (FIX as int) <= v <= c * (FIX as int),
    ensures
        -(c + 1) * p * (NANO as int) <= div_round(v * p, (FIX as int) / (NANO as int)) <= (c + 1)
            * p * (NANO as int),
{
    let s = (FIX as int) / (NANO as int);
    assert(s == 1_000_000_000);
    assert(-(c + 1) * p * (NANO as int) <= div_round(v * p, s) <= (c + 1) * p * (NANO as int))
        by (nonlinear_arith)
        requires
            s == 1_000_000_000,
            NANO == 1_000_000_000i64,
            FIX == 1_000_000_000_000_000_000i128,
            1 <= p <= 0x8000_0000,
            1 <= c <= 3,
            -c * (FIX as int) <= v <= c * (FIX as int),
            div_round(v * p, s) == (if v * p >= 0 {
                (v * p + s / 2) / s
            } else {
                -((-(v * p) + s / 2) / s)
            }),
    ;
}

/// The fractional tile position at zoom zero, in nano-units of the unit
/// square.
pub fn _coord_to_tile_no_pow(coord: &Coordinate) -> (r: Position)
    requires
        projectable(*coord),
    ensures
        r == spec_coord_to_tile(*coord, 0),
{
    proof {
        vstd::arithmetic::power2::lemma2_to64();
    }
    _coord_to_tile(coord, 0)
}

/// Projects both corners of a bounding box at the given zoom.
pub fn _get_tiles_range(bounds: &[Coordinate; 2], zoom_level: i32) -> (r: [Position; 2])
    requires
        projectable(bounds[0]),
        projectable(bounds[1]),
        0 <= zoom_level <= MAX_ZOOM,
    ensures
        r[0] == spec_coord_to_tile(bounds[0], zoom_level as int),
        r[1] == spec_coord_to_tile(bounds[1], zoom_level as int),
        forall|i: int|
            0 <= i < 2 ==> 0 <= #[trigger] r[i].x <= pow2(zoom_level as nat) * (NANO as int) && -4
                * pow2(zoom_level as nat) * (NANO as int) <= r[i].y <= 4 * pow2(zoom_level as nat)
                * (NANO as int),
{
    let start: Position = _coord_to_tile(&bounds[0], zoom_level);
    let end: Position = _coord_to_tile(&bounds[1], zoom_level);
    let r: [Position; 2] = [start, end];
    proof {
        assert(r[0] == start && r[1] == end);
        assert forall|i: int|
            0 <= i < 2 implies 0 <= #[trigger] r[i].x <= pow2(zoom_level as nat) * (NANO as int)
            && -4 * pow2(zoom_level as nat) * (NANO as int) <= r[i].y <= 4 * pow2(
            zoom_level as nat,
        ) * (NANO as int) by {
            if i == 0 {
                assert(r[0] == start);
            } else {
                assert(r[1] == end);
            }
        }
    }
    r
}

} // verus!
