//! Geographic value types.
//!
//! Latitudes and longitudes are stored as signed nano-degrees (`NANO` units
//! per degree), positions in Web-Mercator tile space as nano-tiles, and
//! distances as exact rational numbers of kilometres or degrees.  The
//! conversion constant is 40075 km for a full 360-degree circumference.

use crate::arith::{div_round, i128_div_round};
use vstd::prelude::*;

verus! {

/// Sub-units per degree, tile or pixel: all fixed-point values in this crate
/// carry nine fractional decimal digits.
pub const NANO: i64 = 1_000_000_000;

/// Bound on rational numerators and denominators that keeps every product
/// taken in this crate inside `i64` / `i128` ranges.
pub const RAT_LIMIT: i64 = 1_000_000_000_000_000;

/// An exact rational number `num / den` with `den > 0`.
#[derive(Clone, Copy, Debug, PartialEq, Eq, Structural)]
pub struct Rat {
    pub num: i64,
    pub den: i64,
}

/// A rational is well formed when its denominator is positive and both parts
/// are small enough for exact cross multiplication.
pub open spec fn rat_wf(r: Rat) -> bool {
    0 < r.den <= RAT_LIMIT && -RAT_LIMIT <= r.num <= RAT_LIMIT
}

/// Equality of rationals by cross multiplication.
pub open spec fn rat_eq(a: Rat, b: Rat) -> bool {
    a.num * b.den == b.num * a.den
}

impl Rat {
    /// The rational `num / den`.
    pub fn new(num: i64, den: i64) -> (r: Rat)
        requires
            0 < den <= RAT_LIMIT,
            -RAT_LIMIT <= num <= RAT_LIMIT,
        ensures
            r == (Rat { num, den }),
            rat_wf(r),
    {
        Rat { num, den }
    }

    /// The rational with whole value `n`.
    pub fn whole(n: i64) -> (r: Rat)
        requires
            -RAT_LIMIT <= n <= RAT_LIMIT,
        ensures
            r == (Rat { num: n, den: 1i64 }),
            rat_wf(r),
    {
        Rat { num: n, den: 1 }
    }

    /// Whether the rational's value lies within `lim` in magnitude.
    pub open spec fn value_within(self, lim: int) -> bool {
        -lim * self.den <= self.num <= lim * self.den
    }

    /// The nearest multiple of `1 / NANO`, as a count of nano-units,
    /// rounding half away from zero.
    pub open spec fn spec_to_nano(self) -> int {
        div_round(self.num * NANO, self.den as int)
    }

    /// Converts to fixed point with nine fractional digits.
    pub fn to_nano(self) -> (r: i64)
        requires
            rat_wf(self),
            self.value_within(VALUE_LIMIT as int),
        ensures
            r == self.spec_to_nano(),
            -VALUE_LIMIT * NANO <= r <= VALUE_LIMIT * NANO,
    {
        let v = i128_div_round((self.num as i128) * (NANO as i128), self.den as i128);
        proof {
            lemma_to_nano_bound(self);
        }
        v as i64
    }
}

/// Bound on a rational's value (not its parts) accepted by `Rat::to_nano`.
pub const VALUE_LIMIT: i64 = 1_000_000;

/// The nano conversion of a bounded rational fits in `i64`.
proof fn lemma_to_nano_bound(r: Rat)
    requires
        rat_wf(r),
        r.value_within(VALUE_LIMIT as int),
    ensures
        -(VALUE_LIMIT as int) * (NANO as int) <= r.spec_to_nano() <= (VALUE_LIMIT as int) * (NANO
            as int),
{
    let a = r.num * NANO;
    let b = r.den as int;
    let lim = (VALUE_LIMIT as int) * (NANO as int);
    assert(-lim * b <= a <= lim * b) by (nonlinear_arith)
        requires
            -(VALUE_LIMIT as int) * r.den <= r.num <= (VALUE_LIMIT as int) * r.den,
            a == r.num * NANO,
            b == r.den as int,
            lim == (VALUE_LIMIT as int) * (NANO as int),
            b > 0,
    ;
    if a >= 0 {
        assert(0 <= (a + b / 2) / b <= lim) by (nonlinear_arith)
            requires
                0 <= a <= lim * b && 0 < b && lim > 0,
        ;
    } else {
        assert(0 <= (-a + b / 2) / b <= lim) by (nonlinear_arith)
            requires
                0 <= -a <= lim * b && 0 < b && lim > 0,
        ;
    }
}

/// A point on the globe, in nano-degrees.  Valid coordinates satisfy
/// `-90 <= lat <= 90` and `-180 <= lon <= 180` degrees.
#[derive(Clone, Copy, Debug, PartialEq, Eq, Structural)]
pub struct Coordinate {
    pub lat: i64,
    pub lon: i64,
}

/// A point in tile or pixel space, in nano-units.
#[derive(Clone, Copy, Debug, PartialEq, Eq, Structural)]
pub struct Position {
    pub x: i64,
    pub y: i64,
}

/// A length, either in kilometres or in degrees of arc.
#[derive(Clone, Copy, Debug, PartialEq, Eq, Structural)]
pub enum Distance {
    KM(Rat),
    Degrees(Rat),
}

/// Degrees per kilometre is `360 / 40075`, reduced to `72 / 8015`.
pub const DEG_PER_KM_NUM: i64 = 72;

/// See `DEG_PER_KM_NUM`.
pub const DEG_PER_KM_DEN: i64 = 8015;

/// Bound on rational parts fed to a unit conversion so that the scaled
/// numerator and denominator stay within `RAT_LIMIT`.
pub const CONV_LIMIT: i64 = 124_766_063_630;

/// Bound on a distance's value in its own unit: half a million kilometres or
/// degrees covers every scan radius many times over while keeping the nano
/// conversion of either unit within `i64`.
pub const DIST_VALUE_LIMIT: i64 = 500_000;

/// A distance whose rational fits `CONV_LIMIT` in its parts and
/// `DIST_VALUE_LIMIT` in its value can be converted exactly in `i64`.
pub open spec fn distance_wf(d: Distance) -> bool {
    match d {
        Distance::KM(r) => rat_wf(r) && -CONV_LIMIT <= r.num <= CONV_LIMIT && r.den <= CONV_LIMIT
            && r.value_within(DIST_VALUE_LIMIT as int),
        Distance::Degrees(r) => rat_wf(r) && -CONV_LIMIT <= r.num <= CONV_LIMIT && r.den
            <= CONV_LIMIT && r.value_within(DIST_VALUE_LIMIT as int),
    }
}

impl Distance {
    /// The value in kilometres: degrees scale by `40075 / 360`.
    pub open spec fn spec_to_km(self) -> Rat {
        match self {
            Distance::KM(km) => km,
            Distance::Degrees(deg) => Rat {
                num: (deg.num * DEG_PER_KM_DEN) as i64,
                den: (deg.den * DEG_PER_KM_NUM) as i64,
            },
        }
    }

    /// The value in degrees: kilometres scale by `360 / 40075`.
    pub open spec fn spec_to_degrees(self) -> Rat {
        match self {
            Distance::KM(km) => Rat {
                num: (km.num * DEG_PER_KM_NUM) as i64,
                den: (km.den * DEG_PER_KM_DEN) as i64,
            },
            Distance::Degrees(deg) => deg,
        }
    }

    /// Exact conversion to kilometres.
    pub fn to_km(&self) -> (r: Rat)
        requires
            distance_wf(*self),
        ensures
            r == self.spec_to_km(),
            rat_wf(r),
    {
        match self {
            Distance::KM(km) => *km,
            Distance::Degrees(deg) => Rat { num: deg.num * DEG_PER_KM_DEN, den: deg.den * DEG_PER_KM_NUM },
        }
    }

    /// Exact conversion to degrees.
    pub fn to_degrees(&self) -> (r: Rat)
        requires
            distance_wf(*self),
        ensures
            r == self.spec_to_degrees(),
            rat_wf(r),
    {
        match self {
            Distance::KM(km) => Rat { num: km.num * DEG_PER_KM_NUM, den: km.den * DEG_PER_KM_DEN },
            Distance::Degrees(deg) => *deg,
        }
    }

    /// The value in nano-degrees, rounded half away from zero.
    pub fn to_nano_degrees(&self) -> (r: i64)
        requires
            distance_wf(*self),
        ensures
            r == self.spec_to_degrees().spec_to_nano(),
            -VALUE_LIMIT * NANO <= r <= VALUE_LIMIT * NANO,
    {
        let deg = self.to_degrees();
        proof {
            lemma_degrees_value_bound(*self);
        }
        deg.to_nano()
    }
}

/// A well-formed distance converted to degrees stays within `VALUE_LIMIT`.
proof fn lemma_degrees_value_bound(d: Distance)
    requires
        distance_wf(d),
    ensures
        rat_wf(d.spec_to_degrees()),
        d.spec_to_degrees().value_within(VALUE_LIMIT as int),
{
    match d {
        Distance::Degrees(r) => {
            assert(r.value_within(VALUE_LIMIT as int)) by (nonlinear_arith)
                requires
                    r.value_within(DIST_VALUE_LIMIT as int),
                    r.den > 0,
            ;
        },
        Distance::KM(r) => {
            let s = d.spec_to_degrees();
            assert(rat_wf(s) && s.value_within(VALUE_LIMIT as int)) by (nonlinear_arith)
                requires
                    rat_wf(r),
                    -CONV_LIMIT <= r.num <= CONV_LIMIT,
                    r.den <= CONV_LIMIT,
                    r.value_within(DIST_VALUE_LIMIT as int),
                    s == (Rat {
                        num: (r.num * DEG_PER_KM_NUM) as i64,
                        den: (r.den * DEG_PER_KM_DEN) as i64,
                    }),
            ;
        },
    }
}

/// A well-formed distance measures at most `VALUE_LIMIT * NANO`
/// nano-degrees in magnitude.
pub proof fn lemma_range_nano_bound(d: Distance)
    requires
        distance_wf(d),
    ensures
        -(VALUE_LIMIT as int) * (NANO as int) <= d.spec_to_degrees().spec_to_nano() <= (VALUE_LIMIT
            as int) * (NANO as int),
{
    lemma_degrees_value_bound(d);
    lemma_to_nano_bound(d.spec_to_degrees());
}

/// Converting a distance to kilometres and back, or to degrees and back,
/// yields exactly the starting value: the two unit scalings are inverse
/// rationals, so no error at all is introduced.
pub proof fn lemma_distance_conversion_roundtrip(r: Rat)
    requires
        rat_wf(r),
        -CONV_LIMIT <= r.num <= CONV_LIMIT,
        r.den <= CONV_LIMIT,
    ensures
        rat_eq(Distance::Degrees(Distance::KM(r).spec_to_degrees()).spec_to_km(), r),
        rat_eq(Distance::KM(Distance::Degrees(r).spec_to_km()).spec_to_degrees(), r),
        Distance::KM(r).spec_to_km() == r,
        Distance::Degrees(r).spec_to_degrees() == r,
{
    assert(((r.num * DEG_PER_KM_NUM) * DEG_PER_KM_DEN) * r.den == r.num * ((r.den * DEG_PER_KM_NUM)
        * DEG_PER_KM_DEN)) by (nonlinear_arith);
    assert(((r.num * DEG_PER_KM_DEN) * DEG_PER_KM_NUM) * r.den == r.num * ((r.den * DEG_PER_KM_DEN)
        * DEG_PER_KM_NUM)) by (nonlinear_arith);
}

} // verus!
