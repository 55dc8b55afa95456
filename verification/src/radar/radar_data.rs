//! Turning upstream catalogue records into station data: lenient decimal
//! and timestamp parsing, frame-list assembly, viewport filtering,
//! calibration defaults and staleness demotion.
//!
//! Frame timestamps follow `YYYY-MM-DD HH:MM UTC`; anything else (the
//! upstream sometimes emits a literal placeholder instead) is silently
//! dropped.  Epoch arithmetic uses the civil-calendar day count.

use crate::common::{Coordinate, Distance, NANO};
use crate::radar::{
    coord_ok, default_priority, default_range, rd_wf, spec_default_priority, spec_default_range,
    Legends, RadarData, RadarImagery, RadarImagesData,
};
use vstd::prelude::*;
use vstd::string::StringSliceAdditionalSpecFns;

verus! {

/// Why a catalogue record or a detail payload was rejected.
#[derive(Debug)]
pub enum RadarError {
    TlcLength,
    BrcLength,
    CoordParse,
    FrameListMismatch,
    ImageDecode,
    StationBounds,
}

impl RadarError {
    /// A short human-readable account of the failure.
    pub fn message(&self) -> (r: &'static str)
        ensures
            r@ == self.spec_message(),
    {
        match self {
            RadarError::TlcLength => "station overlay top-left corner does not hold two entries",
            RadarError::BrcLength => "station overlay bottom-right corner does not hold two entries",
            RadarError::CoordParse => "station corner coordinate does not parse as a decimal",
            RadarError::FrameListMismatch => "frame time and file lists differ in length",
            RadarError::ImageDecode => "radar frame bytes do not decode as a PNG image",
            RadarError::StationBounds => "station rectangle is empty or inverted",
        }
    }

    /// See `message`.
    pub open spec fn spec_message(self) -> Seq<char> {
        match self {
            RadarError::TlcLength => "station overlay top-left corner does not hold two entries"@,
            RadarError::BrcLength => "station overlay bottom-right corner does not hold two entries"@,
            RadarError::CoordParse => "station corner coordinate does not parse as a decimal"@,
            RadarError::FrameListMismatch => "frame time and file lists differ in length"@,
            RadarError::ImageDecode => "radar frame bytes do not decode as a PNG image"@,
            RadarError::StationBounds => "station rectangle is empty or inverted"@,
        }
    }
}

/// An ASCII decimal digit.
pub open spec fn is_digit(b: u8) -> bool {
    48 <= b <= 57
}

/// Every byte a digit.
pub open spec fn all_digits(b: Seq<u8>) -> bool {
    forall|i: int| 0 <= i < b.len() ==> is_digit(#[trigger] b[i])
}

/// The value of a digit string.
pub open spec fn digits_val(b: Seq<u8>) -> int
    decreases b.len(),
{
    if b.len() == 0 {
        0
    } else {
        digits_val(b.drop_last()) * 10 + (b.last() - 48)
    }
}

/// `10^k`.
pub open spec fn ten_pow(k: nat) -> int
    decreases k,
{
    if k == 0 {
        1
    } else {
        10 * ten_pow((k - 1) as nat)
    }
}

/// `ten_pow` grows by factors of ten and stays within `10^12` up to twelve.
proof fn lemma_ten_pow_le12(k: nat)
    requires
        k <= 12,
    ensures
        1 <= ten_pow(k) <= 1_000_000_000_000,
    decreases k,
{
    if k > 0 {
        lemma_ten_pow_le12((k - 1) as nat);
        reveal_with_fuel(ten_pow, 13);
        assert(ten_pow(12) == 1_000_000_000_000);
        if k < 12 {
            lemma_ten_pow_mono((k - 1) as nat, 11);
        }
    }
}

/// `ten_pow` is monotone.
proof fn lemma_ten_pow_mono(a: nat, b: nat)
    requires
        a <= b,
    ensures
        ten_pow(a) <= ten_pow(b),
        ten_pow(a) >= 1,
    decreases b,
{
    if a == b {
        if a > 0 {
            lemma_ten_pow_mono((a - 1) as nat, (a - 1) as nat);
        }
    } else {
        lemma_ten_pow_mono(a, (b - 1) as nat);
    }
}

/// Reads the value of a digit string of at most 12 digits.
fn read_digits(b: &[u8], from: usize, to: usize) -> (r: i64)
    requires
        0 <= from <= to <= b@.len(),
        to - from <= 12,
        all_digits(b@.subrange(from as int, to as int)),
    ensures
        r == digits_val(b@.subrange(from as int, to as int)),
        0 <= r < 1_000_000_000_000,
{
    let mut i: usize = from;
    let mut val: i64 = 0;
    proof {
        assert(b@.subrange(from as int, from as int) =~= Seq::<u8>::empty());
    }
    while i < to
        invariant
            from <= i <= to,
            to <= b@.len(),
            to - from <= 12,
            all_digits(b@.subrange(from as int, to as int)),
            val == digits_val(b@.subrange(from as int, i as int)),
            0 <= val < ten_pow((i - from) as nat),
        decreases to - i,
    {
        proof {
            assert(b@.subrange(from as int, i as int + 1).drop_last() =~= b@.subrange(
                from as int,
                i as int,
            ));
            assert(b@.subrange(from as int, to as int)[i - from] == b@[i as int]);
            lemma_ten_pow_le12((i + 1 - from) as nat);
            assert(ten_pow((i + 1 - from) as nat) == 10 * ten_pow((i - from) as nat));
        }
        val = val * 10 + (b[i] - 48) as i64;
        i = i + 1;
    }
    proof {
        lemma_ten_pow_le12((to - from) as nat);
    }
    val
}

/// The fractional digits as nano-units: the first nine digits, padded with
/// zeros on the right.
pub open spec fn frac_nano(b: Seq<u8>) -> int {
    if b.len() >= 9 {
        digits_val(b.subrange(0, 9))
    } else {
        digits_val(b + Seq::new((9 - b.len()) as nat, |i: int| 48u8))
    }
}

/// What a decimal string denotes, in signed nano-units: an optional sign,
/// then digits with one optional decimal point somewhere among them (with
/// at least one digit in all), fractional digits beyond the ninth ignored.
/// An integer part of ten or more digits, or any other shape, denotes
/// nothing.
pub open spec fn spec_parse_decimal(b: Seq<u8>) -> Option<int> {
    let (neg, rest) = if b.len() > 0 && (b[0] == 45 || b[0] == 43) {
        (b[0] == 45, b.skip(1))
    } else {
        (false, b)
    };
    spec_parse_unsigned(rest, neg)
}

/// The unsigned part of `spec_parse_decimal`.
pub open spec fn spec_parse_unsigned(b: Seq<u8>, neg: bool) -> Option<int> {
    if exists|i: int| 0 <= i < b.len() && b[i] == 46 {
        let dot = choose|i: int| 0 <= i < b.len() && b[i] == 46;
        let ip = b.subrange(0, dot);
        let fp = b.subrange(dot + 1, b.len() as int);
        if all_digits(ip) && all_digits(fp) && ip.len() + fp.len() > 0 && ip.len() <= 9
            && !(exists|j: int| dot < j < b.len() && b[j] == 46) {
            let v = digits_val(ip) * NANO + frac_nano(fp);
            Some(
                if neg {
                    -v
                } else {
                    v
                },
            )
        } else {
            None
        }
    } else {
        if all_digits(b) && b.len() > 0 && b.len() <= 9 {
            let v = digits_val(b) * NANO;
            Some(
                if neg {
                    -v
                } else {
                    v
                },
            )
        } else {
            None
        }
    }
}

/// Parses a decimal string into nano-units (`spec_parse_decimal`).
#[verifier::rlimit(50)]
pub fn parse_decimal(s: &str) -> (r: Option<i64>)
    ensures
        ({
            let v = spec_parse_decimal(s.spec_bytes());
            match r {
                Option::Some(n) => v == Some(n as int),
                Option::None => v is None,
            }
        }),
{
    let b: &[u8] = s.as_bytes();
    let n: usize = b.len();
    let mut start: usize = 0;
    let mut neg: bool = false;
    if n > 0 && (b[0] == 45 || b[0] == 43) {
        neg = b[0] == 45;
        start = 1;
    }
    let ghost rest = b@.skip(start as int);
    proof {
        assert(b@ == s.spec_bytes());
        if start == 0 {
            assert(rest =~= b@);
        }
        assert(spec_parse_decimal(s.spec_bytes()) == spec_parse_unsigned(rest, neg));
        assert forall|k: int| 0 <= k < rest.len() implies rest[k] == b@[start + k] by {}
    }
    let mut dot: usize = n;
    let mut second: bool = false;
    let mut i: usize = start;
    while i < n
        invariant
            start <= i <= n,
            n == b@.len(),
            dot == n || (start <= dot < i && b@[dot as int] == 46),
            dot == n ==> forall|j: int| start <= j < i ==> b@[j] != 46,
            dot < n ==> forall|j: int| start <= j < dot ==> b@[j] != 46,
            second <==> (dot < n && exists|j: int| dot < j < i && b@[j] == 46),
        decreases n - i,
    {
        if b[i] == 46 {
            if dot == n {
                dot = i;
            } else {
                second = true;
            }
        }
        i = i + 1;
    }
    if second {
        proof {
            let d2 = choose|j: int| dot < j < n && b@[j] == 46;
            lemma_double_dot(rest, dot - start, d2 - start, neg);
        }
        return None;
    }
    if dot == n {
        proof {
            lemma_no_dot_suffix(rest, b@, start as int);
            assert(rest =~= b@.subrange(start as int, n as int));
        }
        if n == start || n - start > 9 {
            return None;
        }
        if !check_digits(b, start, n) {
            return None;
        }
        proof {
            lemma_digits_val_general(rest);
            reveal_with_fuel(ten_pow, 10);
            assert(ten_pow(rest.len()) <= 1_000_000_000) by {
                lemma_ten_pow_mono(rest.len(), 9);
            }
        }
        let v: i64 = read_digits(b, start, n) * NANO;
        if neg {
            Some(-v)
        } else {
            Some(v)
        }
    } else {
        proof {
            lemma_unique_dot(rest, dot - start, neg);
            assert(rest.subrange(0, dot - start) =~= b@.subrange(start as int, dot as int));
            assert(rest.subrange(dot - start + 1, rest.len() as int) =~= b@.subrange(
                dot as int + 1,
                n as int,
            ));
        }
        let ip_len: usize = dot - start;
        let fp_len: usize = n - dot - 1;
        if ip_len + fp_len == 0 || ip_len > 9 {
            return None;
        }
        let ip_ok: bool = check_digits(b, start, dot);
        if !ip_ok {
            return None;
        }
        let fp_ok: bool = check_digits(b, dot + 1, n);
        if !fp_ok {
            return None;
        }
        proof {
            lemma_digits_val_general(b@.subrange(start as int, dot as int));
            reveal_with_fuel(ten_pow, 10);
            lemma_ten_pow_mono(b@.subrange(start as int, dot as int).len(), 9);
        }
        let ipv: i64 = read_digits(b, start, dot);
        let fpv: i64 = read_frac(b, dot + 1, n);
        let v: i64 = ipv * NANO + fpv;
        if neg {
            Some(-v)
        } else {
            Some(v)
        }
    }
}

/// With two dots in the digits, the spec denotes nothing: whichever dot the
/// specification's choice falls on, either another dot follows it or the
/// integer part holds one.
proof fn lemma_double_dot(rest: Seq<u8>, d1: int, d2: int, neg: bool)
    requires
        0 <= d1 < d2 < rest.len(),
        rest[d1] == 46,
        rest[d2] == 46,
    ensures
        spec_parse_unsigned(rest, neg) is None,
{
    assert(exists|i: int| 0 <= i < rest.len() && rest[i] == 46);
    let c = choose|i: int| 0 <= i < rest.len() && rest[i] == 46;
    if exists|j: int| c < j < rest.len() && rest[j] == 46 {
    } else {
        assert(d2 <= c) by {
            if c < d2 {
                assert(rest[d2] == 46);
            }
        }
        assert(rest.subrange(0, c)[d1] == 46);
        assert(!is_digit(rest.subrange(0, c)[d1]));
    }
}

/// No dot in the suffix means no dot in the spec's view of it.
proof fn lemma_no_dot_suffix(rest: Seq<u8>, b: Seq<u8>, start: int)
    requires
        0 <= start <= b.len(),
        rest == b.skip(start),
        forall|j: int| start <= j < b.len() ==> b[j] != 46,
    ensures
        !(exists|i: int| 0 <= i < rest.len() && rest[i] == 46),
{
    assert forall|i: int| 0 <= i < rest.len() implies rest[i] != 46 by {
        assert(rest[i] == b[start + i]);
    }
}

/// With exactly one dot, the spec's choice is that dot and no second one
/// follows it.
proof fn lemma_unique_dot(rest: Seq<u8>, d: int, neg: bool)
    requires
        0 <= d < rest.len(),
        rest[d] == 46,
        forall|j: int| 0 <= j < rest.len() && j != d ==> rest[j] != 46,
    ensures
        exists|i: int| 0 <= i < rest.len() && rest[i] == 46,
        (choose|i: int| 0 <= i < rest.len() && rest[i] == 46) == d,
        !(exists|j: int| d < j < rest.len() && rest[j] == 46),
{
    assert(rest[d] == 46);
    let c = choose|i: int| 0 <= i < rest.len() && rest[i] == 46;
    assert(c == d);
}

/// Whether every byte of `b[from..to]` is a digit.
fn check_digits(b: &[u8], from: usize, to: usize) -> (r: bool)
    requires
        0 <= from <= to <= b@.len(),
    ensures
        r == all_digits(b@.subrange(from as int, to as int)),
{
    let mut i: usize = from;
    while i < to
        invariant
            from <= i <= to <= b@.len(),
            forall|j: int| from <= j < i ==> is_digit(#[trigger] b@[j]),
        decreases to - i,
    {
        let c: u8 = b[i];
        if c < 48 || c > 57 {
            proof {
                assert(b@.subrange(from as int, to as int)[i - from] == b@[i as int]);
            }
            return false;
        }
        i = i + 1;
    }
    proof {
        assert forall|j: int|
            0 <= j < b@.subrange(from as int, to as int).len() implies is_digit(
            #[trigger] b@.subrange(from as int, to as int)[j],
        ) by {
            assert(b@.subrange(from as int, to as int)[j] == b@[from + j]);
        }
    }
    true
}

/// Reads the fractional digits `b[from..to]` as nano-units.
fn read_frac(b: &[u8], from: usize, to: usize) -> (r: i64)
    requires
        0 <= from <= to <= b@.len(),
        all_digits(b@.subrange(from as int, to as int)),
    ensures
        r == frac_nano(b@.subrange(from as int, to as int)),
        0 <= r < 1_000_000_000,
{
    let len: usize = to - from;
    if len >= 9 {
        proof {
            assert(b@.subrange(from as int, to as int).subrange(0, 9) =~= b@.subrange(
                from as int,
                from as int + 9,
            ));
            assert(all_digits(b@.subrange(from as int, from as int + 9))) by {
                assert forall|j: int|
                    0 <= j < 9 implies is_digit(
                    #[trigger] b@.subrange(from as int, from as int + 9)[j],
                ) by {
                    assert(b@.subrange(from as int, from as int + 9)[j] == b@.subrange(
                        from as int,
                        to as int,
                    )[j]);
                }
            }
            lemma_digits_val_bound(b@.subrange(from as int, from as int + 9));
        }
        read_digits(b, from, from + 9)
    } else {
        let raw: i64 = read_digits(b, from, to);
        let ghost s0 = b@.subrange(from as int, to as int);
        let mut k: usize = len;
        let mut v: i64 = raw;
        proof {
            assert(s0 + Seq::new(0nat, |i: int| 48u8) =~= s0);
            lemma_padding(s0, (9 - len) as nat);
            lemma_digits_val_bound(s0 + Seq::new((9 - len) as nat, |i: int| 48u8));
            if len < 9 {
                lemma_padding_value(s0, (len - len) as nat, (9 - len) as nat);
            }
        }
        while k < 9
            invariant
                len <= k <= 9,
                len == to - from,
                all_digits(s0),
                s0 == b@.subrange(from as int, to as int),
                v == digits_val(s0 + Seq::new((k - len) as nat, |i: int| 48u8)),
                0 <= v,
                v <= digits_val(s0 + Seq::new((9 - len) as nat, |i: int| 48u8)),
                digits_val(s0 + Seq::new((9 - len) as nat, |i: int| 48u8)) < 1_000_000_000,
            decreases 9 - k,
        {
            proof {
                let cur = s0 + Seq::new((k - len) as nat, |i: int| 48u8);
                let next = s0 + Seq::new((k + 1 - len) as nat, |i: int| 48u8);
                assert(next.drop_last() =~= cur);
                assert(next.last() == 48u8);
                lemma_padding_value(s0, (k + 1 - len) as nat, (9 - len) as nat);
                lemma_padding(s0, (k - len) as nat);
                lemma_digits_val_general(cur);
                assert(digits_val(cur) * 10 >= 0) by (nonlinear_arith)
                    requires
                        digits_val(cur) >= 0,
                ;
            }
            v = v * 10;
            k = k + 1;
        }
        v
    }
}

/// A nine-digit string values below a billion.
proof fn lemma_digits_val_bound(b: Seq<u8>)
    requires
        b.len() == 9,
        all_digits(b),
    ensures
        0 <= digits_val(b) < 1_000_000_000,
{
    lemma_digits_val_general(b);
    reveal_with_fuel(ten_pow, 10);
    assert(ten_pow(9) == 1_000_000_000);
}

/// A digit string of length `n` values below `10^n`.
proof fn lemma_digits_val_general(b: Seq<u8>)
    requires
        all_digits(b),
    ensures
        0 <= digits_val(b) < ten_pow(b.len()),
    decreases b.len(),
{
    if b.len() == 0 {
    } else {
        assert(all_digits(b.drop_last())) by {
            assert forall|j: int| 0 <= j < b.len() - 1 implies is_digit(
                #[trigger] b.drop_last()[j],
            ) by {
                assert(b.drop_last()[j] == b[j]);
            }
        }
        lemma_digits_val_general(b.drop_last());
        assert(ten_pow(b.len()) == 10 * ten_pow((b.len() - 1) as nat));
        assert(digits_val(b.drop_last()) * 10 + (b.last() - 48) < ten_pow(
            (b.len() - 1) as nat,
        ) * 10 && digits_val(b.drop_last()) * 10 >= 0) by (nonlinear_arith)
            requires
                0 <= digits_val(b.drop_last()) < ten_pow((b.len() - 1) as nat) && b.last() - 48
                    < 10,
        ;
    }
}

/// Padding with digit zeros keeps every byte a digit.
proof fn lemma_padding(s: Seq<u8>, extra: nat)
    requires
        all_digits(s),
    ensures
        all_digits(s + Seq::new(extra, |i: int| 48u8)),
{
    let p = s + Seq::new(extra, |i: int| 48u8);
    assert forall|j: int| 0 <= j < p.len() implies is_digit(#[trigger] p[j]) by {
        if j < s.len() {
            assert(p[j] == s[j]);
        } else {
            assert(p[j] == 48u8);
        }
    }
}

/// A shorter zero padding never values more than a longer one.
proof fn lemma_padding_value(s: Seq<u8>, k: nat, m: nat)
    requires
        k <= m,
        all_digits(s),
    ensures
        digits_val(s + Seq::new(k, |i: int| 48u8)) <= digits_val(s + Seq::new(m, |i: int| 48u8)),
        digits_val(s + Seq::new(k, |i: int| 48u8)) >= 0,
    decreases m - k,
{
    lemma_padding(s, k);
    lemma_digits_val_general(s + Seq::new(k, |i: int| 48u8));
    if k < m {
        let cur = s + Seq::new(k, |i: int| 48u8);
        let next = s + Seq::new((k + 1) as nat, |i: int| 48u8);
        assert(next.drop_last() =~= cur);
        assert(next.last() == 48u8);
        assert(digits_val(next) == digits_val(cur) * 10);
        assert(digits_val(cur) * 10 >= digits_val(cur)) by (nonlinear_arith)
            requires
                digits_val(cur) >= 0,
        ;
        lemma_padding_value(s, (k + 1) as nat, m);
    }
}


/// A leap year of the proleptic Gregorian calendar.
pub open spec fn is_leap(y: int) -> bool {
    (y % 4 == 0 && y % 100 != 0) || y % 400 == 0
}

/// How many days month `m` of year `y` has.
pub open spec fn days_in_month(y: int, m: int) -> int {
    if m == 1 || m == 3 || m == 5 || m == 7 || m == 8 || m == 10 || m == 12 {
        31
    } else if m == 4 || m == 6 || m == 9 || m == 11 {
        30
    } else if is_leap(y) {
        29
    } else {
        28
    }
}

/// Days since 1970-01-01 of the civil date `(y, m, d)`, by era arithmetic
/// over 400-year cycles.
pub open spec fn spec_days_from_civil(y: int, m: int, d: int) -> int {
    let yy = if m <= 2 {
        y - 1
    } else {
        y
    };
    let era = yy / 400;
    let yoe = yy - era * 400;
    let mp = if m > 2 {
        m - 3
    } else {
        m + 9
    };
    let doy = (153 * mp + 2) / 5 + d - 1;
    let doe = yoe * 365 + yoe / 4 - yoe / 100 + doy;
    era * 146097 + doe - 719468
}

/// Computes `spec_days_from_civil` for four-digit years.
fn days_from_civil(y: i64, m: i64, d: i64) -> (r: i64)
    requires
        1 <= y <= 9999,
        1 <= m <= 12,
        1 <= d <= 31,
    ensures
        r == spec_days_from_civil(y as int, m as int, d as int),
        -800_000 <= r <= 3_000_000,
{
    let yy: i64 = if m <= 2 {
        y - 1
    } else {
        y
    };
    let era: i64 = yy / 400;
    let yoe: i64 = yy - era * 400;
    let mp: i64 = if m > 2 {
        m - 3
    } else {
        m + 9
    };
    let doy: i64 = (153 * mp + 2) / 5 + d - 1;
    proof {
        assert(0 <= era <= 24) by (nonlinear_arith)
            requires
                0 <= yy <= 9999 && era == yy / 400,
        ;
        assert(0 <= yoe <= 399) by (nonlinear_arith)
            requires
                0 <= yy <= 9999 && era == yy / 400 && yoe == yy - era * 400,
        ;
        assert(0 <= (153 * (mp as int) + 2) / 5 <= 337) by (nonlinear_arith)
            requires
                0 <= mp <= 11,
        ;
        assert(0 <= yoe / 4 <= 99 && 0 <= yoe / 100 <= 3) by (nonlinear_arith)
            requires
                0 <= yoe <= 399,
        ;
    }
    let doe: i64 = yoe * 365 + yoe / 4 - yoe / 100 + doy;
    proof {
        assert(0 <= (yoe as int) * 365 <= 146000) by (nonlinear_arith)
            requires
                0 <= yoe <= 399,
        ;
        assert(0 <= (era as int) * 146097 <= 3_700_000) by (nonlinear_arith)
            requires
                0 <= era <= 24,
        ;
    }
    era * 146097 + doe - 719468
}

/// What a frame timestamp denotes, in seconds since the epoch: exactly the
/// shape `YYYY-MM-DD HH:MM UTC` with a valid calendar date of year one or
/// later; anything else denotes nothing.
pub open spec fn spec_parse_timestamp(b: Seq<u8>) -> Option<int> {
    if b.len() == 20 && all_digits(b.subrange(0, 4)) && b[4] == 45 && all_digits(
        b.subrange(5, 7),
    ) && b[7] == 45 && all_digits(b.subrange(8, 10)) && b[10] == 32 && all_digits(
        b.subrange(11, 13),
    ) && b[13] == 58 && all_digits(b.subrange(14, 16)) && b[16] == 32 && b[17] == 85 && b[18] == 84
        && b[19] == 67 {
        let y = digits_val(b.subrange(0, 4));
        let m = digits_val(b.subrange(5, 7));
        let d = digits_val(b.subrange(8, 10));
        let h = digits_val(b.subrange(11, 13));
        let mi = digits_val(b.subrange(14, 16));
        if 1 <= y && 1 <= m <= 12 && 1 <= d <= days_in_month(y, m) && h <= 23 && mi <= 59 {
            Some(spec_days_from_civil(y, m, d) * 86400 + h * 3600 + mi * 60)
        } else {
            None
        }
    } else {
        None
    }
}

/// Parses a frame timestamp (`spec_parse_timestamp`).
pub fn parse_timestamp(s: &str) -> (r: Option<i64>)
    ensures
        ({
            let v = spec_parse_timestamp(s.spec_bytes());
            match r {
                Option::Some(t) => v == Some(t as int),
                Option::None => v is None,
            }
        }),
        r is Some ==> -100_000_000_000 <= r->0 <= 300_000_000_000,
{
    let b: &[u8] = s.as_bytes();
    if b.len() != 20 {
        return None;
    }
    if !(check_digits(b, 0, 4) && check_digits(b, 5, 7) && check_digits(b, 8, 10) && check_digits(
        b,
        11,
        13,
    ) && check_digits(b, 14, 16)) {
        return None;
    }
    if !(b[4] == 45 && b[7] == 45 && b[10] == 32 && b[13] == 58 && b[16] == 32 && b[17] == 85
        && b[18] == 84 && b[19] == 67) {
        return None;
    }
    let y: i64 = read_digits(b, 0, 4);
    let m: i64 = read_digits(b, 5, 7);
    let d: i64 = read_digits(b, 8, 10);
    let h: i64 = read_digits(b, 11, 13);
    let mi: i64 = read_digits(b, 14, 16);
    proof {
        lemma_digits_val_general(b@.subrange(0, 4));
        reveal_with_fuel(ten_pow, 5);
    }
    if !(1 <= y && 1 <= m && m <= 12 && 1 <= d && d <= days_in_month_exec(y, m) && h <= 23 && mi
        <= 59) {
        return None;
    }
    Some(days_from_civil(y, m, d) * 86400 + h * 3600 + mi * 60)
}

/// Computes `days_in_month`.
fn days_in_month_exec(y: i64, m: i64) -> (r: i64)
    requires
        1 <= y,
        1 <= m <= 12,
    ensures
        r == days_in_month(y as int, m as int),
{
    if m == 1 || m == 3 || m == 5 || m == 7 || m == 8 || m == 10 || m == 12 {
        31
    } else if m == 4 || m == 6 || m == 9 || m == 11 {
        30
    } else if (y % 4 == 0 && y % 100 != 0) || y % 400 == 0 {
        29
    } else {
        28
    }
}

/// The frames of one detail payload, oldest first as the upstream sends
/// them: a timestamp that parses pairs with its file; one that does not is
/// silently dropped.
pub open spec fn spec_frames(ts: Seq<String>, fs: Seq<String>) -> Seq<(int, Seq<char>)>
    decreases ts.len(),
{
    if ts.len() == 0 || fs.len() == 0 {
        Seq::empty()
    } else {
        let tail = spec_frames(ts.skip(1), fs.skip(1));
        match spec_parse_timestamp(vstd::utf8::encode_utf8(ts[0]@)) {
            Some(t) => seq![(t, fs[0]@)] + tail,
            None => tail,
        }
    }
}

/// Pairs frame times with frame files.  Lists of unequal length are the
/// upstream's fault and rejected; otherwise every parseable timestamp
/// becomes one frame, in order.
pub fn parse_frames(time_utc: &Vec<String>, file: &Vec<String>) -> (r: Result<
    Vec<RadarImagesData>,
    RadarError,
>)
    ensures
        time_utc@.len() != file@.len() <==> r is Err,
        r is Err ==> r->Err_0 is FrameListMismatch,
        r is Ok ==> ({
            let sel = spec_frames(time_utc@, file@);
            let v = r->Ok_0;
            &&& v@.len() == sel.len()
            &&& forall|i: int|
                0 <= i < v@.len() ==> (#[trigger] v@[i]).time == sel[i].0 && v@[i].url@ == sel[i].1
                    && -100_000_000_000 <= v@[i].time <= 300_000_000_000
        }),
{
    if time_utc.len() != file.len() {
        return Err(RadarError::FrameListMismatch);
    }
    let n: usize = time_utc.len();
    let mut result: Vec<RadarImagesData> = Vec::new();
    let mut i: usize = 0;
    proof {
        assert(time_utc@.skip(0) =~= time_utc@);
        assert(file@.skip(0) =~= file@);
    }
    while i < n
        invariant
            0 <= i <= n,
            n == time_utc@.len(),
            n == file@.len(),
            ({
                let sel = spec_frames(time_utc@, file@);
                let done = spec_frames(time_utc@.skip(i as int), file@.skip(i as int));
                &&& sel.len() == result@.len() + done.len()
                &&& forall|k: int|
                    0 <= k < result@.len() ==> (#[trigger] result@[k]).time == sel[k].0
                        && result@[k].url@ == sel[k].1 && -100_000_000_000 <= result@[k].time
                        <= 300_000_000_000
                &&& forall|k: int|
                    result@.len() <= k < sel.len() ==> sel[k] == done[k - result@.len()]
            }),
        decreases n - i,
    {
        proof {
            assert(time_utc@.skip(i as int)[0] == time_utc@[i as int]);
            assert(file@.skip(i as int)[0] == file@[i as int]);
            assert(time_utc@.skip(i as int).skip(1) =~= time_utc@.skip(i as int + 1));
            assert(file@.skip(i as int).skip(1) =~= file@.skip(i as int + 1));
        }
        let t: Option<i64> = parse_timestamp(time_utc[i].as_str());
        match t {
            Some(time) => {
                let url: String = file[i].clone();
                result.push(RadarImagesData { time, url });
            },
            None => {},
        }
        i = i + 1;
    }
    proof {
        assert(time_utc@.skip(n as int) =~= Seq::<String>::empty());
        assert(spec_frames(time_utc@.skip(n as int), file@.skip(n as int)) =~= Seq::<(
            int,
            Seq<char>,
        )>::empty());
    }
    Ok(result)
}

/// Parses the two overlay corner lists of a catalogue record into a
/// north-west/south-east bounding box, in nano-degrees.
pub fn station_bounds(overlay_tlc: &Vec<String>, overlay_brc: &Vec<String>) -> (r: Result<
    [Coordinate; 2],
    RadarError,
>)
    ensures
        overlay_tlc@.len() < 2 ==> r == Result::<[Coordinate; 2], RadarError>::Err(
            RadarError::TlcLength,
        ),
        overlay_tlc@.len() >= 2 && overlay_brc@.len() < 2 ==> r == Result::<
            [Coordinate; 2],
            RadarError,
        >::Err(RadarError::BrcLength),
        overlay_tlc@.len() >= 2 && overlay_brc@.len() >= 2 ==> ({
            let lat0 = spec_parse_decimal(vstd::utf8::encode_utf8(overlay_tlc@[0]@));
            let lon0 = spec_parse_decimal(vstd::utf8::encode_utf8(overlay_tlc@[1]@));
            let lat1 = spec_parse_decimal(vstd::utf8::encode_utf8(overlay_brc@[0]@));
            let lon1 = spec_parse_decimal(vstd::utf8::encode_utf8(overlay_brc@[1]@));
            if lat0 is Some && lon0 is Some && lat1 is Some && lon1 is Some {
                r == Result::<[Coordinate; 2], RadarError>::Ok(
                    [
                        Coordinate { lat: lat0->0 as i64, lon: lon0->0 as i64 },
                        Coordinate { lat: lat1->0 as i64, lon: lon1->0 as i64 },
                    ],
                )
            } else {
                r == Result::<[Coordinate; 2], RadarError>::Err(RadarError::CoordParse)
            }
        }),
{
    if overlay_tlc.len() < 2 {
        return Err(RadarError::TlcLength);
    }
    if overlay_brc.len() < 2 {
        return Err(RadarError::BrcLength);
    }
    let lat0: Option<i64> = parse_decimal(overlay_tlc[0].as_str());
    let lon0: Option<i64> = parse_decimal(overlay_tlc[1].as_str());
    let lat1: Option<i64> = parse_decimal(overlay_brc[0].as_str());
    let lon1: Option<i64> = parse_decimal(overlay_brc[1].as_str());
    match (lat0, lon0, lat1, lon1) {
        (Some(a), Some(b), Some(c), Some(d)) => Ok(
            [Coordinate { lat: a, lon: b }, Coordinate { lat: c, lon: d }],
        ),
        _ => Err(RadarError::CoordParse),
    }
}

/// Whether a code stands in the omit list.
pub open spec fn spec_omitted(omit: Seq<String>, code: Seq<char>) -> bool {
    exists|i: int| 0 <= i < omit.len() && omit[i]@ == code
}

impl RadarImagery {
    /// Whether a station is kept for this request: its native rectangle
    /// intersects the viewport and its code is not omitted.
    pub fn keep_station(&self, bounds: &[Coordinate; 2], code: &String) -> (r: bool)
        ensures
            r == (crate::radar::spec_rect_overlap(*bounds, self.bounds) && !spec_omitted(
                self.omit_radar@,
                code@,
            )),
    {
        if !self.is_overlapping(bounds) {
            return false;
        }
        let n: usize = self.omit_radar.len();
        let mut i: usize = 0;
        while i < n
            invariant
                0 <= i <= n,
                n == self.omit_radar@.len(),
                forall|k: int| 0 <= k < i ==> (#[trigger] self.omit_radar@[k])@ != code@,
            decreases n - i,
        {
            if self.omit_radar[i].eq(code) {
                return false;
            }
            i = i + 1;
        }
        true
    }

    /// Builds the station record: the freshest frame decides staleness
    /// (demotion to priority `-1` with the striped mark, when enforcement is
    /// on), calibration defaults fill in range and priority, and a station
    /// without a single parseable frame yields nothing.
    pub fn assemble_radar_data(
        &self,
        city: String,
        station: String,
        code: String,
        bounds: [Coordinate; 2],
        center: Coordinate,
        images: Vec<RadarImagesData>,
        legends: Legends,
        now: i64,
    ) -> (r: Option<RadarData>)
        requires
            coord_ok(bounds[0]),
            coord_ok(bounds[1]),
            coord_ok(center),
            -400_000_000_000 <= now <= 400_000_000_000,
            forall|i: int|
                0 <= i < images@.len() ==> -400_000_000_000 <= (#[trigger] images@[i]).time
                    <= 400_000_000_000,
        ensures
            images@.len() == 0 <==> r is None,
            r is Some ==> ({
                let rd = r->0;
                let stale = now - images@.last().time > self.age_threshold_secs
                    && self.enforce_age_threshold;
                &&& rd_wf(rd)
                &&& rd.bounds == bounds
                &&& rd.center == center
                &&& rd.city == city
                &&& rd.station == station
                &&& rd.code == code
                &&& rd.images == images
                &&& rd.legends == legends
                &&& rd.range == spec_default_range(code@)
                &&& rd.striped == stale
                &&& rd.priority == if stale {
                    -1int
                } else {
                    spec_default_priority(code@) as int
                }
            }),
    {
        if images.len() == 0 {
            return None;
        }
        let range: Distance = default_range(&code);
        let mut priority: i32 = default_priority(&code);
        let image_time: i64 = images[images.len() - 1].time;
        proof {
            assert(images@.last() == images@[images@.len() - 1]);
        }
        let elapsed: i64 = now - image_time;
        let mut striped: bool = false;
        if elapsed > self.age_threshold_secs && self.enforce_age_threshold {
            striped = true;
            priority = -1;
        }
        Some(
            RadarData {
                bounds,
                city,
                station,
                code,
                center,
                range,
                priority,
                striped,
                images,
                legends,
            },
        )
    }
}


/// A station's parsed palette: one unified-pixel per color string, with a
/// string that does not parse falling back to full transparency, and the
/// intensity levels kept as they came.
pub fn parse_legend(levels: Vec<i32>, colors: Vec<String>) -> (r: Legends)
    ensures
        r.levels == levels,
        r.colors@.len() == colors@.len(),
        forall|i: int|
            0 <= i < colors@.len() ==> #[trigger] r.colors@[i] == ({
                let parsed = crate::radar::color_scheme::spec_hex_to_rgb(
                    vstd::utf8::encode_utf8(colors@[i]@),
                );
                if parsed is Some {
                    parsed->0
                } else {
                    crate::canvas::transparent()
                }
            }),
{
    let n: usize = colors.len();
    let mut colors_new: Vec<crate::canvas::Rgba> = Vec::new();
    let mut i: usize = 0;
    while i < n
        invariant
            0 <= i <= n,
            n == colors@.len(),
            colors_new@.len() == i,
            forall|k: int|
                0 <= k < i ==> #[trigger] colors_new@[k] == ({
                    let parsed = crate::radar::color_scheme::spec_hex_to_rgb(
                        vstd::utf8::encode_utf8(colors@[k]@),
                    );
                    if parsed is Some {
                        parsed->0
                    } else {
                        crate::canvas::transparent()
                    }
                }),
        decreases n - i,
    {
        let parsed: Option<crate::canvas::Rgba> = crate::radar::color_scheme::hex_to_rgb(
            colors[i].as_str(),
        );
        let px: crate::canvas::Rgba = match parsed {
            Some(p) => p,
            None => crate::canvas::rgba(0, 0, 0, 0),
        };
        colors_new.push(px);
        i = i + 1;
    }
    Legends { levels, colors: colors_new }
}

} // verus!
