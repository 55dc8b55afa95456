//! Radar imagery: station catalogue data, per-station calibration defaults,
//! and the request configuration.
//!
//! Times are UTC unix timestamps in seconds; coordinates are nano-degrees;
//! a station's scan radius is an exact rational `Distance`.

pub mod color_scheme;
pub mod formula;
pub mod image_crop;
pub mod radar_data;
pub mod radar_overlap;
pub mod render;

use crate::canvas::{Canvas, Rgba};
use crate::common::{distance_wf, Coordinate, Distance, Rat};
use crate::map::util::{NANO_180, NANO_360};
use vstd::prelude::*;

verus! {

/// Priority of a station without an override.
pub const DEFAULT_PRIORITY: i32 = 0;

/// Scan radius in kilometres of a station without an override.
pub const DEFAULT_RANGE_KM: i64 = 240;

/// How old the freshest frame may be before a station is demoted, in
/// seconds, when the caller does not say.
pub const DEFAULT_AGE_THRESHOLD_SECS: i64 = 20 * 60;

/// Timeout for one upstream request when the caller does not say, in
/// milliseconds.
pub const DEFAULT_RADAR_TIMEOUT_MS: u64 = 10_000;

/// One frame of a station: when it was scanned and where its image lives.
#[derive(Clone, Debug)]
pub struct RadarImagesData {
    pub time: i64,
    pub url: String,
}

/// A station's palette: intensity levels and their colors, parallel lists.
#[derive(Clone, Debug)]
pub struct Legends {
    pub levels: Vec<i32>,
    pub colors: Vec<Rgba>,
}

/// Everything known about one radar station.
#[derive(Clone, Debug)]
pub struct RadarData {
    pub bounds: [Coordinate; 2],
    pub city: String,
    pub station: String,
    pub code: String,
    pub center: Coordinate,
    pub range: Distance,
    pub priority: i32,
    pub striped: bool,
    pub images: Vec<RadarImagesData>,
    pub legends: Legends,
}

/// A coordinate within one world of longitude and latitude (the longitude
/// bound is generous so that ante-meridian arithmetic stays in range).
pub open spec fn coord_ok(c: Coordinate) -> bool {
    -NANO_180 <= c.lat <= NANO_180 && -NANO_360 <= c.lon <= NANO_360
}

/// A station the geometric resolver accepts: convertible range and bounded
/// coordinates.
pub open spec fn rd_wf(d: RadarData) -> bool {
    distance_wf(d.range) && coord_ok(d.center) && coord_ok(d.bounds[0]) && coord_ok(d.bounds[1])
}

/// A station together with the bytes of its most recent scan image.
pub struct Image {
    pub data: RadarData,
    pub image: Vec<u8>,
}

/// The outcome of a radar render: the composed canvas and the stations that
/// contributed at least one pixel.
pub struct RenderResult {
    pub used_radars: Vec<RadarData>,
    pub image: Canvas,
}

/// The scan radius a station is trusted for.  A handful of stations carry
/// calibration overrides; everything else scans `DEFAULT_RANGE_KM`.
pub open spec fn spec_default_range(code: Seq<char>) -> Distance {
    if code == "PWK"@ || code == "NGW"@ || code == "MCRC"@ {
        Distance::KM(Rat { num: 120, den: 1 })
    } else if code == "CGK"@ {
        Distance::KM(Rat { num: 85, den: 1 })
    } else if code == "IWJ"@ {
        Distance::KM(Rat { num: 160, den: 1 })
    } else {
        Distance::KM(Rat { num: DEFAULT_RANGE_KM, den: 1 })
    }
}

/// See `spec_default_range`.
pub fn default_range(code: &String) -> (r: Distance)
    ensures
        r == spec_default_range(code@),
        distance_wf(r),
{
    if str_eq(code, "PWK") || str_eq(code, "NGW") || str_eq(code, "MCRC") {
        Distance::KM(Rat { num: 120, den: 1 })
    } else if str_eq(code, "CGK") {
        Distance::KM(Rat { num: 85, den: 1 })
    } else if str_eq(code, "IWJ") {
        Distance::KM(Rat { num: 160, den: 1 })
    } else {
        Distance::KM(Rat { num: DEFAULT_RANGE_KM, den: 1 })
    }
}

/// The priority of a station: a handful of close-range stations win ties by
/// default, one coarse station is kept at the base priority.
pub open spec fn spec_default_priority(code: Seq<char>) -> i32 {
    if code == "PWK"@ || code == "NGW"@ || code == "CGK"@ || code == "MCRC"@ {
        1
    } else {
        DEFAULT_PRIORITY
    }
}

/// See `spec_default_priority`.
pub fn default_priority(code: &String) -> (r: i32)
    ensures
        r == spec_default_priority(code@),
{
    if str_eq(code, "PWK") || str_eq(code, "NGW") || str_eq(code, "CGK") || str_eq(code, "MCRC") {
        1
    } else {
        DEFAULT_PRIORITY
    }
}

/// Whether a string equals a literal, by view.
pub fn str_eq(s: &String, lit: &str) -> (r: bool)
    ensures
        r == (s@ == lit@),
{
    let owned: String = lit.to_owned();
    *s == owned
}

/// A configured radar request.
pub struct RadarImagery {
    pub bounds: [Coordinate; 2],
    pub age_threshold_secs: i64,
    pub enforce_age_threshold: bool,
    pub omit_radar: Vec<String>,
    pub timeout_ms: u64,
}

/// Collects the optional pieces of a radar request.
pub struct RadarImageryBuilder {
    pub bounds: [Coordinate; 2],
    pub age_threshold_secs: Option<i64>,
    pub enforce_age_threshold: Option<bool>,
    pub omit_radar: Option<Vec<String>>,
    pub timeout_ms: Option<u64>,
}

impl RadarImagery {
    /// Starts configuring a radar request for a viewport.
    pub fn builder(bounds: [Coordinate; 2]) -> (r: RadarImageryBuilder)
        ensures
            r == (RadarImageryBuilder {
                bounds,
                age_threshold_secs: None,
                enforce_age_threshold: None,
                omit_radar: None,
                timeout_ms: None,
            }),
    {
        RadarImageryBuilder {
            bounds,
            age_threshold_secs: None,
            enforce_age_threshold: None,
            omit_radar: None,
            timeout_ms: None,
        }
    }

    /// Whether a station's native rectangle intersects the viewport:
    /// the northernmost of the two south edges lies south of the
    /// southernmost north edge, and likewise for the east-west axis.
    pub fn is_overlapping(&self, range: &[Coordinate; 2]) -> (r: bool)
        ensures
            r == spec_rect_overlap(*range, self.bounds),
    {
        let x_start = &range[0];
        let y_start = &self.bounds[0];
        let x_end = &range[1];
        let y_end = &self.bounds[1];
        let min_start_lat: i64 = if x_start.lat < y_start.lat {
            x_start.lat
        } else {
            y_start.lat
        };
        let max_end_lat: i64 = if x_end.lat > y_end.lat {
            x_end.lat
        } else {
            y_end.lat
        };
        let max_start_lon: i64 = if x_start.lon > y_start.lon {
            x_start.lon
        } else {
            y_start.lon
        };
        let min_end_lon: i64 = if x_end.lon < y_end.lon {
            x_end.lon
        } else {
            y_end.lon
        };
        min_start_lat > max_end_lat && max_start_lon < min_end_lon
    }
}

/// Two north-west/south-east rectangles intersect when each one's north edge
/// lies north of the other's south edge and each west edge lies west of the
/// other's east edge.
pub open spec fn spec_rect_overlap(x: [Coordinate; 2], y: [Coordinate; 2]) -> bool {
    let min_start_lat = if x[0].lat < y[0].lat {
        x[0].lat
    } else {
        y[0].lat
    };
    let max_end_lat = if x[1].lat > y[1].lat {
        x[1].lat
    } else {
        y[1].lat
    };
    let max_start_lon = if x[0].lon > y[0].lon {
        x[0].lon
    } else {
        y[0].lon
    };
    let min_end_lon = if x[1].lon < y[1].lon {
        x[1].lon
    } else {
        y[1].lon
    };
    min_start_lat > max_end_lat && max_start_lon < min_end_lon
}

impl RadarImageryBuilder {
    /// Sets how old the freshest frame may be before demotion, in seconds.
    pub fn age_threshold(self, age_threshold_secs: i64) -> (r: Self)
        ensures
            r == (RadarImageryBuilder { age_threshold_secs: Some(age_threshold_secs), ..self }),
    {
        RadarImageryBuilder { age_threshold_secs: Some(age_threshold_secs), ..self }
    }

    /// Sets whether stale stations are demoted at all.
    pub fn enforce_age_threshold(self, enforce_age_threshold: bool) -> (r: Self)
        ensures
            r == (RadarImageryBuilder {
                enforce_age_threshold: Some(enforce_age_threshold),
                ..self
            }),
    {
        RadarImageryBuilder { enforce_age_threshold: Some(enforce_age_threshold), ..self }
    }

    /// Sets the station codes to leave out.
    pub fn omit_radar(self, omit_radar: Vec<String>) -> (r: Self)
        ensures
            r == (RadarImageryBuilder { omit_radar: Some(omit_radar), ..self }),
    {
        RadarImageryBuilder { omit_radar: Some(omit_radar), ..self }
    }

    /// Sets the upstream timeout in milliseconds.
    pub fn timeout_duration(self, timeout_ms: u64) -> (r: Self)
        ensures
            r == (RadarImageryBuilder { timeout_ms: Some(timeout_ms), ..self }),
    {
        RadarImageryBuilder { timeout_ms: Some(timeout_ms), ..self }
    }

    /// Finishes the request; unset knobs take their defaults.
    pub fn build(self) -> (r: RadarImagery)
        ensures
            r.bounds == self.bounds,
            r.age_threshold_secs == if self.age_threshold_secs is Some {
                self.age_threshold_secs->0
            } else {
                DEFAULT_AGE_THRESHOLD_SECS
            },
            r.enforce_age_threshold == if self.enforce_age_threshold is Some {
                self.enforce_age_threshold->0
            } else {
                false
            },
            self.omit_radar is Some ==> r.omit_radar == self.omit_radar->0,
            self.omit_radar is None ==> r.omit_radar@ =~= Seq::<String>::empty(),
            r.timeout_ms == if self.timeout_ms is Some {
                self.timeout_ms->0
            } else {
                DEFAULT_RADAR_TIMEOUT_MS
            },
    {
        let age_threshold_secs: i64 = match self.age_threshold_secs {
            Some(t) => t,
            None => DEFAULT_AGE_THRESHOLD_SECS,
        };
        let enforce_age_threshold: bool = match self.enforce_age_threshold {
            Some(e) => e,
            None => false,
        };
        let omit_radar: Vec<String> = match self.omit_radar {
            Some(o) => o,
            None => Vec::new(),
        };
        let timeout_ms: u64 = match self.timeout_ms {
            Some(t) => t,
            None => DEFAULT_RADAR_TIMEOUT_MS,
        };
        RadarImagery {
            bounds: self.bounds,
            age_threshold_secs,
            enforce_age_threshold,
            omit_radar,
            timeout_ms,
        }
    }
}

} // verus!
