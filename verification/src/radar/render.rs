//! The radar composition engine: per-station passes over a shared canvas.
//!
//! For every canvas scanline inside a station's projection, the pass
//! collects the candidate longitudes where ownership can change (the
//! station's own circle crossings, competitors' circle crossings, and
//! bisectors on priority ties), keeps those on the ownership boundary, and
//! walks the intervals they delimit by nearest-neighbour resampling from
//! the station's cropped scan through the palette remap.  A cell is painted
//! only when the station owns the cell's center point (`spec_owns`), so the
//! contract carries the ownership invariant: every changed pixel is owned,
//! and since ownership is exclusive (`lemma_ownership_unique`), distinct
//! stations change disjoint pixels whatever the order of the passes.  A
//! stale station paints only a diagonal two-of-eight dither.  Within a row,
//! intervals are painted left to right and no cell is painted twice; a pass
//! that would only repaint cells with the colors they already carry leaves
//! no trace and counts as unused.

use crate::arith::{i128_div_round, i128_div_trunc};
use crate::canvas::{Canvas, Rgba, PIXEL_LIMIT};
use crate::common::{Coordinate, NANO};
use crate::radar::color_scheme::{pixel_to_color_scheme, spec_remap_from};
use crate::radar::formula::{
    considerate_floor, min_q1_q2, q_inside, qx_circ, qx_half_dist, EqResult, Q_LIMIT,
};
use crate::radar::image_crop::{CropResult, CROP_SIZE_LIMIT};
use crate::radar::radar_data::RadarError;
use crate::radar::radar_overlap::{
    copy_station, lemma_bounds_give_ownership, lemma_ownership_unique, same_geometry,
    spec_bound_of, spec_comp_match, spec_competitors, spec_owns,
};
use crate::radar::{coord_ok, rd_wf, Image, RadarData, RadarImagery, RenderResult};
use vstd::prelude::*;

verus! {

/// A candidate longitude counts as an ownership boundary when the
/// resolver's form is this close to zero, in square nano-degrees.  Candidate
/// longitudes are rounded to whole nano-degrees, which moves the quadratic
/// form by up to twice the offset from the disk center per nano-degree; the
/// threshold covers that rounding for disks up to ten degrees across, the
/// role the `10^-10` square-degree tolerance plays for the sub-nano error of
/// floating-point candidates.
pub const BOUNDARY_EPS: i128 = 20_000_000_000;

/// Whether the PNG bytes decode at all; what the decoder yields depends on
/// the bytes alone.
pub uninterp spec fn png_ok(bytes: Seq<u8>) -> bool;

/// The decoded image's width in pixels.
pub uninterp spec fn png_width(bytes: Seq<u8>) -> nat;

/// The decoded image's height in pixels.
pub uninterp spec fn png_height(bytes: Seq<u8>) -> nat;

/// The decoded image's RGBA bytes, row major, four per pixel.
pub uninterp spec fn png_pixels(bytes: Seq<u8>) -> Seq<u8>;


/// The scan bytes decode into a raster the renderer accepts: a PNG whose
/// dimensions are positive and within the size caps.
pub open spec fn spec_decode_ok(bytes: Seq<u8>) -> bool {
    &&& png_ok(bytes)
    &&& 1 <= png_width(bytes) <= CROP_SIZE_LIMIT
    &&& 1 <= png_height(bytes) <= CROP_SIZE_LIMIT
    &&& png_width(bytes) * png_height(bytes) <= PIXEL_LIMIT
}

/// The station's native rectangle is properly oriented and not degenerate.
pub open spec fn spec_station_rect_ok(d: RadarData) -> bool {
    d.bounds[1].lon - d.bounds[0].lon >= 1 && d.bounds[0].lat - d.bounds[1].lat >= 1
}

/// The latitude of the center of canvas row `b`, in nano-degrees.
pub open spec fn spec_cell_lat(viewport: [Coordinate; 2], ch: int, b: int) -> int {
    viewport[0].lat - crate::arith::div_round(
        (2 * b + 1) * (viewport[0].lat - viewport[1].lat),
        2 * ch,
    )
}

/// The longitude of the center of canvas column `a`, in nano-degrees.
pub open spec fn spec_cell_lon(viewport: [Coordinate; 2], cw: int, a: int) -> int {
    viewport[0].lon + crate::arith::div_round(
        (2 * a + 1) * (viewport[1].lon - viewport[0].lon),
        2 * cw,
    )
}

/// The pixel at `(sx, sy)` of the decoded scan.
pub open spec fn spec_png_pixel(bytes: Seq<u8>, sx: int, sy: int) -> Rgba {
    let i = sy * png_width(bytes) + sx;
    Rgba {
        r: png_pixels(bytes)[4 * i],
        g: png_pixels(bytes)[4 * i + 1],
        b: png_pixels(bytes)[4 * i + 2],
        a: png_pixels(bytes)[4 * i + 3],
    }
}

/// What holds of a pixel value a station's pass put at cell `(a, b)`: a
/// stale station keeps to the diagonal two-of-eight dither, the station
/// owns the cell's center point among all fetched stations, and the value
/// is the palette remap of one pixel of the station's decoded scan.
pub open spec fn spec_painted_ok(
    px: Rgba,
    s: RadarData,
    all: Seq<RadarData>,
    viewport: [Coordinate; 2],
    cw: int,
    ch: int,
    bytes: Seq<u8>,
    a: int,
    b: int,
) -> bool {
    &&& s.striped ==> (a + b) % 8 <= 2
    &&& spec_owns(s, all, spec_cell_lon(viewport, cw, a), spec_cell_lat(viewport, ch, b))
    &&& exists|sx: int, sy: int|
        0 <= sx < png_width(bytes) && 0 <= sy < png_height(bytes) && px == spec_remap_from(
            #[trigger] spec_png_pixel(bytes, sx, sy),
            s.legends.colors@,
            0,
        )
}

/// Every pixel a pass changed satisfies `spec_painted_ok` for its station.
pub open spec fn spec_pass_writes_ok(
    before: Canvas,
    now: Canvas,
    s: RadarData,
    all: Seq<RadarData>,
    viewport: [Coordinate; 2],
    bytes: Seq<u8>,
) -> bool {
    forall|a: int, b: int|
        0 <= a < before.width && 0 <= b < before.height && now.pixel(a, b) != before.pixel(a, b)
            ==> #[trigger] spec_painted_ok(
            now.pixel(a, b),
            s,
            all,
            viewport,
            before.width as int,
            before.height as int,
            bytes,
            a,
            b,
        )
}


/// A failed radar render: the code of the station whose pass failed and
/// what went wrong with it.
#[derive(Debug)]
pub struct RenderError {
    pub code: String,
    pub cause: RadarError,
}

/// Every recorded station agrees, on everything the resolver reads, with
/// one of the fetched stations.
pub open spec fn spec_used_from_inputs(used: Seq<RadarData>, images: Seq<Image>) -> bool {
    forall|k: int|
        #![trigger used[k]]
        0 <= k < used.len() ==> exists|i: int|
            #![trigger images[i].data]
            0 <= i < images.len() && same_geometry(used[k], images[i].data)
}


/// Distinct stations' passes change disjoint pixels: a cell one pass
/// changed is owned by that station at its center point, ownership is
/// exclusive, so no other station's pass can have changed the same cell —
/// which is why the composed canvas does not depend on the order of the
/// passes.
pub proof fn lemma_pass_changes_disjoint(
    before1: Canvas,
    now1: Canvas,
    before2: Canvas,
    now2: Canvas,
    all: Seq<RadarData>,
    i: int,
    j: int,
    viewport: [Coordinate; 2],
    bytes1: Seq<u8>,
    bytes2: Seq<u8>,
    a: int,
    b: int,
)
    requires
        0 <= i < all.len(),
        0 <= j < all.len(),
        all[i].code@ != all[j].code@,
        crate::radar::formula::spec_range_nano(all[i]) >= 0,
        crate::radar::formula::spec_range_nano(all[j]) >= 0,
        spec_pass_writes_ok(before1, now1, all[i], all, viewport, bytes1),
        spec_pass_writes_ok(before2, now2, all[j], all, viewport, bytes2),
        before2.width == before1.width,
        before2.height == before1.height,
        0 <= a < before1.width,
        0 <= b < before1.height,
        now1.pixel(a, b) != before1.pixel(a, b),
    ensures
        now2.pixel(a, b) == before2.pixel(a, b),
{
    if now2.pixel(a, b) != before2.pixel(a, b) {
        assert(spec_painted_ok(
            now1.pixel(a, b),
            all[i],
            all,
            viewport,
            before1.width as int,
            before1.height as int,
            bytes1,
            a,
            b,
        ));
        assert(spec_painted_ok(
            now2.pixel(a, b),
            all[j],
            all,
            viewport,
            before1.width as int,
            before1.height as int,
            bytes2,
            a,
            b,
        ));
        lemma_ownership_unique(
            all,
            i,
            j,
            spec_cell_lon(viewport, before1.width as int, a),
            spec_cell_lat(viewport, before1.height as int, b),
        );
    }
}

/// Relies on image's `PngDecoder` and `DynamicImage::to_rgba8`: decoding is
/// a function of the bytes alone, and the RGBA buffer holds exactly four
/// bytes per pixel of the decoded dimensions.
#[verifier::external_body]
fn decode_png_rgba(bytes: &Vec<u8>) -> (r: Result<(u32, u32, Vec<u8>), RadarError>)
    ensures
        r is Ok <==> png_ok(bytes@),
        r is Err ==> r->Err_0 is ImageDecode,
        r is Ok ==> ({
            let (w, h, d) = r->Ok_0;
            &&& w == png_width(bytes@)
            &&& h == png_height(bytes@)
            &&& d@ == png_pixels(bytes@)
            &&& d@.len() == 4 * w * h
        }),
{
    let decoder = match image::codecs::png::PngDecoder::new(std::io::Cursor::new(
        bytes.as_slice(),
    )) {
        Ok(d) => d,
        Err(_) => return Err(RadarError::ImageDecode),
    };
    let img = match image::DynamicImage::from_decoder(decoder) {
        Ok(i) => i,
        Err(_) => return Err(RadarError::ImageDecode),
    };
    let rgba = img.to_rgba8();
    Ok((rgba.width(), rgba.height(), rgba.into_raw()))
}

/// Rebuilds a canvas from a raw RGBA byte buffer.
fn canvas_from_rgba_bytes(width: u32, height: u32, data: &Vec<u8>) -> (r: Canvas)
    requires
        data@.len() == 4 * width * height,
        width * height <= PIXEL_LIMIT,
    ensures
        r.wf(),
        r.width == width,
        r.height == height,
        forall|i: int|
            0 <= i < width * height ==> #[trigger] r.data@[i] == (Rgba {
                r: data@[4 * i],
                g: data@[4 * i + 1],
                b: data@[4 * i + 2],
                a: data@[4 * i + 3],
            }),
{
    let n: usize = (width as usize) * (height as usize);
    let mut pixels: Vec<Rgba> = Vec::new();
    let mut i: usize = 0;
    while i < n
        invariant
            0 <= i <= n,
            n == width * height,
            data@.len() == 4 * width * height,
            width * height <= PIXEL_LIMIT,
            pixels@.len() == i,
            forall|k: int|
                0 <= k < i ==> #[trigger] pixels@[k] == (Rgba {
                    r: data@[4 * k],
                    g: data@[4 * k + 1],
                    b: data@[4 * k + 2],
                    a: data@[4 * k + 3],
                }),
        decreases n - i,
    {
        proof {
            assert(0 <= 4 * (i as int) && 4 * (i as int) + 3 < 4 * (width as int) * (height
                as int)) by (nonlinear_arith)
                requires
                    0 <= i < (width as int) * (height as int),
            ;
        }
        let px = Rgba {
            r: data[4 * i],
            g: data[4 * i + 1],
            b: data[4 * i + 2],
            a: data[4 * i + 3],
        };
        pixels.push(px);
        i = i + 1;
    }
    Canvas { width, height, data: pixels }
}

/// Sorts boundary longitudes ascending, by insertion: the result is
/// ordered and holds exactly the input values.
fn sort_bounds(v: Vec<i64>) -> (r: Vec<i64>)
    ensures
        r@.len() == v@.len(),
        forall|i: int, j: int| 0 <= i <= j < r@.len() ==> r@[i] <= r@[j],
        r@.to_multiset() == v@.to_multiset(),
{
    let mut v = v;
    let ghost orig = v@;
    let n: usize = v.len();
    if n == 0 {
        return v;
    }
    let mut i: usize = 1;
    while i < n
        invariant
            1 <= i <= n,
            n == v@.len(),
            v@.to_multiset() == orig.to_multiset(),
            forall|a: int, b: int| 0 <= a <= b < i ==> v@[a] <= v@[b],
        decreases n - i,
    {
        let mut j: usize = i;
        while j > 0 && v[j - 1] > v[j]
            invariant
                0 <= j <= i < n,
                n == v@.len(),
                v@.to_multiset() == orig.to_multiset(),
                forall|a: int, b: int| 0 <= a <= b < i + 1 && b != j ==> v@[a] <= v@[b],
                forall|a: int| j < a <= i ==> v@[j as int] <= v@[a],
            decreases j,
        {
            let ghost before = v@;
            let tmp: i64 = v[j - 1];
            let tmp2: i64 = v[j];
            v[j - 1] = tmp2;
            v[j] = tmp;
            proof {
                assert(v@ == before.update(j - 1, before[j as int]).update(
                    j as int,
                    before[j - 1],
                ));
                lemma_swap_keeps_multiset(before, j - 1, j as int);
            }
            j = j - 1;
        }
        i = i + 1;
    }
    v
}

/// Swapping two entries of a sequence keeps its multiset of values.
proof fn lemma_swap_keeps_multiset(s: Seq<i64>, i: int, j: int)
    requires
        0 <= i < j < s.len(),
    ensures
        s.update(i, s[j]).update(j, s[i]).to_multiset() == s.to_multiset(),
{
    broadcast use vstd::seq_lib::to_multiset_update;
    broadcast use vstd::seq_lib::to_multiset_contains;
    broadcast use vstd::multiset::group_multiset_axioms;
    broadcast use vstd::multiset::group_multiset_properties;

    let s1 = s.update(i, s[j]);
    let s2 = s1.update(j, s[i]);
    assert(s1[j] == s[j]);
    assert(s.contains(s[i]));
    assert(s1.to_multiset() == s.to_multiset().insert(s[j]).remove(s[i]));
    assert(s2.to_multiset() == s1.to_multiset().insert(s[i]).remove(s[j]));
    assert(s2.to_multiset() =~= s.to_multiset());
}

/// The latitude of a canvas row's center: the viewport's north edge moved
/// south by `(y + 1/2) / height` of the latitude span.
fn scanline_lat(north: i64, vlat: i64, y: u32, height: u32) -> (r: i64)
    requires
        -400_000_000_000 <= north <= 400_000_000_000,
        1 <= vlat <= 800_000_000_000,
        y < height,
        height <= CROP_SIZE_LIMIT,
    ensures
        r == north - crate::arith::div_round(
            (2 * y + 1) * vlat,
            2 * height as int,
        ),
        -1_300_000_000_000 <= r <= 400_000_000_000,
{
    proof {
        assert(0 <= (2 * (y as int) + 1) * (vlat as int) <= 2_000_000_000_000_000_000)
            by (nonlinear_arith)
            requires
                0 <= y < 1_000_001,
                1 <= vlat <= 800_000_000_000,
        ;
        assert(0 <= ((2 * (y as int) + 1) * (vlat as int) + (2 * (height as int)) / 2) / (2 * (
        height as int)) <= 900_000_000_000) by (nonlinear_arith)
            requires
                0 <= y < height <= 1_000_000,
                1 <= vlat <= 800_000_000_000,
        ;
    }
    let num: i128 = (2 * (y as i128) + 1) * (vlat as i128);
    let q: i128 = i128_div_round(num, 2 * (height as i128));
    north - (q as i64)
}

/// The longitude of the center of canvas column `a`: the viewport's west
/// edge moved east by `(a + 1/2) / width` of the longitude span.
fn cell_lon_of(west: i64, vlon: i64, a: u32, width: u32) -> (r: i64)
    requires
        -400_000_000_000 <= west <= 400_000_000_000,
        1 <= vlon <= 800_000_000_000,
        a < width,
        width <= CROP_SIZE_LIMIT,
    ensures
        r == west + crate::arith::div_round((2 * a + 1) * vlon, 2 * width as int),
        -400_000_000_000 <= r <= 1_300_000_000_000,
{
    proof {
        assert(0 <= (2 * (a as int) + 1) * (vlon as int) <= 2_000_000_000_000_000_000)
            by (nonlinear_arith)
            requires
                0 <= a < 1_000_001,
                1 <= vlon <= 800_000_000_000,
        ;
        assert(0 <= ((2 * (a as int) + 1) * (vlon as int) + (2 * (width as int)) / 2) / (2 * (
        width as int)) <= 900_000_000_000) by (nonlinear_arith)
            requires
                0 <= a < width <= 1_000_000,
                1 <= vlon <= 800_000_000_000,
        ;
    }
    let num: i128 = (2 * (a as i128) + 1) * (vlon as i128);
    let q: i128 = i128_div_round(num, 2 * (width as i128));
    west + (q as i64)
}

/// Whether the station owns the point: strictly inside its own disk, and
/// every listed competitor concedes it.
fn cell_owned(s: &RadarData, overlapping: &Vec<RadarData>, lon: i64, lat: i64) -> (r: bool)
    requires
        rd_wf(*s),
        forall|i: int| 0 <= i < overlapping@.len() ==> rd_wf(#[trigger] overlapping@[i]),
        -Q_LIMIT <= lon <= Q_LIMIT,
        -Q_LIMIT <= lat <= Q_LIMIT,
    ensures
        r == (crate::radar::formula::spec_q_inside(*s, lon as int, lat as int) < 0 && forall|k: int|
            0 <= k < overlapping@.len() ==> spec_bound_of(
                *s,
                #[trigger] overlapping@[k],
                lon as int,
                lat as int,
            ) < 0),
{
    let gi: i128 = q_inside(s, lon, lat);
    if gi >= 0 {
        return false;
    }
    let n: usize = overlapping.len();
    let mut k: usize = 0;
    while k < n
        invariant
            0 <= k <= n,
            n == overlapping@.len(),
            rd_wf(*s),
            forall|i: int| 0 <= i < overlapping@.len() ==> rd_wf(#[trigger] overlapping@[i]),
            -Q_LIMIT <= lon <= Q_LIMIT,
            -Q_LIMIT <= lat <= Q_LIMIT,
            forall|j: int|
                0 <= j < k ==> spec_bound_of(*s, #[trigger] overlapping@[j], lon as int, lat as int)
                    < 0,
        decreases n - k,
    {
        let t: &RadarData = &overlapping[k];
        let outside: i128 = crate::radar::formula::q_outside(t, lon, lat);
        let bound: i128 = if s.priority == t.priority {
            let hd: i128 = crate::radar::formula::q_half_dist(s, t, lon, lat);
            if hd < outside {
                hd
            } else {
                outside
            }
        } else {
            outside
        };
        if bound >= 0 {
            return false;
        }
        k = k + 1;
    }
    true
}

/// The canvas column of a longitude, truncated toward zero and clamped into
/// `[0, size]`.
fn trunc_col_sat(v: i64, origin: i64, span: i64, size: u32) -> (r: u32)
    requires
        -4_000_000_000_000 <= v <= 4_000_000_000_000,
        -4_000_000_000_000 <= origin <= 4_000_000_000_000,
        1 <= span <= 8_000_000_000_000,
        1 <= size <= CROP_SIZE_LIMIT,
    ensures
        ({
            let q = crate::arith::div_trunc((v - origin) * size, span as int);
            r == if q < 0 {
                0
            } else if q > size {
                size as int
            } else {
                q
            }
        }),
        r <= size,
{
    proof {
        assert(-80_000_000_000_000_000_000 <= ((v as int) - (origin as int)) * (size as int)
            <= 80_000_000_000_000_000_000) by (nonlinear_arith)
            requires
                -8_000_000_000_000 <= (v as int) - (origin as int) <= 8_000_000_000_000,
                1 <= size <= 1_000_000,
        ;
    }
    let num: i128 = ((v as i128) - (origin as i128)) * (size as i128);
    let q: i128 = i128_div_trunc(num, span as i128);
    if q < 0 {
        0
    } else if q > size as i128 {
        size
    } else {
        q as u32
    }
}

/// A canvas pixel count of a rounded pixel-nano position, clamped into
/// `[0, cap]`.
fn round_px_sat(v: i64, cap: u32) -> (r: u32)
    ensures
        ({
            let q = crate::arith::div_round(v as int, NANO as int);
            r == if q < 0 {
                0
            } else if q > cap {
                cap as int
            } else {
                q
            }
        }),
        r <= cap,
{
    proof {
        crate::radar::image_crop::lemma_div_round_magnitude(v as int, NANO as int);
    }
    let q: i128 = i128_div_round(v as i128, NANO as i128);
    if q < 0 {
        0
    } else if q > cap as i128 {
        cap
    } else {
        q as u32
    }
}

impl RadarImagery {
    /// One station's pass: decodes the scan, crops it against the viewport,
    /// resolves ownership per scanline and paints the owned cells.  The
    /// pass fails exactly when the scan does not decode within the size
    /// caps or the station rectangle is degenerate; otherwise it reports
    /// whether it changed the canvas, every pixel it changed satisfies
    /// `spec_painted_ok`, and a pass that changed nothing left every pixel
    /// alone.
    pub fn render_each_radar(
        &self,
        canvas: &mut Canvas,
        radars: &Vec<Image>,
        radar: &Image,
    ) -> (r: Result<bool, RadarError>)
        requires
            old(canvas).wf(),
            1 <= old(canvas).width <= CROP_SIZE_LIMIT,
            1 <= old(canvas).height <= CROP_SIZE_LIMIT,
            rd_wf(radar.data),
            forall|i: int| 0 <= i < radars@.len() ==> rd_wf(#[trigger] radars@[i].data),
            coord_ok(self.bounds[0]),
            coord_ok(self.bounds[1]),
            self.bounds[1].lon - self.bounds[0].lon >= 1,
            self.bounds[0].lat - self.bounds[1].lat >= 1,
        ensures
            final(canvas).wf(),
            final(canvas).width == old(canvas).width,
            final(canvas).height == old(canvas).height,
            r is Err <==> !(spec_decode_ok(radar.image@) && spec_station_rect_ok(radar.data)),
            r is Err ==> (r->Err_0 is ImageDecode <==> !spec_decode_ok(radar.image@)),
            r is Err ==> r->Err_0 is ImageDecode || r->Err_0 is StationBounds,
            spec_pass_writes_ok(
                *old(canvas),
                *final(canvas),
                radar.data,
                radars@.map_values(|im: Image| im.data),
                self.bounds,
                radar.image@,
            ),
            r == Result::<bool, RadarError>::Ok(false) || r is Err ==> forall|a: int, b: int|
                0 <= a < old(canvas).width && 0 <= b < old(canvas).height ==> final(canvas).pixel(
                    a,
                    b,
                ) == old(canvas).pixel(a, b),
            r == Result::<bool, RadarError>::Ok(true) ==> exists|a: int, b: int|
                0 <= a < old(canvas).width && 0 <= b < old(canvas).height && final(canvas).pixel(
                    a,
                    b,
                ) != old(canvas).pixel(a, b),
    {
        let ghost datas = radars@.map_values(|im: Image| im.data);
        let decoded: (u32, u32, Vec<u8>) = match decode_png_rgba(&radar.image) {
            Ok(d) => d,
            Err(e) => {
                return Err(e);
            },
        };
        let (iw, ih, raw): (u32, u32, Vec<u8>) = decoded;
        if iw == 0 || ih == 0 || iw > CROP_SIZE_LIMIT || ih > CROP_SIZE_LIMIT {
            return Err(RadarError::ImageDecode);
        }
        proof {
            assert(0 <= (iw as int) * (ih as int) <= 1_000_000_000_000) by (nonlinear_arith)
                requires
                    0 < iw <= 1_000_000 && 0 < ih <= 1_000_000,
            ;
        }
        if (iw as u64) * (ih as u64) > PIXEL_LIMIT {
            return Err(RadarError::ImageDecode);
        }
        if radar.data.bounds[1].lon - radar.data.bounds[0].lon < 1 || radar.data.bounds[0].lat
            - radar.data.bounds[1].lat < 1 {
            return Err(RadarError::StationBounds);
        }
        let image: Canvas = canvas_from_rgba_bytes(iw, ih, &raw);
        let cw: u32 = canvas.width;
        let ch: u32 = canvas.height;
        let cr: CropResult = self.crop(&image, &radar.data, cw, ch);
        let ghost lc = crate::radar::image_crop::spec_min_px(
            crate::radar::image_crop::spec_crop_edge_px(
                crate::radar::image_crop::spec_crop_edge_nano(
                    self.bounds[0].lon - radar.data.bounds[0].lon,
                    radar.data.bounds[1].lon - radar.data.bounds[0].lon,
                    iw as int,
                ),
            ),
            iw as int,
        );
        let ghost tc = crate::radar::image_crop::spec_min_px(
            crate::radar::image_crop::spec_crop_edge_px(
                crate::radar::image_crop::spec_crop_edge_nano(
                    radar.data.bounds[0].lat - self.bounds[0].lat,
                    radar.data.bounds[0].lat - radar.data.bounds[1].lat,
                    ih as int,
                ),
            ),
            ih as int,
        );
        proof {
            assert forall|u: int, v: int|
                0 <= u < cr.image.width && 0 <= v < cr.image.height implies #[trigger] cr.image.pixel(
                u,
                v,
            ) == spec_png_pixel(radar.image@, lc + u, tc + v) by {
                let uu = lc + u;
                let vv = tc + v;
                assert(cr.image.pixel(u, v) == image.pixel(uu, vv));
                assert(0 <= vv * (iw as int) + uu < (iw as int) * (ih as int)) by (nonlinear_arith)
                    requires
                        0 <= uu < iw as int && 0 <= vv < ih as int,
                ;
                assert(image.pixel(uu, vv) == image.data@[vv * (iw as int) + uu]);
            }
        }
        if cr.image.width == 0 || cr.image.height == 0 {
            return Ok(false);
        }
        let cb_lat: i64 = cr.cropped_bounds[0].lat - cr.cropped_bounds[1].lat;
        let cb_lon: i64 = cr.cropped_bounds[1].lon - cr.cropped_bounds[0].lon;
        if cb_lat < 1 || cb_lon < 1 {
            return Ok(false);
        }
        let y0: u32 = round_px_sat(cr.on_canvas_pos[0].y, ch);
        let y1: u32 = round_px_sat(cr.on_canvas_pos[1].y, ch);
        let overlapping: Vec<RadarData> = self.overlapping_radars(radars, radar);
        proof {
            assert(spec_comp_match(radar.data, datas, overlapping@));
        }
        let vlat: i64 = self.bounds[0].lat - self.bounds[1].lat;
        let vlon: i64 = self.bounds[1].lon - self.bounds[0].lon;
        let mut is_used: bool = false;
        let ghost mut wx: int = 0;
        let ghost mut wy: int = 0;
        let mut y: u32 = y0;
        while y < y1
            invariant
                canvas.wf(),
                canvas.width == old(canvas).width,
                canvas.height == old(canvas).height,
                cw == canvas.width,
                ch == canvas.height,
                1 <= cw <= CROP_SIZE_LIMIT,
                1 <= ch <= CROP_SIZE_LIMIT,
                y1 <= ch,
                spec_pass_writes_ok(
                    *old(canvas),
                    *canvas,
                    radar.data,
                    datas,
                    self.bounds,
                    radar.image@,
                ),
                !is_used ==> forall|a: int, b: int|
                    0 <= a < cw && 0 <= b < ch ==> canvas.pixel(a, b) == old(canvas).pixel(a, b),
                is_used ==> 0 <= wx < cw && 0 <= wy < ch && canvas.pixel(wx, wy) != old(
                    canvas,
                ).pixel(wx, wy),
                forall|a: int, b: int|
                    0 <= a < cw && y <= b < ch ==> canvas.pixel(a, b) == old(canvas).pixel(a, b),
                rd_wf(radar.data),
                forall|i: int| 0 <= i < overlapping@.len() ==> rd_wf(#[trigger] overlapping@[i]),
                coord_ok(self.bounds[0]),
                coord_ok(self.bounds[1]),
                1 <= vlon <= 800_000_000_000,
                1 <= vlat <= 800_000_000_000,
                vlat == self.bounds[0].lat - self.bounds[1].lat,
                vlon == self.bounds[1].lon - self.bounds[0].lon,
                cr.image.wf(),
                1 <= cr.image.width <= CROP_SIZE_LIMIT,
                1 <= cr.image.height <= CROP_SIZE_LIMIT,
                1 <= cb_lat <= 8_000_000_000_000,
                1 <= cb_lon <= 8_000_000_000_000,
                cb_lat == cr.cropped_bounds[0].lat - cr.cropped_bounds[1].lat,
                cb_lon == cr.cropped_bounds[1].lon - cr.cropped_bounds[0].lon,
                -3_000_000_000_000 <= cr.cropped_bounds[0].lat <= 3_000_000_000_000,
                -3_000_000_000_000 <= cr.cropped_bounds[0].lon <= 3_000_000_000_000,
                -3_000_000_000_000 <= cr.cropped_bounds[1].lon <= 3_000_000_000_000,
                -3_000_000_000_000 <= cr.accurate_bounds[0].lon <= 3_000_000_000_000,
                -3_000_000_000_000 <= cr.accurate_bounds[1].lon <= 3_000_000_000_000,
                datas == radars@.map_values(|im: Image| im.data),
                spec_comp_match(radar.data, datas, overlapping@),
                0 <= lc,
                0 <= tc,
                lc + cr.image.width <= png_width(radar.image@),
                tc + cr.image.height <= png_height(radar.image@),
                forall|u: int, v: int|
                    0 <= u < cr.image.width && 0 <= v < cr.image.height
                        ==> #[trigger] cr.image.pixel(u, v) == spec_png_pixel(
                        radar.image@,
                        lc + u,
                        tc + v,
                    ),
            decreases y1 - y,
        {
            let lat: i64 = scanline_lat(self.bounds[0].lat, vlat, y, ch);
            let mut longitude_to_check: Vec<i64> = Vec::new();
            let own_circ: EqResult = qx_circ(&radar.data, lat);
            let mut line_inside: bool = false;
            match own_circ {
                EqResult::NoResult => {},
                EqResult::Real(pos, neg) => {
                    line_inside = true;
                    longitude_to_check.push(pos);
                    longitude_to_check.push(neg);
                },
            }
            if line_inside {
                let mut k: usize = 0;
                let oc: usize = overlapping.len();
                while k < oc
                    invariant
                        0 <= k <= oc,
                        oc == overlapping@.len(),
                        rd_wf(radar.data),
                        forall|i: int|
                            0 <= i < overlapping@.len() ==> rd_wf(#[trigger] overlapping@[i]),
                        -1_300_000_000_000 <= lat <= 1_300_000_000_000,
                    decreases oc - k,
                {
                    let ov: &RadarData = &overlapping[k];
                    if radar.data.priority == ov.priority {
                        match qx_half_dist(&radar.data, ov, lat) {
                            Some(hd) => {
                                longitude_to_check.push(hd);
                            },
                            None => {},
                        }
                    }
                    if ov.priority >= radar.data.priority {
                        match qx_circ(ov, lat) {
                            EqResult::NoResult => {},
                            EqResult::Real(pos, neg) => {
                                longitude_to_check.push(pos);
                                longitude_to_check.push(neg);
                            },
                        }
                    }
                    k = k + 1;
                }
                let mut longitude_bounds: Vec<i64> = Vec::new();
                let mut c: usize = 0;
                let nc: usize = longitude_to_check.len();
                while c < nc
                    invariant
                        0 <= c <= nc,
                        nc == longitude_to_check@.len(),
                        rd_wf(radar.data),
                        forall|i: int|
                            0 <= i < overlapping@.len() ==> rd_wf(#[trigger] overlapping@[i]),
                        -1_300_000_000_000 <= lat <= 1_300_000_000_000,
                    decreases nc - c,
                {
                    let lon: i64 = longitude_to_check[c];
                    if -Q_LIMIT <= lon && lon <= Q_LIMIT {
                        let mut g: i128 = q_inside(&radar.data, lon, lat);
                        let ob: Vec<i128> = min_q1_q2(&radar.data, &overlapping, lon, lat);
                        let mut m: usize = 0;
                        let nm: usize = ob.len();
                        while m < nm
                            invariant
                                0 <= m <= nm,
                                nm == ob@.len(),
                                forall|k: int|
                                    0 <= k < ob@.len() ==> -0x1000_0000_0000_0000_0000_0000_0000_0000
                                        < #[trigger] ob@[k]
                                        < 0x1000_0000_0000_0000_0000_0000_0000_0000,
                                -0x2000_0000_0000_0000_0000_0000_0000_0000 < g
                                    < 0x2000_0000_0000_0000_0000_0000_0000_0000,
                            decreases nm - m,
                        {
                            let b: i128 = ob[m];
                            if b > g {
                                g = b;
                            }
                            m = m + 1;
                        }
                        let ga: i128 = if g < 0 {
                            -g
                        } else {
                            g
                        };
                        if ga < BOUNDARY_EPS {
                            longitude_bounds.push(lon);
                        }
                    }
                    c = c + 1;
                }
                let sorted: Vec<i64> = sort_bounds(longitude_bounds);
                let row_nano: i64 = crate::radar::image_crop::on_canvas(
                    cr.cropped_bounds[0].lat,
                    lat,
                    cb_lat,
                    cr.image.height,
                );
                if -Q_LIMIT <= row_nano && row_nano <= Q_LIMIT {
                    let floored: i64 = considerate_floor(row_nano);
                    let py_signed: i64 = if floored >= 0 {
                        floored / NANO
                    } else {
                        -1
                    };
                    if 0 <= py_signed && py_signed < cr.image.height as i64 {
                        let py: u32 = py_signed as u32;
                        let mut x: u32 = 0;
                        let mut idx: usize = 0;
                        let nb: usize = sorted.len();
                        while idx < nb
                            invariant
                                0 <= idx <= nb,
                                nb == sorted@.len(),
                                canvas.wf(),
                                canvas.width == old(canvas).width,
                                canvas.height == old(canvas).height,
                                cw == canvas.width,
                                ch == canvas.height,
                                1 <= cw <= CROP_SIZE_LIMIT,
                                1 <= ch <= CROP_SIZE_LIMIT,
                                spec_pass_writes_ok(
                                    *old(canvas),
                                    *canvas,
                                    radar.data,
                                    datas,
                                    self.bounds,
                                    radar.image@,
                                ),
                                !is_used ==> forall|a: int, b: int|
                                    0 <= a < cw && 0 <= b < ch ==> canvas.pixel(a, b) == old(
                                        canvas,
                                    ).pixel(a, b),
                                is_used ==> 0 <= wx < cw && 0 <= wy < ch && canvas.pixel(wx, wy)
                                    != old(canvas).pixel(wx, wy),
                                forall|a: int, b: int|
                                    0 <= a < cw && y < b < ch ==> canvas.pixel(a, b) == old(
                                        canvas,
                                    ).pixel(a, b),
                                forall|a: int|
                                    x <= a < cw ==> canvas.pixel(a, y as int) == old(canvas).pixel(
                                        a,
                                        y as int,
                                    ),
                                x <= cw,
                                y < y1 <= ch,
                                py < cr.image.height,
                                rd_wf(radar.data),
                                forall|i: int|
                                    0 <= i < overlapping@.len() ==> rd_wf(
                                        #[trigger] overlapping@[i],
                                    ),
                                spec_comp_match(radar.data, datas, overlapping@),
                                lat == spec_cell_lat(self.bounds, ch as int, y as int),
                                -1_300_000_000_000 <= lat <= 1_300_000_000_000,
                                cr.image.wf(),
                                1 <= cr.image.width <= CROP_SIZE_LIMIT,
                                1 <= vlon <= 800_000_000_000,
                                vlon == self.bounds[1].lon - self.bounds[0].lon,
                                coord_ok(self.bounds[0]),
                                1 <= cb_lon <= 8_000_000_000_000,
                                cb_lon == cr.cropped_bounds[1].lon - cr.cropped_bounds[0].lon,
                                -3_000_000_000_000 <= cr.cropped_bounds[0].lon
                                    <= 3_000_000_000_000,
                                -3_000_000_000_000 <= cr.cropped_bounds[1].lon
                                    <= 3_000_000_000_000,
                                -3_000_000_000_000 <= cr.accurate_bounds[0].lon
                                    <= 3_000_000_000_000,
                                -3_000_000_000_000 <= cr.accurate_bounds[1].lon
                                    <= 3_000_000_000_000,
                                0 <= lc,
                                0 <= tc,
                                lc + cr.image.width <= png_width(radar.image@),
                                tc + cr.image.height <= png_height(radar.image@),
                                forall|u: int, v: int|
                                    0 <= u < cr.image.width && 0 <= v < cr.image.height
                                        ==> #[trigger] cr.image.pixel(u, v) == spec_png_pixel(
                                        radar.image@,
                                        lc + u,
                                        tc + v,
                                    ),
                            decreases nb - idx,
                        {
                            let lb: i64 = sorted[idx];
                            let ub: i64 = if idx + 1 < nb {
                                sorted[idx + 1]
                            } else {
                                cr.cropped_bounds[1].lon
                            };
                            if !(lb > cr.accurate_bounds[1].lon || ub < cr.accurate_bounds[0].lon)
                                && -4_000_000_000_000 <= lb && ub <= 4_000_000_000_000 {
                                let lower: i64 = if lb > cr.accurate_bounds[0].lon {
                                    lb
                                } else {
                                    cr.accurate_bounds[0].lon
                                };
                                let upper: i64 = if ub < cr.accurate_bounds[1].lon {
                                    ub
                                } else {
                                    cr.accurate_bounds[1].lon
                                };
                                let lbc: u32 = trunc_col_sat(lower, self.bounds[0].lon, vlon, cw);
                                let ubc: u32 = trunc_col_sat(upper, self.bounds[0].lon, vlon, cw);
                                let lbr: i64 = crate::radar::image_crop::on_canvas(
                                    lower,
                                    cr.cropped_bounds[0].lon,
                                    cb_lon,
                                    cr.image.width,
                                );
                                let ubr: i64 = crate::radar::image_crop::on_canvas(
                                    upper,
                                    cr.cropped_bounds[0].lon,
                                    cb_lon,
                                    cr.image.width,
                                );
                                if lbc > x {
                                    x = lbc;
                                }
                                while x < ubc
                                    invariant
                                        lbc <= x,
                                        x <= cw,
                                        ubc <= cw,
                                        1 <= cw <= CROP_SIZE_LIMIT,
                                        1 <= ch <= CROP_SIZE_LIMIT,
                                        canvas.wf(),
                                        canvas.width == old(canvas).width,
                                        canvas.height == old(canvas).height,
                                        cw == canvas.width,
                                        ch == canvas.height,
                                        spec_pass_writes_ok(
                                            *old(canvas),
                                            *canvas,
                                            radar.data,
                                            datas,
                                            self.bounds,
                                            radar.image@,
                                        ),
                                        !is_used ==> forall|a: int, b: int|
                                            0 <= a < cw && 0 <= b < ch ==> canvas.pixel(a, b)
                                                == old(canvas).pixel(a, b),
                                        is_used ==> 0 <= wx < cw && 0 <= wy < ch && canvas.pixel(
                                            wx,
                                            wy,
                                        ) != old(canvas).pixel(wx, wy),
                                        forall|a: int, b: int|
                                            0 <= a < cw && y < b < ch ==> canvas.pixel(a, b)
                                                == old(canvas).pixel(a, b),
                                        forall|a: int|
                                            x <= a < cw ==> canvas.pixel(a, y as int) == old(
                                                canvas,
                                            ).pixel(a, y as int),
                                        y < ch,
                                        py < cr.image.height,
                                        rd_wf(radar.data),
                                        forall|i: int|
                                            0 <= i < overlapping@.len() ==> rd_wf(
                                                #[trigger] overlapping@[i],
                                            ),
                                        spec_comp_match(radar.data, datas, overlapping@),
                                        lat == spec_cell_lat(self.bounds, ch as int, y as int),
                                        -1_300_000_000_000 <= lat <= 1_300_000_000_000,
                                        cr.image.wf(),
                                        1 <= cr.image.width <= CROP_SIZE_LIMIT,
                                        1 <= vlon <= 800_000_000_000,
                                        vlon == self.bounds[1].lon - self.bounds[0].lon,
                                        coord_ok(self.bounds[0]),
                                        -9_300_000_000_000_000_000 <= lbr
                                            <= 9_300_000_000_000_000_000,
                                        -9_300_000_000_000_000_000 <= ubr
                                            <= 9_300_000_000_000_000_000,
                                        0 <= lc,
                                        0 <= tc,
                                        lc + cr.image.width <= png_width(radar.image@),
                                        tc + cr.image.height <= png_height(radar.image@),
                                        forall|u: int, v: int|
                                            0 <= u < cr.image.width && 0 <= v < cr.image.height
                                                ==> #[trigger] cr.image.pixel(u, v)
                                                == spec_png_pixel(radar.image@, lc + u, tc + v),
                                    decreases ubc - x,
                                {
                                    let skip_px: bool = radar.data.striped && (x + y) % 8 > 2;
                                    if !skip_px {
                                        let lon_x: i64 = cell_lon_of(
                                            self.bounds[0].lon,
                                            vlon,
                                            x,
                                            cw,
                                        );
                                        if cell_owned(&radar.data, &overlapping, lon_x, lat) {
                                            let dx: i128 = (x as i128) - (lbc as i128);
                                            let span: i128 = (ubc as i128) - (lbc as i128);
                                            proof {
                                                assert(-20_000_000_000_000_000_000_000_000_0 <= (dx
                                                    as int) * ((ubr as int) - (lbr as int))
                                                    <= 20_000_000_000_000_000_000_000_000_0)
                                                    by (nonlinear_arith)
                                                    requires
                                                        0 <= dx <= 1_000_000,
                                                        -18_600_000_000_000_000_000 <= (ubr
                                                            as int) - (lbr as int)
                                                            <= 18_600_000_000_000_000_000,
                                                ;
                                                crate::radar::image_crop::lemma_div_round_magnitude(
                                                    (dx as int) * ((ubr as int) - (lbr as int)),
                                                    span as int,
                                                );
                                            }
                                            let step: i128 = i128_div_trunc(
                                                dx * ((ubr as i128) - (lbr as i128)),
                                                span,
                                            );
                                            let pos_x_nano: i128 = (lbr as i128) + step;
                                            let px_signed: i128 = if pos_x_nano >= 0 {
                                                pos_x_nano / (NANO as i128)
                                            } else {
                                                -1
                                            };
                                            if 0 <= px_signed && px_signed < cr.image.width
                                                as i128 {
                                                let pxi: u32 = px_signed as u32;
                                                let sample: Rgba = cr.image.get_pixel(pxi, py);
                                                let mapped: Rgba = pixel_to_color_scheme(
                                                    sample,
                                                    &radar.data,
                                                );
                                                let prev: Rgba = canvas.get_pixel(x, y);
                                                if !(mapped == prev) {
                                                    proof {
                                                        lemma_bounds_give_ownership(
                                                            radar.data,
                                                            datas,
                                                            overlapping@,
                                                            lon_x as int,
                                                            lat as int,
                                                        );
                                                        assert(lon_x == spec_cell_lon(
                                                            self.bounds,
                                                            cw as int,
                                                            x as int,
                                                        ));
                                                        assert(sample == spec_png_pixel(
                                                            radar.image@,
                                                            lc + pxi,
                                                            tc + py,
                                                        ));
                                                        assert(spec_painted_ok(
                                                            mapped,
                                                            radar.data,
                                                            datas,
                                                            self.bounds,
                                                            cw as int,
                                                            ch as int,
                                                            radar.image@,
                                                            x as int,
                                                            y as int,
                                                        ));
                                                    }
                                                    let ghost before_write = *canvas;
                                                    canvas.put_pixel(x, y, mapped);
                                                    proof {
                                                        wx = x as int;
                                                        wy = y as int;
                                                        assert forall|a: int, b: int|
                                                            0 <= a < cw && 0 <= b < ch
                                                                && canvas.pixel(a, b) != old(
                                                                canvas,
                                                            ).pixel(a, b) implies #[trigger] spec_painted_ok(
                                                            canvas.pixel(a, b),
                                                            radar.data,
                                                            datas,
                                                            self.bounds,
                                                            cw as int,
                                                            ch as int,
                                                            radar.image@,
                                                            a,
                                                            b,
                                                        ) by {
                                                            if a == x as int && b == y as int {
                                                            } else {
                                                                assert(canvas.pixel(a, b)
                                                                    == before_write.pixel(a, b));
                                                            }
                                                        }
                                                    }
                                                    is_used = true;
                                                }
                                            }
                                        }
                                    }
                                    x = x + 1;
                                }
                            }
                            idx = idx + 1;
                            if idx < nb {
                                idx = idx + 1;
                            }
                        }
                    }
                }
            }
            y = y + 1;
        }
        Ok(is_used)
    }

    /// Composes every fetched station onto a fresh canvas, one pass per
    /// station.  The request fails exactly when some station's scan does
    /// not decode within the size caps or its rectangle is degenerate;
    /// otherwise every painted (non-transparent) pixel was put there by a
    /// station that owns its cell center, `used_radars` records the
    /// stations whose pass changed the canvas, and an empty record means
    /// the canvas is still fully transparent.  The passes run in sequence;
    /// exclusive ownership (`lemma_ownership_unique`) makes the painted
    /// cells of distinct stations disjoint whatever the order.
    pub fn render(&mut self, width: u32, height: u32, bounds: [Coordinate; 2], images: Vec<Image>)
        -> (r: Result<RenderResult, RenderError>)
        requires
            1 <= width <= CROP_SIZE_LIMIT,
            1 <= height <= CROP_SIZE_LIMIT,
            width * height <= PIXEL_LIMIT,
            coord_ok(bounds[0]),
            coord_ok(bounds[1]),
            bounds[1].lon - bounds[0].lon >= 1,
            bounds[0].lat - bounds[1].lat >= 1,
            forall|i: int| 0 <= i < images@.len() ==> rd_wf((#[trigger] images@[i]).data),
        ensures
            final(self).bounds == bounds,
            r is Err <==> exists|i: int|
                0 <= i < images@.len() && !(spec_decode_ok((#[trigger] images@[i]).image@)
                    && spec_station_rect_ok(images@[i].data)),
            r is Err ==> ({
                let e = r->Err_0;
                &&& e.cause is ImageDecode || e.cause is StationBounds
                &&& exists|i: int|
                    0 <= i < images@.len() && !(spec_decode_ok((#[trigger] images@[i]).image@)
                        && spec_station_rect_ok(images@[i].data)) && e.code@
                        == images@[i].data.code@ && forall|j: int|
                        0 <= j < i ==> spec_decode_ok((#[trigger] images@[j]).image@)
                            && spec_station_rect_ok(images@[j].data)
            }),
            r is Ok ==> ({
                let out = r->Ok_0;
                let datas = images@.map_values(|im: Image| im.data);
                &&& out.image.wf()
                &&& out.image.width == width
                &&& out.image.height == height
                &&& out.used_radars@.len() <= images@.len()
                &&& spec_used_from_inputs(out.used_radars@, images@)
                &&& out.used_radars@.len() == 0 ==> forall|a: int, b: int|
                    0 <= a < width && 0 <= b < height ==> out.image.pixel(a, b)
                        == crate::canvas::transparent()
                &&& forall|a: int, b: int|
                    0 <= a < width && 0 <= b < height && out.image.pixel(a, b)
                        != crate::canvas::transparent() ==> exists|i: int|
                        0 <= i < images@.len() && spec_painted_ok(
                            out.image.pixel(a, b),
                            (#[trigger] images@[i]).data,
                            datas,
                            bounds,
                            width as int,
                            height as int,
                            images@[i].image@,
                            a,
                            b,
                        )
            }),
    {
        let ghost datas = images@.map_values(|im: Image| im.data);
        self.bounds = bounds;
        let mut canvas: Canvas = Canvas::new(width, height);
        let mut used_radars: Vec<RadarData> = Vec::new();
        let mut i: usize = 0;
        let n: usize = images.len();
        while i < n
            invariant
                0 <= i <= n,
                n == images@.len(),
                datas == images@.map_values(|im: Image| im.data),
                canvas.wf(),
                canvas.width == width,
                canvas.height == height,
                1 <= width <= CROP_SIZE_LIMIT,
                1 <= height <= CROP_SIZE_LIMIT,
                coord_ok(self.bounds[0]),
                coord_ok(self.bounds[1]),
                self.bounds[1].lon - self.bounds[0].lon >= 1,
                self.bounds[0].lat - self.bounds[1].lat >= 1,
                self.bounds == bounds,
                forall|k: int| 0 <= k < images@.len() ==> rd_wf((#[trigger] images@[k]).data),
                forall|j: int|
                    0 <= j < i ==> spec_decode_ok((#[trigger] images@[j]).image@)
                        && spec_station_rect_ok(images@[j].data),
                used_radars@.len() <= i,
                spec_used_from_inputs(used_radars@, images@),
                used_radars@.len() == 0 ==> forall|a: int, b: int|
                    0 <= a < width && 0 <= b < height ==> canvas.pixel(a, b)
                        == crate::canvas::transparent(),
                forall|a: int, b: int|
                    0 <= a < width && 0 <= b < height && canvas.pixel(a, b)
                        != crate::canvas::transparent() ==> exists|j: int|
                        0 <= j < images@.len() && spec_painted_ok(
                            canvas.pixel(a, b),
                            (#[trigger] images@[j]).data,
                            datas,
                            bounds,
                            width as int,
                            height as int,
                            images@[j].image@,
                            a,
                            b,
                        ),
            decreases n - i,
        {
            let radar: &Image = &images[i];
            let ghost before_pass = canvas;
            let used: bool = match self.render_each_radar(&mut canvas, &images, radar) {
                Ok(u) => u,
                Err(e) => {
                    return Err(RenderError { code: radar.data.code.clone(), cause: e });
                },
            };
            proof {
                assert forall|a: int, b: int|
                    0 <= a < width && 0 <= b < height && canvas.pixel(a, b)
                        != crate::canvas::transparent() implies exists|j: int|
                    0 <= j < images@.len() && spec_painted_ok(
                        canvas.pixel(a, b),
                        (#[trigger] images@[j]).data,
                        datas,
                        bounds,
                        width as int,
                        height as int,
                        images@[j].image@,
                        a,
                        b,
                    ) by {
                    if canvas.pixel(a, b) != before_pass.pixel(a, b) {
                        assert(spec_painted_ok(
                            canvas.pixel(a, b),
                            images@[i as int].data,
                            datas,
                            bounds,
                            width as int,
                            height as int,
                            images@[i as int].image@,
                            a,
                            b,
                        ));
                    }
                }
            }
            if used {
                used_radars.push(copy_station(&radar.data));
            }
            i = i + 1;
        }
        Ok(RenderResult { used_radars, image: canvas })
    }
}

} // verus!
