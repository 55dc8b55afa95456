//! Background map imagery: tile mathematics, zoom selection and styles.

pub mod bounding;
pub mod canvas_meta;
pub mod util;

use crate::canvas::Canvas;
use crate::common::Coordinate;
use crate::map::canvas_meta::{CanvasMetadata, TILE_DIMENSION};
use crate::map::util::{
    mercator_x_fix, mercator_y_fix, projectable, spec_mercator_x_fix, spec_mercator_y_fix, FIX,
    MAX_ZOOM,
};
use vstd::arithmetic::power2::pow2;
use vstd::prelude::*;
use vstd::string::StringExecFns;

verus! {

/// Tile count a map request may fetch when the caller does not say.
pub const DEFAULT_MAX_TILES: i32 = 50;

/// Timeout for one upstream request when the caller does not say, in
/// milliseconds.
pub const DEFAULT_MAP_TIMEOUT_MS: u64 = 10_000;

/// An upstream tile style.
#[derive(Clone, Copy, Debug, PartialEq, Eq, Structural)]
pub enum MapStyle {
    OpenCycleMap,
    Transport,
    Landscape,
    Outdoors,
    Atlas,
    TransportDark,
    Spinal,
    Pioneer,
    Neighborhood,
    MobileAtlas,
}

/// How the zoom level of a map request is chosen.
pub enum ZoomSetting {
    MaxTiles(i32),
    ZoomLevel(i32),
}

/// The signed footprint of a viewport on the zoom-zero tile, at `FIX`
/// resolution: width in `.0`, height in `.1`.  Both are positive for a
/// well-oriented viewport that does not cross the ante-meridian.
pub open spec fn spec_zoom_footprint(bounds: [Coordinate; 2]) -> (int, int) {
    (
        spec_mercator_x_fix(bounds[1].lon as int) - spec_mercator_x_fix(bounds[0].lon as int),
        spec_mercator_y_fix(bounds[1].lat as int) - spec_mercator_y_fix(bounds[0].lat as int),
    )
}

/// What the chosen zoom level promises.  With footprint area `a` (at `FIX`
/// resolution) and a budget of `tiles`, the zoom is the largest `z` with
/// `a * 4^z <= 2 * tiles * FIX` — that is, the largest `z` whose tile count
/// stays within the budget after the half-step rounding of
/// `log4(tiles / area) + 1/2` — capped at `MAX_ZOOM`.  A degenerate or
/// ante-meridian footprint or an empty budget yields zoom zero; an area
/// below resolution yields the cap.
pub open spec fn spec_zoom_choice(bounds: [Coordinate; 2], tiles: int, r: int) -> bool {
    let (dx, dy) = spec_zoom_footprint(bounds);
    let a = dx * dy / (FIX as int);
    if dx <= 0 || dy <= 0 || tiles < 1 {
        r == 0
    } else if a == 0 {
        r == MAX_ZOOM
    } else {
        &&& 0 <= r <= MAX_ZOOM
        &&& r > 0 ==> a * pow2((2 * r) as nat) <= 2 * tiles * (FIX as int)
        &&& r < MAX_ZOOM ==> a * pow2((2 * r + 2) as nat) > 2 * tiles * (FIX as int)
    }
}

/// The zoom choice is monotone in the tile budget: a larger budget never
/// selects a smaller zoom.
pub proof fn lemma_zoom_choice_monotone(bounds: [Coordinate; 2], n1: int, n2: int, z1: int, z2: int)
    requires
        1 <= n1 <= n2,
        spec_zoom_choice(bounds, n1, z1),
        spec_zoom_choice(bounds, n2, z2),
    ensures
        z1 <= z2,
{
    let (dx, dy) = spec_zoom_footprint(bounds);
    let a = dx * dy / (FIX as int);
    if dx <= 0 || dy <= 0 {
    } else if a == 0 {
        assert(z1 <= MAX_ZOOM);
    } else {
        assert(a > 0) by (nonlinear_arith)
            requires
                dx > 0 && dy > 0 && a == dx * dy / (FIX as int) && a != 0 && FIX
                    == 1_000_000_000_000_000_000i128,
        ;
        if z1 > z2 {
            assert(z1 > 0);
            vstd::arithmetic::power2::lemma_pow2_adds((2 * z2 + 2) as nat, (2 * z1 - 2 * z2
                - 2) as nat);
            vstd::arithmetic::power2::lemma_pow2_pos((2 * z1 - 2 * z2 - 2) as nat);
            assert(a * pow2((2 * z1) as nat) >= a * pow2((2 * z2 + 2) as nat)) by (nonlinear_arith)
                requires
                    a > 0,
                    pow2((2 * z1) as nat) == pow2((2 * z2 + 2) as nat) * pow2((2 * z1 - 2 * z2
                        - 2) as nat),
                    pow2((2 * z1 - 2 * z2 - 2) as nat) >= 1,
                    pow2((2 * z2 + 2) as nat) >= 0,
            ;
        }
    }
}

/// A configured map request: the viewport, the zoom, the style and the
/// upstream timeout.
pub struct MapImagery {
    pub bounds: [Coordinate; 2],
    pub zoom_level: i32,
    pub style: MapStyle,
    pub timeout_ms: u64,
}

/// A map request is well formed when its corners project and its zoom is in
/// range, which `MapImageryBuilder::build` establishes.
pub open spec fn map_wf(m: MapImagery) -> bool {
    projectable(m.bounds[0]) && projectable(m.bounds[1]) && 0 <= m.zoom_level <= MAX_ZOOM
}

impl MapImagery {
    /// Starts configuring a map request for a viewport.
    pub fn builder(bounds: [Coordinate; 2]) -> (r: MapImageryBuilder)
        ensures
            r == MapImageryBuilder::spec_new(bounds),
    {
        MapImageryBuilder::new(bounds)
    }

    /// The canvas metadata of this request.
    pub fn metadata(&self) -> (r: CanvasMetadata)
        requires
            map_wf(*self),
        ensures
            r.range[0] == crate::map::util::spec_coord_to_tile(self.bounds[0], self.zoom_level
                as int),
            r.range[1] == crate::map::util::spec_coord_to_tile(self.bounds[1], self.zoom_level
                as int),
            r.z == self.zoom_level,
            crate::map::canvas_meta::cm_wf(r),
    {
        CanvasMetadata::new(self.bounds, self.zoom_level)
    }

    /// The viewport's projected metadata, as a spec value.
    pub open spec fn spec_metadata(self) -> CanvasMetadata {
        CanvasMetadata {
            range: [
                crate::map::util::spec_coord_to_tile(self.bounds[0], self.zoom_level as int),
                crate::map::util::spec_coord_to_tile(self.bounds[1], self.zoom_level as int),
            ],
            z: self.zoom_level,
        }
    }

    /// The pixel size of the finished map: the cropped canvas dimensions of
    /// this request's metadata.
    pub fn get_image_size(&self) -> (r: (u32, u32))
        requires
            map_wf(*self),
        ensures
            (r.0 as int, r.1 as int) == self.spec_metadata().spec_dimensions(),
    {
        let meta: CanvasMetadata = self.metadata();
        proof {
            broadcast use vstd::array::group_array_axioms;

            assert(meta.range =~= self.spec_metadata().range);
            assert(meta == self.spec_metadata());
        }
        meta.dimensions()
    }
}

/// Collects the optional pieces of a map request.
pub struct MapImageryBuilder {
    pub bounds: [Coordinate; 2],
    pub zoom_setting: Option<ZoomSetting>,
    pub style: Option<MapStyle>,
    pub timeout_ms: Option<u64>,
}

impl MapImageryBuilder {
    /// A fresh builder: everything but the viewport still unset.
    pub open spec fn spec_new(bounds: [Coordinate; 2]) -> MapImageryBuilder {
        MapImageryBuilder { bounds, zoom_setting: None, style: None, timeout_ms: None }
    }

    /// Starts a builder for a viewport.
    pub fn new(bounds: [Coordinate; 2]) -> (r: Self)
        ensures
            r == Self::spec_new(bounds),
    {
        MapImageryBuilder { bounds, zoom_setting: None, style: None, timeout_ms: None }
    }

    /// The largest zoom whose tile count stays within the budget after the
    /// half-step rounding (see `spec_zoom_choice`).
    pub fn auto_zoom_level(&self, tiles: i32) -> (r: i32)
        requires
            projectable(self.bounds[0]),
            projectable(self.bounds[1]),
        ensures
            spec_zoom_choice(self.bounds, tiles as int, r as int),
    {
        let x0: i128 = mercator_x_fix(self.bounds[0].lon);
        let x1: i128 = mercator_x_fix(self.bounds[1].lon);
        let y0: i128 = mercator_y_fix(self.bounds[0].lat);
        let y1: i128 = mercator_y_fix(self.bounds[1].lat);
        let dx: i128 = x1 - x0;
        let dy: i128 = y1 - y0;
        if dx <= 0 || dy <= 0 || tiles < 1 {
            return 0;
        }
        proof {
            assert(0 <= dx * dy <= 6_000_000_000_000_000_000_000_000_000_000_000_000 && dx * dy
                / (FIX as int) <= 6_000_000_000_000_000_000) by (nonlinear_arith)
                requires
                    0 < dx <= FIX as int,
                    0 < dy <= 6 * (FIX as int),
                    FIX == 1_000_000_000_000_000_000i128,
            ;
        }
        let a: i128 = dx * dy / FIX;
        if a == 0 {
            return MAX_ZOOM;
        }
        let lim: i128 = 2 * (tiles as i128) * FIX;
        let mut z: i32 = 0;
        let mut p4: i128 = 1;
        proof {
            vstd::arithmetic::power2::lemma2_to64();
        }
        while z < MAX_ZOOM
            invariant
                0 <= z <= MAX_ZOOM,
                p4 == pow2((2 * z) as nat),
                1 <= p4 <= 0x1000_0000_0000_0000,
                0 < a <= 6_000_000_000_000_000_000,
                z > 0 ==> a * p4 <= lim,
                lim == 2 * (tiles as int) * (FIX as int),
                1 <= tiles,
            ensures
                0 <= z <= MAX_ZOOM,
                z > 0 ==> a * pow2((2 * z) as nat) <= lim,
                z < MAX_ZOOM ==> a * pow2((2 * z + 2) as nat) > lim,
            decreases MAX_ZOOM - z,
        {
            proof {
                vstd::arithmetic::power2::lemma_pow2_adds((2 * z) as nat, 2);
                vstd::arithmetic::power2::lemma2_to64();
                assert(0 < a * (p4 * 4) <= 30_000_000_000_000_000_000_000_000_000_000_000_000)
                    by (nonlinear_arith)
                    requires
                        0 < a <= 6_000_000_000_000_000_000,
                        1 <= p4 <= 0x1000_0000_0000_0000,
                ;
            }
            let next: i128 = a * (p4 * 4);
            if next > lim {
                break ;
            }
            proof {
                vstd::arithmetic::power2::lemma_pow2_strictly_increases((2 * z + 2) as nat, 62);
                vstd::arithmetic::power2::lemma2_to64_rest();
            }
            z = z + 1;
            p4 = p4 * 4;
        }
        z
    }

    /// Sets how the zoom is chosen.
    pub fn zoom_setting(self, zoom_setting: ZoomSetting) -> (r: Self)
        ensures
            r == (MapImageryBuilder { zoom_setting: Some(zoom_setting), ..self }),
    {
        MapImageryBuilder { zoom_setting: Some(zoom_setting), ..self }
    }

    /// Sets the tile style.
    pub fn map_style(self, style: MapStyle) -> (r: Self)
        ensures
            r == (MapImageryBuilder { style: Some(style), ..self }),
    {
        MapImageryBuilder { style: Some(style), ..self }
    }

    /// Sets the upstream timeout in milliseconds.
    pub fn timeout_duration(self, timeout_ms: u64) -> (r: Self)
        ensures
            r == (MapImageryBuilder { timeout_ms: Some(timeout_ms), ..self }),
    {
        MapImageryBuilder { timeout_ms: Some(timeout_ms), ..self }
    }

    /// Finishes the request.  A requested zoom level is clamped into
    /// `0..=MAX_ZOOM`; a tile budget (or the default budget, when nothing
    /// was set) selects the zoom as `spec_zoom_choice` says; style and
    /// timeout fall back to Transport and `DEFAULT_MAP_TIMEOUT_MS`.
    pub fn build(&self) -> (r: MapImagery)
        requires
            projectable(self.bounds[0]),
            projectable(self.bounds[1]),
        ensures
            map_wf(r),
            r.bounds == self.bounds,
            match self.zoom_setting {
                Some(ZoomSetting::ZoomLevel(zl)) => r.zoom_level == if zl < 0 {
                    0
                } else if zl > MAX_ZOOM {
                    MAX_ZOOM as int
                } else {
                    zl as int
                },
                Some(ZoomSetting::MaxTiles(tiles)) => spec_zoom_choice(
                    self.bounds,
                    tiles as int,
                    r.zoom_level as int,
                ),
                None => spec_zoom_choice(
                    self.bounds,
                    DEFAULT_MAX_TILES as int,
                    r.zoom_level as int,
                ),
            },
            r.style == if self.style is Some {
                self.style->0
            } else {
                MapStyle::Transport
            },
            r.timeout_ms == if self.timeout_ms is Some {
                self.timeout_ms->0
            } else {
                DEFAULT_MAP_TIMEOUT_MS
            },
    {
        let zoom_level: i32 = match &self.zoom_setting {
            Some(ZoomSetting::ZoomLevel(zl)) => {
                if *zl < 0 {
                    0
                } else if *zl > MAX_ZOOM {
                    MAX_ZOOM
                } else {
                    *zl
                }
            },
            Some(ZoomSetting::MaxTiles(tiles)) => self.auto_zoom_level(*tiles),
            None => self.auto_zoom_level(DEFAULT_MAX_TILES),
        };
        let style: MapStyle = match &self.style {
            Some(s) => *s,
            None => MapStyle::Transport,
        };
        let timeout_ms: u64 = match &self.timeout_ms {
            Some(t) => *t,
            None => DEFAULT_MAP_TIMEOUT_MS,
        };
        proof {
            lemma_zoom_in_range(self.bounds, zoom_level as int);
        }
        MapImagery { bounds: self.bounds, zoom_level, style, timeout_ms }
    }
}

/// Any zoom satisfying a zoom choice lies in `0..=MAX_ZOOM`.
proof fn lemma_zoom_in_range(bounds: [Coordinate; 2], z: int)
    ensures
        (exists|t: int| spec_zoom_choice(bounds, t, z)) ==> 0 <= z <= MAX_ZOOM,
{
}


/// The decimal digit character of `d`.
pub open spec fn digit_char(d: nat) -> char {
    if d == 0 {
        '0'
    } else if d == 1 {
        '1'
    } else if d == 2 {
        '2'
    } else if d == 3 {
        '3'
    } else if d == 4 {
        '4'
    } else if d == 5 {
        '5'
    } else if d == 6 {
        '6'
    } else if d == 7 {
        '7'
    } else if d == 8 {
        '8'
    } else {
        '9'
    }
}

/// The decimal digits of `n`, most significant first.
pub open spec fn spec_decimal(n: nat) -> Seq<char>
    decreases n,
{
    if n < 10 {
        seq![digit_char(n)]
    } else {
        spec_decimal(n / 10) + seq![digit_char(n % 10)]
    }
}

/// One digit as a string.
fn digit_str(d: u32) -> (r: &'static str)
    requires
        d < 10,
    ensures
        r@ == seq![digit_char(d as nat)],
{
    proof {
        reveal_strlit("0");
        reveal_strlit("1");
        reveal_strlit("2");
        reveal_strlit("3");
        reveal_strlit("4");
        reveal_strlit("5");
        reveal_strlit("6");
        reveal_strlit("7");
        reveal_strlit("8");
        reveal_strlit("9");
    }
    let r: &'static str = if d == 0 {
        "0"
    } else if d == 1 {
        "1"
    } else if d == 2 {
        "2"
    } else if d == 3 {
        "3"
    } else if d == 4 {
        "4"
    } else if d == 5 {
        "5"
    } else if d == 6 {
        "6"
    } else if d == 7 {
        "7"
    } else if d == 8 {
        "8"
    } else {
        "9"
    };
    proof {
        assert(r@ =~= seq![digit_char(d as nat)]);
    }
    r
}

/// Writes `n` in decimal.
pub fn u32_to_string(n: u32) -> (r: String)
    ensures
        r@ == spec_decimal(n as nat),
    decreases n,
{
    if n < 10 {
        String::from_str(digit_str(n))
    } else {
        let s: String = u32_to_string(n / 10);
        let out: String = s.concat(digit_str(n % 10));
        out
    }
}

/// The upstream base of each tile style.
pub open spec fn spec_style_base(style: MapStyle) -> Seq<char> {
    match style {
        MapStyle::OpenCycleMap => "https://tile.thunderforest.com/cycle"@,
        MapStyle::Transport => "https://tile.thunderforest.com/transport"@,
        MapStyle::Landscape => "https://tile.thunderforest.com/landscape"@,
        MapStyle::Outdoors => "https://tile.thunderforest.com/outdoors"@,
        MapStyle::Atlas => "https://tile.thunderforest.com/atlas"@,
        MapStyle::TransportDark => "https://tile.thunderforest.com/transport-dark"@,
        MapStyle::Spinal => "https://tile.thunderforest.com/spinal-map"@,
        MapStyle::Pioneer => "https://tile.thunderforest.com/pioneer"@,
        MapStyle::Neighborhood => "https://tile.thunderforest.com/neighbourhood"@,
        MapStyle::MobileAtlas => "https://tile.thunderforest.com/mobile-atlas"@,
    }
}

impl MapStyle {
    /// The upstream base of this style.
    pub fn base_url(&self) -> (r: &'static str)
        ensures
            r@ == spec_style_base(*self),
    {
        match self {
            MapStyle::OpenCycleMap => "https://tile.thunderforest.com/cycle",
            MapStyle::Transport => "https://tile.thunderforest.com/transport",
            MapStyle::Landscape => "https://tile.thunderforest.com/landscape",
            MapStyle::Outdoors => "https://tile.thunderforest.com/outdoors",
            MapStyle::Atlas => "https://tile.thunderforest.com/atlas",
            MapStyle::TransportDark => "https://tile.thunderforest.com/transport-dark",
            MapStyle::Spinal => "https://tile.thunderforest.com/spinal-map",
            MapStyle::Pioneer => "https://tile.thunderforest.com/pioneer",
            MapStyle::Neighborhood => "https://tile.thunderforest.com/neighbourhood",
            MapStyle::MobileAtlas => "https://tile.thunderforest.com/mobile-atlas",
        }
    }

    /// The path of one tile of this style: `<base>/<z>/<x>/<y>.png`.  The
    /// caller appends its upstream credentials.
    pub fn url_path(&self, x: u32, y: u32, z: i32) -> (r: String)
        requires
            z >= 0,
        ensures
            r@ == spec_style_base(*self) + "/"@ + spec_decimal(z as nat) + "/"@ + spec_decimal(
                x as nat,
            ) + "/"@ + spec_decimal(y as nat) + ".png"@,
    {
        let mut out: String = String::from_str(self.base_url());
        out.append("/");
        out.append(u32_to_string(z as u32).as_str());
        out.append("/");
        out.append(u32_to_string(x).as_str());
        out.append("/");
        out.append(u32_to_string(y).as_str());
        out.append(".png");
        out
    }
}


/// Cap on the tile count of one stitched grid, a machine limit keeping the
/// stitched canvas within the raster size cap.
pub const STITCH_TILE_LIMIT: u32 = 16384;

/// A tile grid the stitcher accepts: a non-empty `cols * rows` grid within
/// the cap whose tiles are all standard 256-pixel squares.
pub open spec fn spec_grid_ok(tiles: Seq<Canvas>, cols: int, rows: int) -> bool {
    &&& 1 <= cols
    &&& 1 <= rows
    &&& cols * rows == tiles.len()
    &&& cols * rows <= STITCH_TILE_LIMIT
    &&& forall|i: int|
        0 <= i < tiles.len() ==> (#[trigger] tiles[i]).width == TILE_DIMENSION && tiles[i].height
            == TILE_DIMENSION
}

/// Stitches a row-major grid of map tiles into one canvas: tile `i` lands
/// at cell `(i % cols, i / cols)` of the grid.  A grid that is empty,
/// over the cap, of the wrong length, or holding an oddly-sized tile yields
/// nothing.
pub fn stitch_tiles(tiles: &Vec<Canvas>, cols: u32, rows: u32) -> (r: Option<Canvas>)
    requires
        forall|i: int| 0 <= i < tiles@.len() ==> (#[trigger] tiles@[i]).wf(),
    ensures
        r is Some <==> spec_grid_ok(tiles@, cols as int, rows as int),
        r is Some ==> ({
            let c = r->0;
            &&& c.wf()
            &&& c.width == cols * TILE_DIMENSION
            &&& c.height == rows * TILE_DIMENSION
            &&& forall|i: int, dx: int, dy: int|
                0 <= i < tiles@.len() && 0 <= dx < TILE_DIMENSION && 0 <= dy < TILE_DIMENSION
                    ==> c.pixel(
                    (i % (cols as int)) * TILE_DIMENSION + dx,
                    (i / (cols as int)) * TILE_DIMENSION + dy,
                ) == #[trigger] (tiles@[i].pixel(dx, dy))
        }),
{
    if cols < 1 || rows < 1 {
        return None;
    }
    proof {
        assert(0 < (cols as int) * (rows as int) <= 0xFFFF_FFFE_0000_0001) by (nonlinear_arith)
            requires
                1 <= cols <= 0xFFFF_FFFFu64 && 1 <= rows <= 0xFFFF_FFFFu64,
        ;
    }
    if (cols as u64) * (rows as u64) > STITCH_TILE_LIMIT as u64 {
        return None;
    }
    let n: usize = tiles.len();
    if (cols as u64) * (rows as u64) != n as u64 {
        return None;
    }
    let mut i: usize = 0;
    while i < n
        invariant
            0 <= i <= n,
            n == tiles@.len(),
            forall|j: int|
                0 <= j < i ==> (#[trigger] tiles@[j]).width == TILE_DIMENSION && tiles@[j].height
                    == TILE_DIMENSION,
        decreases n - i,
    {
        if tiles[i].width != TILE_DIMENSION || tiles[i].height != TILE_DIMENSION {
            return None;
        }
        i = i + 1;
    }
    proof {
        assert((cols as int) * (rows as int) * (TILE_DIMENSION as int) * (TILE_DIMENSION as int)
            <= 0x4000_0000 && (cols as int) * (TILE_DIMENSION as int) * ((rows as int) * (
        TILE_DIMENSION as int)) == (cols as int) * (rows as int) * (TILE_DIMENSION as int) * (
        TILE_DIMENSION as int)) by (nonlinear_arith)
            requires
                1 <= (cols as int) * (rows as int) <= 16384,
                1 <= cols,
                1 <= rows,
                TILE_DIMENSION == 256u32,
        ;
    }
    proof {
        assert(cols <= 16384 && rows <= 16384) by (nonlinear_arith)
            requires
                1 <= cols && 1 <= rows && (cols as int) * (rows as int) <= 16384,
        ;
    }
    let mut canvas: Canvas = Canvas::new(cols * TILE_DIMENSION, rows * TILE_DIMENSION);
    let mut i: usize = 0;
    while i < n
        invariant
            0 <= i <= n,
            n == tiles@.len(),
            n == (cols as int) * (rows as int),
            n <= STITCH_TILE_LIMIT,
            1 <= cols,
            1 <= rows,
            canvas.wf(),
            canvas.width == cols * TILE_DIMENSION,
            canvas.height == rows * TILE_DIMENSION,
            forall|j: int| 0 <= j < tiles@.len() ==> (#[trigger] tiles@[j]).wf(),
            forall|j: int|
                0 <= j < n ==> (#[trigger] tiles@[j]).width == TILE_DIMENSION && tiles@[j].height
                    == TILE_DIMENSION,
            forall|j: int, dx: int, dy: int|
                0 <= j < i && 0 <= dx < TILE_DIMENSION && 0 <= dy < TILE_DIMENSION ==> canvas.pixel(
                    (j % (cols as int)) * TILE_DIMENSION + dx,
                    (j / (cols as int)) * TILE_DIMENSION + dy,
                ) == #[trigger] (tiles@[j].pixel(dx, dy)),
        decreases n - i,
    {
        let col: u32 = (i as u32) % cols;
        let row: u32 = (i as u32) / cols;
        proof {
            assert(0 <= (i as int) % (cols as int) < cols && 0 <= (i as int) / (cols as int) < rows)
                by (nonlinear_arith)
                requires
                    0 <= i < (cols as int) * (rows as int),
                    1 <= cols,
                    1 <= rows,
            ;
        }
        let cx: u32 = col * TILE_DIMENSION;
        let cy: u32 = row * TILE_DIMENSION;
        proof {
            assert(((i as int) % (cols as int)) * 256 + 256 <= (cols as int) * 256 && ((i as int)
                / (cols as int)) * 256 + 256 <= (rows as int) * 256) by (nonlinear_arith)
                requires
                    0 <= (i as int) % (cols as int) < cols,
                    0 <= (i as int) / (cols as int) < rows,
            ;
        }
        let ghost before = canvas;
        canvas.copy_from(&tiles[i], cx, cy);
        proof {
            assert forall|j: int, dx: int, dy: int|
                0 <= j < i + 1 && 0 <= dx < TILE_DIMENSION && 0 <= dy
                    < TILE_DIMENSION implies canvas.pixel(
                (j % (cols as int)) * TILE_DIMENSION + dx,
                (j / (cols as int)) * TILE_DIMENSION + dy,
            ) == #[trigger] (tiles@[j].pixel(dx, dy)) by {
                let a = (j % (cols as int)) * TILE_DIMENSION + dx;
                let b = (j / (cols as int)) * TILE_DIMENSION + dy;
                assert(0 <= j % (cols as int) < cols && 0 <= j / (cols as int) < rows)
                    by (nonlinear_arith)
                    requires
                        0 <= j < (cols as int) * (rows as int),
                        1 <= cols,
                        1 <= rows,
                ;
                assert(0 <= a < (cols as int) * 256 && 0 <= b < (rows as int) * 256)
                    by (nonlinear_arith)
                    requires
                        0 <= j % (cols as int) < cols,
                        0 <= j / (cols as int) < rows,
                        0 <= dx < 256,
                        0 <= dy < 256,
                        a == (j % (cols as int)) * 256 + dx,
                        b == (j / (cols as int)) * 256 + dy,
                ;
                if j == i {
                } else {
                    if cx <= a < cx + 256 && cy <= b < cy + 256 {
                        assert(j % (cols as int) == (i as int) % (cols as int) && j / (
                        cols as int) == (i as int) / (cols as int));
                        assert(j == i) by (nonlinear_arith)
                            requires
                                j % (cols as int) == (i as int) % (cols as int),
                                j / (cols as int) == (i as int) / (cols as int),
                                cols >= 1,
                                0 <= j,
                                0 <= i,
                        ;
                        assert(false);
                    }
                    assert(canvas.pixel(a, b) == before.pixel(a, b));
                }
            }
        }
        i = i + 1;
    }
    Some(canvas)
}

} // verus!
