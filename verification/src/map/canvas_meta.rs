//! Canvas metadata: the fractional and integer tile rectangles of a viewport
//! at a zoom level, the iteration order of the tile grid, and the pixel crop
//! that trims the stitched tiles to the exact viewport.
//!
//! Fractional tile coordinates are nano-tiles (`NANO` units per tile).  The
//! integer rectangle floors the north and west edges and ceils the south and
//! east edges, then clamps into `u32` the way a float-to-`u32` conversion
//! saturates.  A viewport that crosses the ante-meridian has `east < west`;
//! normalisation adds a full world width to `east` and column emission wraps
//! by the world width.

use crate::common::{Coordinate, Position, NANO};
use crate::map::util::{
    pow2_i64, spec_coord_to_tile, MAX_ZOOM, _get_tiles_range, projectable,
};
use vstd::arithmetic::power2::pow2;
use vstd::prelude::*;

verus! {

/// Edge length of one upstream tile, in pixels.
pub const TILE_DIMENSION: u32 = 256;

/// The largest integer at most `v / NANO` (the tile index containing a
/// nano-tile ordinate).
pub open spec fn spec_floor_tile(v: int) -> int {
    v / (NANO as int)
}

/// The smallest integer at least `v / NANO`.
pub open spec fn spec_ceil_tile(v: int) -> int {
    (v + NANO - 1) / (NANO as int)
}

/// Clamps an integer into `u32` range, as a float-to-`u32` cast saturates.
pub open spec fn spec_sat_u32(v: int) -> int {
    if v < 0 {
        0
    } else if v > u32::MAX {
        u32::MAX as int
    } else {
        v
    }
}

/// Floor of `v / NANO`, computed in machine integers.
fn floor_tile(v: i64) -> (r: i64)
    requires
        -0x6000_0000_0000_0000 < v < 0x6000_0000_0000_0000,
    ensures
        r == spec_floor_tile(v as int),
{
    if v >= 0 {
        v / NANO
    } else {
        proof {
            assert(-((-(v as int) + (NANO - 1)) / (NANO as int)) == v as int / (NANO as int))
                by (nonlinear_arith)
                requires
                    v < 0,
                    NANO == 1_000_000_000i64,
            ;
        }
        -((-v + (NANO - 1)) / NANO)
    }
}

/// Ceiling of `v / NANO`, computed in machine integers.
fn ceil_tile(v: i64) -> (r: i64)
    requires
        -0x6000_0000_0000_0000 < v < 0x6000_0000_0000_0000,
    ensures
        r == spec_ceil_tile(v as int),
{
    if v >= 0 {
        (v + (NANO - 1)) / NANO
    } else {
        proof {
            assert(-((-(v as int)) / (NANO as int)) == (v + NANO - 1) / (NANO as int))
                by (nonlinear_arith)
                requires
                    v < 0,
                    NANO == 1_000_000_000i64,
            ;
        }
        -((-v) / NANO)
    }
}

/// Clamps into `u32`.
fn sat_u32(v: i64) -> (r: u32)
    ensures
        r == spec_sat_u32(v as int),
{
    if v < 0 {
        0
    } else if v > u32::MAX as i64 {
        u32::MAX
    } else {
        v as u32
    }
}

/// The integer tile rectangle always covers the fractional one: flooring the
/// north and west edges moves them outward, and so does ceiling the south
/// and east edges.
pub proof fn lemma_tile_cover(v: int)
    ensures
        spec_floor_tile(v) * NANO <= v,
        spec_ceil_tile(v) * NANO >= v,
{
    assert(v / (NANO as int) * NANO <= v && (v + NANO - 1) / (NANO as int) * NANO >= v)
        by (nonlinear_arith)
        requires
            NANO == 1_000_000_000i64,
    ;
}

/// The fractional tile rectangle of a viewport, in nano-tiles; `north` and
/// `south` are tile-space ordinates (south is the larger number).
pub struct TileBounds {
    pub north: i64,
    pub west: i64,
    pub south: i64,
    pub east: i64,
}

/// The integer tile rectangle: rows `north..south`, columns `west..east`.
pub struct Approx {
    pub north: u32,
    pub west: u32,
    pub south: u32,
    pub east: u32,
}

/// A pixel crop on each edge of a stitched canvas.
pub struct Crop {
    pub top: u32,
    pub left: u32,
    pub bottom: u32,
    pub right: u32,
}

/// The integer rectangle of a fractional one.
pub open spec fn spec_approx(b: TileBounds) -> Approx {
    Approx {
        north: spec_sat_u32(spec_floor_tile(b.north as int)) as u32,
        west: spec_sat_u32(spec_floor_tile(b.west as int)) as u32,
        south: spec_sat_u32(spec_ceil_tile(b.south as int)) as u32,
        east: spec_sat_u32(spec_ceil_tile(b.east as int)) as u32,
    }
}

impl TileBounds {
    /// All four edges within the range accepted by the edge rounding.
    pub open spec fn wf(self) -> bool {
        -0x6000_0000_0000_0000 < self.north < 0x6000_0000_0000_0000
            && -0x6000_0000_0000_0000 < self.west < 0x6000_0000_0000_0000
            && -0x6000_0000_0000_0000 < self.south < 0x6000_0000_0000_0000
            && -0x6000_0000_0000_0000 < self.east < 0x6000_0000_0000_0000
    }

    /// The integer tile rectangle covering this fractional rectangle: floor
    /// toward the north and west, ceiling toward the south and east.
    pub fn approx(&self) -> (r: Approx)
        requires
            self.wf(),
        ensures
            r == spec_approx(*self),
    {
        Approx {
            north: sat_u32(floor_tile(self.north)),
            west: sat_u32(floor_tile(self.west)),
            south: sat_u32(ceil_tile(self.south)),
            east: sat_u32(ceil_tile(self.east)),
        }
    }
}

/// A walk over precomputed tile indices.
pub struct TilesIterator {
    pub index: usize,
    pub data: Vec<u32>,
}

impl TilesIterator {
    /// Hands out the next index, left to right.
    pub fn next(&mut self) -> (r: Option<u32>)
        ensures
            old(self).index < old(self).data@.len() ==> r == Some(
                old(self).data@[old(self).index as int],
            ) && final(self).index == old(self).index + 1,
            old(self).index >= old(self).data@.len() ==> r is None && final(self).index == old(
                self,
            ).index,
            final(self).data == old(self).data,
    {
        if self.index < self.data.len() {
            let item: u32 = self.data[self.index];
            self.index = self.index + 1;
            Some(item)
        } else {
            None
        }
    }
}

/// The viewport's projected corner positions and the zoom they belong to.
pub struct CanvasMetadata {
    pub range: [Position; 2],
    pub z: i32,
}

/// Positions small enough for the ante-meridian shift and the pixel crop to
/// stay inside `i64`; `CanvasMetadata::new` establishes this from the
/// projection's own bounds.
pub open spec fn cm_wf(m: CanvasMetadata) -> bool {
    &&& 0 <= m.z <= MAX_ZOOM
    &&& forall|i: int|
        0 <= i < 2 ==> -0x4800_0000_0000_0000 < #[trigger] m.range[i].x < 0x4800_0000_0000_0000
            && -0x4800_0000_0000_0000 < m.range[i].y < 0x4800_0000_0000_0000
}

/// The world width at zoom `z`, in nano-tiles.
pub open spec fn spec_world_nano(z: int) -> int {
    pow2(z as nat) * NANO
}

/// The fractional rectangle of a metadata value.
pub open spec fn spec_bounds(m: CanvasMetadata) -> TileBounds {
    TileBounds {
        north: m.range[0].y,
        west: m.range[0].x,
        south: m.range[1].y,
        east: m.range[1].x,
    }
}

/// The fractional rectangle with the ante-meridian unwrapped: when `east`
/// falls numerically west of `west`, a full world width is added to `east`.
pub open spec fn spec_normalized(m: CanvasMetadata) -> TileBounds {
    let b = spec_bounds(m);
    if b.east < b.west {
        TileBounds { east: (b.east + spec_world_nano(m.z as int)) as i64, ..b }
    } else {
        b
    }
}

impl CanvasMetadata {
    /// Projects the viewport corners at the given zoom.
    pub fn new(bounds: [Coordinate; 2], zoom_level: i32) -> (r: CanvasMetadata)
        requires
            projectable(bounds[0]),
            projectable(bounds[1]),
            0 <= zoom_level <= MAX_ZOOM,
        ensures
            r.range[0] == spec_coord_to_tile(bounds[0], zoom_level as int),
            r.range[1] == spec_coord_to_tile(bounds[1], zoom_level as int),
            r.z == zoom_level,
            cm_wf(r),
    {
        let range: [Position; 2] = _get_tiles_range(&bounds, zoom_level);
        proof {
            lemma_world_bound(zoom_level as int);
            assert(4 * pow2(zoom_level as nat) * (NANO as int) <= 0x4000_0000_0000_0000)
                by (nonlinear_arith)
                requires
                    0 < pow2(zoom_level as nat) <= 0x4000_0000,
                    NANO == 1_000_000_000i64,
            ;
            let r2 = CanvasMetadata { range, z: zoom_level };
            assert(r2.range[0] == range[0] && r2.range[1] == range[1]);
            assert forall|i: int|
                0 <= i < 2 implies -0x4800_0000_0000_0000 < #[trigger] r2.range[i].x
                < 0x4800_0000_0000_0000 && -0x4800_0000_0000_0000 < r2.range[i].y
                < 0x4800_0000_0000_0000 by {
                if i == 0 {
                    assert(r2.range[0] == range[0]);
                } else {
                    assert(r2.range[1] == range[1]);
                }
            }
        }
        CanvasMetadata { range, z: zoom_level }
    }

    /// The fractional tile rectangle.
    pub fn bounds(&self) -> (r: TileBounds)
        requires
            cm_wf(*self),
        ensures
            r == spec_bounds(*self),
            r.wf(),
    {
        TileBounds {
            north: self.range[0].y,
            west: self.range[0].x,
            south: self.range[1].y,
            east: self.range[1].x,
        }
    }

    /// The fractional rectangle, unwrapped across the ante-meridian.
    pub fn normalize(&self) -> (r: TileBounds)
        requires
            cm_wf(*self),
        ensures
            r == spec_normalized(*self),
            r.wf(),
    {
        let mut bounds: TileBounds = self.bounds();
        proof {
            lemma_world_bound(self.z as int);
        }
        let tiles_x_max: i64 = pow2_i64(self.z as u32) * NANO;
        if bounds.east < bounds.west {
            bounds.east = bounds.east + tiles_x_max;
        }
        bounds
    }

    /// The row indices of the tile grid, north to south.
    pub fn iter_rows(&self) -> (r: TilesIterator)
        requires
            cm_wf(*self),
        ensures
            r.index == 0,
            ({
                let a = spec_approx(spec_normalized(*self));
                &&& r.data@.len() == if a.north <= a.south {
                    a.south - a.north
                } else {
                    0
                }
                &&& forall|i: int| 0 <= i < r.data@.len() ==> r.data@[i] == a.north + i
            }),
    {
        let bounds: Approx = self.normalize().approx();
        let mut data: Vec<u32> = Vec::new();
        let mut y: u32 = bounds.north;
        while y < bounds.south
            invariant
                bounds.north <= y,
                y <= bounds.south || y == bounds.north,
                data@.len() == y - bounds.north,
                forall|i: int| 0 <= i < data@.len() ==> data@[i] == bounds.north + i,
            decreases bounds.south - y,
        {
            data.push(y);
            y = y + 1;
        }
        TilesIterator { index: 0, data }
    }

    /// The column indices of the tile grid, west to east, wrapped by the
    /// world width at this zoom.
    pub fn iter_cols(&self) -> (r: TilesIterator)
        requires
            cm_wf(*self),
        ensures
            r.index == 0,
            ({
                let a = spec_approx(spec_normalized(*self));
                let max = pow2(self.z as nat);
                &&& r.data@.len() == if a.west <= a.east {
                    a.east - a.west
                } else {
                    0
                }
                &&& forall|i: int|
                    0 <= i < r.data@.len() ==> r.data@[i] == if a.west + i >= max {
                        a.west + i - max
                    } else {
                        a.west + i
                    }
            }),
    {
        let bounds: Approx = self.normalize().approx();
        proof {
            lemma_world_bound(self.z as int);
        }
        let max: u32 = pow2_i64(self.z as u32) as u32;
        let mut data: Vec<u32> = Vec::new();
        let mut x: u32 = bounds.west;
        while x < bounds.east
            invariant
                bounds.west <= x,
                x <= bounds.east || x == bounds.west,
                max == pow2(self.z as nat),
                data@.len() == x - bounds.west,
                forall|i: int|
                    0 <= i < data@.len() ==> data@[i] == if bounds.west + i >= max {
                        bounds.west + i - max
                    } else {
                        bounds.west + i
                    },
            decreases bounds.east - x,
        {
            let wrapped: u32 = if x >= max {
                x - max
            } else {
                x
            };
            data.push(wrapped);
            x = x + 1;
        }
        TilesIterator { index: 0, data }
    }

    /// How many tile rows the grid has (zero for a degenerate rectangle).
    pub fn rows(&self) -> (r: u32)
        requires
            cm_wf(*self),
        ensures
            ({
                let a = spec_approx(spec_normalized(*self));
                r == if a.north <= a.south {
                    a.south - a.north
                } else {
                    0
                }
            }),
    {
        let approx: Approx = self.normalize().approx();
        if approx.north <= approx.south {
            approx.south - approx.north
        } else {
            0
        }
    }

    /// How many tile columns the grid has.
    pub fn cols(&self) -> (r: u32)
        requires
            cm_wf(*self),
        ensures
            ({
                let a = spec_approx(spec_normalized(*self));
                r == if a.west <= a.east {
                    a.east - a.west
                } else {
                    0
                }
            }),
    {
        let approx: Approx = self.normalize().approx();
        if approx.west <= approx.east {
            approx.east - approx.west
        } else {
            0
        }
    }

    /// The pixel crop of one edge: the gap between the fractional edge and
    /// its integer tile edge, scaled to pixels and clamped at zero.
    pub open spec fn spec_crop_edge(exact_nano: int, tile: int) -> int {
        spec_sat_u32(
            crate::arith::div_trunc((exact_nano - tile * NANO) * TILE_DIMENSION, NANO as int),
        )
    }

    /// The pixel crop trimming the stitched tile grid to the viewport.
    pub fn get_crop(&self) -> (r: Crop)
        requires
            cm_wf(*self),
        ensures
            ({
                let e = spec_bounds(*self);
                let a = spec_approx(spec_bounds(*self));
                &&& r.top == Self::spec_crop_edge(e.north as int, a.north as int)
                &&& r.left == Self::spec_crop_edge(e.west as int, a.west as int)
                &&& r.bottom == Self::spec_crop_edge(-(e.south as int), -(a.south as int))
                &&& r.right == Self::spec_crop_edge(-(e.east as int), -(a.east as int))
            }),
    {
        let exact: TileBounds = self.bounds();
        let approx: Approx = exact.approx();
        Crop {
            top: crop_edge(exact.north, approx.north as i64),
            left: crop_edge(exact.west, approx.west as i64),
            bottom: crop_edge(-exact.south, -(approx.south as i64)),
            right: crop_edge(-exact.east, -(approx.east as i64)),
        }
    }

    /// The pixel dimensions of the cropped canvas, as a spec value: the
    /// tile grid in pixels, minus the crop on each edge, clamped at zero
    /// and into `u32`.
    pub open spec fn spec_dimensions(self) -> (int, int) {
        let e = spec_bounds(self);
        let a = spec_approx(spec_bounds(self));
        let width = self.spec_cols_val() * TILE_DIMENSION;
        let height = self.spec_rows_val() * TILE_DIMENSION;
        (
            spec_sat_u32(
                width - Self::spec_crop_edge(e.west as int, a.west as int) - Self::spec_crop_edge(
                    -(e.east as int),
                    -(a.east as int),
                ),
            ),
            spec_sat_u32(
                height - Self::spec_crop_edge(e.north as int, a.north as int)
                    - Self::spec_crop_edge(-(e.south as int), -(a.south as int)),
            ),
        )
    }

    /// The pixel dimensions of the cropped canvas (`spec_dimensions`).
    pub fn dimensions(&self) -> (r: (u32, u32))
        requires
            cm_wf(*self),
        ensures
            (r.0 as int, r.1 as int) == self.spec_dimensions(),
    {
        let cols: u32 = self.cols();
        let rows: u32 = self.rows();
        let crop: Crop = self.get_crop();
        let w: i64 = (cols as i64) * (TILE_DIMENSION as i64) - (crop.left as i64) - (
        crop.right as i64);
        let h: i64 = (rows as i64) * (TILE_DIMENSION as i64) - (crop.top as i64) - (
        crop.bottom as i64);
        (sat_u32(w), sat_u32(h))
    }

    /// The column count as a spec value.
    pub open spec fn spec_cols_val(self) -> int {
        let a = spec_approx(spec_normalized(self));
        if a.west <= a.east {
            a.east - a.west
        } else {
            0
        }
    }

    /// The row count as a spec value.
    pub open spec fn spec_rows_val(self) -> int {
        let a = spec_approx(spec_normalized(self));
        if a.north <= a.south {
            a.south - a.north
        } else {
            0
        }
    }
}

/// One crop edge in pixels.
fn crop_edge(exact_nano: i64, tile: i64) -> (r: u32)
    requires
        -0x6000_0000_0000_0000 < exact_nano < 0x6000_0000_0000_0000,
        -0x1_0000_0000 <= tile <= 0x1_0000_0000,
    ensures
        r == CanvasMetadata::spec_crop_edge(exact_nano as int, tile as int),
{
    proof {
        assert(-0x1_0000_0000 * (NANO as int) <= (tile as int) * (NANO as int) <= 0x1_0000_0000
            * (NANO as int)) by (nonlinear_arith)
            requires
                -0x1_0000_0000 <= tile <= 0x1_0000_0000,
                NANO == 1_000_000_000i64,
        ;
    }
    let d: i128 = (exact_nano as i128) - (tile as i128) * (NANO as i128);
    proof {
        assert(-0x2000_0000_0000_0000_0000 <= d * (TILE_DIMENSION as int)
            <= 0x2000_0000_0000_0000_0000) by (nonlinear_arith)
            requires
                -0x6000_0000_0000_0001 - 0x1_0000_0000 * (NANO as int) <= d
                    <= 0x6000_0000_0000_0001 + 0x1_0000_0000 * (NANO as int),
                NANO == 1_000_000_000i64,
                TILE_DIMENSION == 256u32,
        ;
        let n = d * (TILE_DIMENSION as int);
        if n >= 0 {
            vstd::arithmetic::div_mod::lemma_div_is_ordered(n, 0x2000_0000_0000_0000_0000, NANO
                as int);
            vstd::arithmetic::div_mod::lemma_div_pos_is_pos(n, NANO as int);
        } else {
            vstd::arithmetic::div_mod::lemma_div_is_ordered(-n, 0x2000_0000_0000_0000_0000, NANO
                as int);
            vstd::arithmetic::div_mod::lemma_div_pos_is_pos(-n, NANO as int);
        }
        assert(-40_000_000_000_000 <= crate::arith::div_trunc(n, NANO as int)
            <= 40_000_000_000_000);
    }
    let px: i128 = crate::arith::i128_div_trunc(d * (TILE_DIMENSION as i128), NANO as i128);
    sat_u32(px as i64)
}

/// At any accepted zoom the world width in nano-tiles stays below `2^61`.
proof fn lemma_world_bound(z: int)
    requires
        0 <= z <= MAX_ZOOM,
    ensures
        0 < pow2(z as nat) * NANO <= 0x1000_0000_0000_0000,
        pow2(z as nat) <= 0x4000_0000,
{
    vstd::arithmetic::power2::lemma_pow2_pos(z as nat);
    vstd::arithmetic::power2::lemma2_to64();
    if z < MAX_ZOOM {
        vstd::arithmetic::power2::lemma_pow2_strictly_increases(z as nat, MAX_ZOOM as nat);
    }
    assert(0 < pow2(z as nat) * NANO <= 0x1000_0000_0000_0000) by (nonlinear_arith)
        requires
            0 < pow2(z as nat) <= 0x4000_0000,
            NANO == 1_000_000_000i64,
    ;
}

} // verus!
