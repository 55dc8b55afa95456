//! An RGBA raster held as one row-major pixel vector.
//!
//! The canvas is the shared output surface of the map stitcher, the radar
//! resolver and the overlay compositor.  A canvas is well formed when its
//! pixel vector holds exactly `width * height` entries.

use vstd::prelude::*;

verus! {

/// One RGBA pixel.
#[derive(Clone, Copy, Debug, PartialEq, Eq, Structural)]
pub struct Rgba {
    pub r: u8,
    pub g: u8,
    pub b: u8,
    pub a: u8,
}

/// The pixel with the given red, green, blue and alpha channels.
pub fn rgba(r: u8, g: u8, b: u8, a: u8) -> (p: Rgba)
    ensures
        p == (Rgba { r, g, b, a }),
{
    Rgba { r, g, b, a }
}

/// The fully transparent pixel.
pub open spec fn transparent() -> Rgba {
    Rgba { r: 0, g: 0, b: 0, a: 0 }
}

/// Cap on `width * height` (a machine limit so that the byte count of any
/// canvas fits comfortably in `usize`).
pub const PIXEL_LIMIT: u64 = 0x4000_0000;

/// An RGBA raster of `width * height` pixels, row major.
#[derive(Clone, Debug)]
pub struct Canvas {
    pub width: u32,
    pub height: u32,
    pub data: Vec<Rgba>,
}

impl Canvas {
    /// The canvas holds one pixel per cell and is within the size cap.
    pub open spec fn wf(self) -> bool {
        self.data@.len() == self.width * self.height && self.width * self.height <= PIXEL_LIMIT
    }

    /// The pixel of cell `(x, y)`.
    pub open spec fn pixel(self, x: int, y: int) -> Rgba {
        self.data@[y * self.width + x]
    }

    /// A transparent canvas of the given dimensions, as a fresh raster
    /// starts out: every channel of every pixel is zero.
    pub fn new(width: u32, height: u32) -> (r: Canvas)
        requires
            width * height <= PIXEL_LIMIT,
        ensures
            r.wf(),
            r.width == width,
            r.height == height,
            forall|x: int, y: int|
                0 <= x < width && 0 <= y < height ==> r.pixel(x, y) == transparent(),
    {
        let n: usize = (width as usize) * (height as usize);
        let data: Vec<Rgba> = vec![rgba(0, 0, 0, 0); n];
        let r = Canvas { width, height, data };
        proof {
            assert forall|x: int, y: int| 0 <= x < width && 0 <= y < height implies r.pixel(x, y)
                == transparent() by {
                assert(0 <= y * width + x < width * height) by (nonlinear_arith)
                    requires
                        0 <= x < width && 0 <= y < height,
                ;
            }
        }
        r
    }

    /// Reads the pixel of cell `(x, y)`.
    pub fn get_pixel(&self, x: u32, y: u32) -> (r: Rgba)
        requires
            self.wf(),
            x < self.width,
            y < self.height,
        ensures
            r == self.pixel(x as int, y as int),
    {
        proof {
            lemma_cell_index(self.width as int, self.height as int, x as int, y as int);
        }
        let i: usize = (y as usize) * (self.width as usize) + (x as usize);
        self.data[i]
    }

    /// Writes the pixel of cell `(x, y)`; every other cell is untouched.
    pub fn put_pixel(&mut self, x: u32, y: u32, p: Rgba)
        requires
            old(self).wf(),
            x < old(self).width,
            y < old(self).height,
        ensures
            final(self).wf(),
            final(self).width == old(self).width,
            final(self).height == old(self).height,
            final(self).pixel(x as int, y as int) == p,
            forall|i: int, j: int|
                0 <= i < old(self).width && 0 <= j < old(self).height && !(i == x && j == y)
                    ==> final(self).pixel(i, j) == old(self).pixel(i, j),
    {
        proof {
            lemma_cell_index(self.width as int, self.height as int, x as int, y as int);
        }
        let i: usize = (y as usize) * (self.width as usize) + (x as usize);
        self.data[i] = p;
        proof {
            assert forall|a: int, b: int|
                0 <= a < self.width && 0 <= b < self.height && !(a == x && b == y) implies self
                .pixel(a, b) == old(self).pixel(a, b) by {
                lemma_cell_index(self.width as int, self.height as int, a, b);
                lemma_cell_distinct(self.width as int, a, b, x as int, y as int);
            }
        }
    }
}

/// A cell's row-major index lies within the raster.
proof fn lemma_cell_index(w: int, h: int, x: int, y: int)
    requires
        0 <= x < w,
        0 <= y < h,
    ensures
        0 <= y * w + x < w * h,
{
    assert(0 <= y * w + x < w * h) by (nonlinear_arith)
        requires
            0 <= x < w && 0 <= y < h,
    ;
}

/// Distinct cells have distinct row-major indices.
proof fn lemma_cell_distinct(w: int, x1: int, y1: int, x2: int, y2: int)
    requires
        0 <= x1 < w,
        0 <= x2 < w,
        0 <= y1,
        0 <= y2,
        !(x1 == x2 && y1 == y2),
    ensures
        y1 * w + x1 != y2 * w + x2,
{
    assert(y1 * w + x1 != y2 * w + x2) by (nonlinear_arith)
        requires
            0 <= x1 < w && 0 <= x2 < w && 0 <= y1 && 0 <= y2 && !(x1 == x2 && y1 == y2),
    ;
}


impl Canvas {
    /// A copy of the rectangle of size `(w, h)` at `(x, y)`.
    pub fn crop_rect(&self, x: u32, y: u32, w: u32, h: u32) -> (r: Canvas)
        requires
            self.wf(),
            x + w <= self.width,
            y + h <= self.height,
        ensures
            r.wf(),
            r.width == w,
            r.height == h,
            forall|i: int, j: int|
                0 <= i < w && 0 <= j < h ==> r.pixel(i, j) == self.pixel(x + i, y + j),
    {
        proof {
            assert(w * h <= self.width * self.height) by (nonlinear_arith)
                requires
                    w <= self.width && h <= self.height && 0 <= w && 0 <= h && 0 <= self.width
                        && 0 <= self.height,
            ;
        }
        let mut out: Canvas = Canvas::new(w, h);
        let mut j: u32 = 0;
        while j < h
            invariant
                out.wf(),
                out.width == w,
                out.height == h,
                self.wf(),
                x + w <= self.width,
                y + h <= self.height,
                0 <= j <= h,
                forall|a: int, b: int|
                    0 <= a < w && 0 <= b < j ==> out.pixel(a, b) == self.pixel(x + a, y + b),
            decreases h - j,
        {
            let mut i: u32 = 0;
            while i < w
                invariant
                    out.wf(),
                    out.width == w,
                    out.height == h,
                    self.wf(),
                    x + w <= self.width,
                    y + h <= self.height,
                    0 <= j < h,
                    0 <= i <= w,
                    forall|a: int, b: int|
                        0 <= a < w && 0 <= b < j ==> out.pixel(a, b) == self.pixel(x + a, y + b),
                    forall|a: int|
                        0 <= a < i ==> out.pixel(a, j as int) == self.pixel(x + a, y + j),
                decreases w - i,
            {
                let p: Rgba = self.get_pixel(x + i, y + j);
                out.put_pixel(i, j, p);
                i = i + 1;
            }
            j = j + 1;
        }
        out
    }

    /// Writes `other` whole into this canvas with its top-left corner at
    /// `(x, y)`; everything outside that rectangle is untouched.
    pub fn copy_from(&mut self, other: &Canvas, x: u32, y: u32)
        requires
            old(self).wf(),
            other.wf(),
            x + other.width <= old(self).width,
            y + other.height <= old(self).height,
        ensures
            final(self).wf(),
            final(self).width == old(self).width,
            final(self).height == old(self).height,
            forall|a: int, b: int|
                0 <= a < other.width && 0 <= b < other.height ==> final(self).pixel(x + a, y + b)
                    == other.pixel(a, b),
            forall|a: int, b: int|
                0 <= a < old(self).width && 0 <= b < old(self).height && !(x <= a < x
                    + other.width && y <= b < y + other.height) ==> final(self).pixel(a, b) == old(
                    self,
                ).pixel(a, b),
    {
        let w: u32 = other.width;
        let h: u32 = other.height;
        let mut j: u32 = 0;
        while j < h
            invariant
                self.wf(),
                self.width == old(self).width,
                self.height == old(self).height,
                other.wf(),
                other.width == w,
                other.height == h,
                x + w <= self.width,
                y + h <= self.height,
                0 <= j <= h,
                forall|a: int, b: int|
                    0 <= a < w && 0 <= b < j ==> self.pixel(x + a, y + b) == other.pixel(a, b),
                forall|a: int, b: int|
                    0 <= a < self.width && 0 <= b < self.height && !(x <= a < x + w && y <= b < y
                        + j) ==> self.pixel(a, b) == old(self).pixel(a, b),
            decreases h - j,
        {
            let mut i: u32 = 0;
            while i < w
                invariant
                    self.wf(),
                    self.width == old(self).width,
                    self.height == old(self).height,
                    other.wf(),
                    other.width == w,
                    other.height == h,
                    x + w <= self.width,
                    y + h <= self.height,
                    0 <= j < h,
                    0 <= i <= w,
                    forall|a: int, b: int|
                        0 <= a < w && 0 <= b < j ==> self.pixel(x + a, y + b) == other.pixel(a, b),
                    forall|a: int|
                        0 <= a < i ==> self.pixel(x + a, y + j) == other.pixel(a, j as int),
                    forall|a: int, b: int|
                        0 <= a < self.width && 0 <= b < self.height && !(x <= a < x + w && y <= b
                            < y + j) && !(x <= a < x + i && b == y + j) ==> self.pixel(a, b)
                            == old(self).pixel(a, b),
                decreases w - i,
            {
                let p: Rgba = other.get_pixel(i, j);
                self.put_pixel(x + i, y + j, p);
                i = i + 1;
            }
            j = j + 1;
        }
    }
}

} // verus!
