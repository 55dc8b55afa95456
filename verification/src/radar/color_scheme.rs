//! The unified precipitation palette and the per-station color remap.
//!
//! Each station ships its own palette; a source pixel matching the station's
//! `colors[i]` is replaced by the unified palette entry of the same
//! intensity rank when `i < 14`, by full transparency when the station has
//! more entries than the unified palette, and is passed through unchanged
//! when it matches no entry.  The first matching entry decides.

use crate::canvas::{rgba, transparent, Rgba};
use crate::radar::RadarData;
use vstd::prelude::*;
use vstd::string::StringSliceAdditionalSpecFns;

verus! {

/// Number of entries of the unified palette.
pub const UNIFIED_LEN: usize = 14;

/// The unified palette by intensity rank: light blue through black.
pub open spec fn spec_unified_color(i: int) -> Rgba {
    if i == 0 {
        Rgba { r: 173, g: 216, b: 230, a: 255 }
    } else if i == 1 {
        Rgba { r: 0, g: 0, b: 255, a: 255 }
    } else if i == 2 {
        Rgba { r: 0, g: 0, b: 139, a: 255 }
    } else if i == 3 {
        Rgba { r: 0, g: 255, b: 0, a: 255 }
    } else if i == 4 {
        Rgba { r: 50, g: 205, b: 50, a: 255 }
    } else if i == 5 {
        Rgba { r: 255, g: 255, b: 0, a: 255 }
    } else if i == 6 {
        Rgba { r: 255, g: 215, b: 0, a: 255 }
    } else if i == 7 {
        Rgba { r: 255, g: 165, b: 0, a: 255 }
    } else if i == 8 {
        Rgba { r: 255, g: 140, b: 0, a: 255 }
    } else if i == 9 {
        Rgba { r: 255, g: 0, b: 0, a: 255 }
    } else if i == 10 {
        Rgba { r: 139, g: 0, b: 0, a: 255 }
    } else if i == 11 {
        Rgba { r: 255, g: 0, b: 255, a: 255 }
    } else if i == 12 {
        Rgba { r: 128, g: 0, b: 128, a: 255 }
    } else {
        Rgba { r: 0, g: 0, b: 0, a: 255 }
    }
}

/// The unified palette entry of rank `i`.
pub fn unified_color(i: usize) -> (r: Rgba)
    requires
        i < UNIFIED_LEN,
    ensures
        r == spec_unified_color(i as int),
{
    if i == 0 {
        rgba(173, 216, 230, 255)
    } else if i == 1 {
        rgba(0, 0, 255, 255)
    } else if i == 2 {
        rgba(0, 0, 139, 255)
    } else if i == 3 {
        rgba(0, 255, 0, 255)
    } else if i == 4 {
        rgba(50, 205, 50, 255)
    } else if i == 5 {
        rgba(255, 255, 0, 255)
    } else if i == 6 {
        rgba(255, 215, 0, 255)
    } else if i == 7 {
        rgba(255, 165, 0, 255)
    } else if i == 8 {
        rgba(255, 140, 0, 255)
    } else if i == 9 {
        rgba(255, 0, 0, 255)
    } else if i == 10 {
        rgba(139, 0, 0, 255)
    } else if i == 11 {
        rgba(255, 0, 255, 255)
    } else if i == 12 {
        rgba(128, 0, 128, 255)
    } else {
        rgba(0, 0, 0, 255)
    }
}

/// What the remap yields once the palette has been searched from entry `i`
/// on: the unified entry of the first matching rank, transparency for a
/// matching rank beyond the unified palette, the pixel itself for no match.
pub open spec fn spec_remap_from(pixel: Rgba, colors: Seq<Rgba>, i: int) -> Rgba
    decreases colors.len() - i,
{
    if i < 0 || i >= colors.len() {
        pixel
    } else if colors[i] == pixel {
        if i < UNIFIED_LEN {
            spec_unified_color(i)
        } else {
            transparent()
        }
    } else {
        spec_remap_from(pixel, colors, i + 1)
    }
}

/// Maps one source pixel through a station's legend into the unified
/// palette.
pub fn pixel_to_color_scheme(pixel: Rgba, radar: &RadarData) -> (r: Rgba)
    ensures
        r == spec_remap_from(pixel, radar.legends.colors@, 0),
{
    let colors: &Vec<Rgba> = &radar.legends.colors;
    let n: usize = colors.len();
    let mut i: usize = 0;
    let mut result: Rgba = pixel;
    while i < n
        invariant_except_break
            0 <= i <= n,
            n == colors@.len(),
            result == pixel,
            spec_remap_from(pixel, colors@, 0) == spec_remap_from(pixel, colors@, i as int),
        ensures
            result == spec_remap_from(pixel, colors@, 0),
        decreases n - i,
    {
        if colors[i] == pixel {
            proof {
                assert(spec_remap_from(pixel, colors@, i as int) == if i < UNIFIED_LEN {
                    spec_unified_color(i as int)
                } else {
                    transparent()
                });
            }
            if i < UNIFIED_LEN {
                result = unified_color(i);
            } else {
                result = transparent_pixel();
            }
            break ;
        }
        i = i + 1;
    }
    result
}

/// The fully transparent pixel, as a value.
fn transparent_pixel() -> (r: Rgba)
    ensures
        r == transparent(),
{
    rgba(0, 0, 0, 0)
}

/// A source pixel equal to the first-matching legend entry `i` maps to the
/// unified entry of rank `i` when `i` is within the unified palette, and to
/// transparency beyond it.
pub proof fn lemma_color_remap_match(pixel: Rgba, colors: Seq<Rgba>, i: int)
    requires
        0 <= i < colors.len(),
        colors[i] == pixel,
        forall|j: int| 0 <= j < i ==> colors[j] != pixel,
    ensures
        spec_remap_from(pixel, colors, 0) == if i < UNIFIED_LEN {
            spec_unified_color(i)
        } else {
            transparent()
        },
    decreases i,
{
    lemma_remap_skip(pixel, colors, 0, i);
}

/// A source pixel matching no legend entry passes through unchanged.
pub proof fn lemma_color_remap_none(pixel: Rgba, colors: Seq<Rgba>)
    requires
        forall|j: int| 0 <= j < colors.len() ==> colors[j] != pixel,
    ensures
        spec_remap_from(pixel, colors, 0) == pixel,
{
    lemma_remap_skip(pixel, colors, 0, colors.len() as int);
}

/// Searching from `lo` equals searching from `hi` when no entry before `hi`
/// matches.
proof fn lemma_remap_skip(pixel: Rgba, colors: Seq<Rgba>, lo: int, hi: int)
    requires
        0 <= lo <= hi <= colors.len(),
        forall|j: int| lo <= j < hi ==> colors[j] != pixel,
    ensures
        spec_remap_from(pixel, colors, lo) == spec_remap_from(pixel, colors, hi),
    decreases hi - lo,
{
    if lo < hi {
        lemma_remap_skip(pixel, colors, lo + 1, hi);
    }
}


/// A hexadecimal digit's value, or 16 for a byte that is none.
pub open spec fn hex_val(b: u8) -> int {
    if 48 <= b <= 57 {
        b - 48
    } else if 97 <= b <= 102 {
        b - 87
    } else if 65 <= b <= 70 {
        b - 55
    } else {
        16
    }
}

/// The input with every leading `#` removed.
pub open spec fn strip_hash(b: Seq<u8>) -> Seq<u8>
    decreases b.len(),
{
    if b.len() > 0 && b[0] == 35 {
        strip_hash(b.skip(1))
    } else {
        b
    }
}

/// What a hex color string denotes: leading `#`s are stripped, the first
/// six bytes must be hex digits and give red, green and blue; the pixel is
/// opaque.  Anything shorter or non-hex denotes nothing.
pub open spec fn spec_hex_to_rgb(b: Seq<u8>) -> Option<Rgba> {
    let t = strip_hash(b);
    if t.len() >= 6 && (forall|i: int| 0 <= i < 6 ==> hex_val(#[trigger] t[i]) < 16) {
        Some(
            Rgba {
                r: (hex_val(t[0]) * 16 + hex_val(t[1])) as u8,
                g: (hex_val(t[2]) * 16 + hex_val(t[3])) as u8,
                b: (hex_val(t[4]) * 16 + hex_val(t[5])) as u8,
                a: 255,
            },
        )
    } else {
        None
    }
}

/// One hex digit's value, or 16.
fn hex_digit(b: u8) -> (r: u8)
    ensures
        r == hex_val(b),
{
    if 48 <= b && b <= 57 {
        b - 48
    } else if 97 <= b && b <= 102 {
        b - 87
    } else if 65 <= b && b <= 70 {
        b - 55
    } else {
        16
    }
}

/// Parses a `#RRGGBB` legend color (`spec_hex_to_rgb`).
pub fn hex_to_rgb(hex: &str) -> (r: Option<Rgba>)
    ensures
        r == spec_hex_to_rgb(hex.spec_bytes()),
{
    let b: &[u8] = hex.as_bytes();
    let n: usize = b.len();
    let mut start: usize = 0;
    proof {
        assert(b@.skip(0) =~= b@);
    }
    while start < n && b[start] == 35
        invariant
            0 <= start <= n,
            n == b@.len(),
            strip_hash(b@) == strip_hash(b@.skip(start as int)),
        decreases n - start,
    {
        proof {
            assert(b@.skip(start as int)[0] == b@[start as int]);
            assert(b@.skip(start as int).skip(1) =~= b@.skip(start as int + 1));
        }
        start = start + 1;
    }
    proof {
        if start < n {
            assert(b@.skip(start as int)[0] == b@[start as int]);
        }
        assert(strip_hash(b@.skip(start as int)) =~= b@.skip(start as int));
    }
    if n - start < 6 {
        return None;
    }
    let h0: u8 = hex_digit(b[start]);
    let h1: u8 = hex_digit(b[start + 1]);
    let h2: u8 = hex_digit(b[start + 2]);
    let h3: u8 = hex_digit(b[start + 3]);
    let h4: u8 = hex_digit(b[start + 4]);
    let h5: u8 = hex_digit(b[start + 5]);
    proof {
        let t = b@.skip(start as int);
        assert forall|i: int| 0 <= i < 6 implies t[i] == b@[start + i] by {}
    }
    if h0 > 15 || h1 > 15 || h2 > 15 || h3 > 15 || h4 > 15 || h5 > 15 {
        return None;
    }
    Some(rgba(h0 * 16 + h1, h2 * 16 + h3, h4 * 16 + h5, 255))
}

} // verus!
