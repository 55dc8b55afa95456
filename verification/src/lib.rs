//! A weather-radar compositor: geometry and rendering for overlaying live
//! precipitation returns from overlapping Doppler radar stations on a
//! Web-Mercator street-map background.
//!
//! All geographic arithmetic is carried out in fixed point — latitudes and
//! longitudes as signed nano-degrees, tile and pixel positions as nano-units
//! — and every function of the library carries a contract pinning its result
//! exactly.  Network and file transport stay outside; the library consumes
//! plain values (strings, byte buffers, timestamps) and produces the
//! composed raster.

pub mod arith;
pub mod canvas;
pub mod common;
pub mod map;
pub mod radar;
pub mod util;
