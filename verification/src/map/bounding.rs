//! Choosing the viewport from gazetteer hits: the upstream ranks results by
//! importance, so the first hit's bounding box wins; an empty result list
//! means the place does not exist.

use crate::common::Coordinate;
use crate::radar::radar_data::spec_parse_decimal;
use vstd::prelude::*;

verus! {

/// Why no bounding box came out of a place search.
#[derive(Debug, PartialEq, Eq, Structural)]
pub enum PlaceError {
    NoSuchPlace,
}

impl PlaceError {
    /// A short human-readable account of the failure.
    pub fn message(&self) -> (r: &'static str)
        ensures
            r@ == "no such location"@,
    {
        "no such location"
    }
}

/// The bounding box of the first hit, or `NoSuchPlace` exactly when the hit
/// list is empty.
pub fn bounding_box(results: &Vec<[Coordinate; 2]>) -> (r: Result<[Coordinate; 2], PlaceError>)
    ensures
        results@.len() == 0 <==> r == Result::<[Coordinate; 2], PlaceError>::Err(
            PlaceError::NoSuchPlace,
        ),
        results@.len() > 0 ==> r == Result::<[Coordinate; 2], PlaceError>::Ok(results@[0]),
{
    if results.len() == 0 {
        return Err(PlaceError::NoSuchPlace);
    }
    Ok(results[0])
}


/// Assembles a gazetteer hit's bounding box.  The upstream orders the four
/// corner strings `[south, north, west, east]`; the viewport pairs them as
/// north-west and south-east corners.  A corner that does not parse as a
/// decimal yields nothing.
pub fn gazetteer_bounds(bbox: &[String; 4]) -> (r: Option<[Coordinate; 2]>)
    ensures
        ({
            let south = spec_parse_decimal(vstd::utf8::encode_utf8(bbox[0]@));
            let north = spec_parse_decimal(vstd::utf8::encode_utf8(bbox[1]@));
            let west = spec_parse_decimal(vstd::utf8::encode_utf8(bbox[2]@));
            let east = spec_parse_decimal(vstd::utf8::encode_utf8(bbox[3]@));
            if south is Some && north is Some && west is Some && east is Some {
                r == Some(
                    [
                        Coordinate { lat: north->0 as i64, lon: west->0 as i64 },
                        Coordinate { lat: south->0 as i64, lon: east->0 as i64 },
                    ],
                )
            } else {
                r is None
            }
        }),
{
    let south = crate::radar::radar_data::parse_decimal(bbox[0].as_str());
    let north = crate::radar::radar_data::parse_decimal(bbox[1].as_str());
    let west = crate::radar::radar_data::parse_decimal(bbox[2].as_str());
    let east = crate::radar::radar_data::parse_decimal(bbox[3].as_str());
    match (south, north, west, east) {
        (Some(s), Some(n), Some(w), Some(e)) => Some(
            [Coordinate { lat: n, lon: w }, Coordinate { lat: s, lon: e }],
        ),
        _ => None,
    }
}

} // verus!
