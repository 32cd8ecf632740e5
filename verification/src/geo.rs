//! Points and boxes on the latitude-longitude plane.
//!
//! Coordinates are decimal degrees, held as binary64 bit patterns.

use crate::binary64::{
    at_least, ge, less_than, lt, max_ignoring_nan, max_of, min_ignoring_nan, min_of, nan,
};
use crate::text::{find_byte, next_byte};
use vstd::string::StringSliceAdditionalSpecFns;
use vstd::prelude::*;

verus! {

/// A point: latitude and longitude.
#[derive(Clone, Copy, Debug, PartialEq, Eq, Structural)]
pub struct Coord {
    pub lat: u64,
    pub lon: u64,
}

/// A box with sides along the parallels and meridians, given by its lower
/// left and upper right corners.
#[derive(Clone, Copy, Debug, PartialEq, Eq, Structural)]
pub struct BoundingBox {
    pub ll: Coord,
    pub ur: Coord,
}

/// The straight line between two points.
#[derive(Clone, Copy, Debug, PartialEq, Eq, Structural)]
pub struct Line {
    pub start: Coord,
    pub end: Coord,
}

impl BoundingBox {
    /// The box grown, where needed, to hold `c`.
    pub open spec fn grown_to(self, c: Coord) -> BoundingBox {
        BoundingBox {
            ll: Coord { lat: min_of(self.ll.lat, c.lat), lon: min_of(self.ll.lon, c.lon) },
            ur: Coord { lat: max_of(self.ur.lat, c.lat), lon: max_of(self.ur.lon, c.lon) },
        }
    }

    /// Grows the box, where needed, to hold `c`.
    pub fn grow_to(&self, c: Coord) -> (r: BoundingBox)
        ensures
            r == self.grown_to(c),
    {
        BoundingBox {
            ll: Coord {
                lat: min_ignoring_nan(self.ll.lat, c.lat),
                lon: min_ignoring_nan(self.ll.lon, c.lon),
            },
            ur: Coord {
                lat: max_ignoring_nan(self.ur.lat, c.lat),
                lon: max_ignoring_nan(self.ur.lon, c.lon),
            },
        }
    }
}

/// 90 degrees, the latitude of the north pole.
pub const MAX_LATITUDE: u64 = 0x4056_8000_0000_0000;

/// -90 degrees, the latitude of the south pole.
pub const MIN_LATITUDE: u64 = 0xC056_8000_0000_0000;

/// 180 degrees, the largest longitude.
pub const MAX_LONGITUDE: u64 = 0x4066_8000_0000_0000;

/// -180 degrees, the smallest longitude.
pub const MIN_LONGITUDE: u64 = 0xC066_8000_0000_0000;

/// The byte that separates the limits of a box in writing.
pub const COMMA: u8 = 44;

/// Why four limits make no box.
#[derive(Clone, Copy, Debug, PartialEq, Eq, Structural)]
pub enum BoxError {
    /// A lower limit is not below the upper one; so it is where one of the
    /// two is no number.
    NotInOrder,
    /// A limit does not lie between the poles, or between 180 degrees west
    /// and east.
    OutOfRange,
}

impl BoundingBox {
    /// The lower limits are below the upper ones.
    pub open spec fn limits_in_order(min_lat: u64, min_lon: u64, max_lat: u64, max_lon: u64) -> bool {
        lt(min_lat, max_lat) && lt(min_lon, max_lon)
    }

    /// The limits are on the globe: the latitudes from -90 to 90 degrees, the
    /// longitudes from -180 to 180.
    pub open spec fn limits_on_globe(min_lat: u64, min_lon: u64, max_lat: u64, max_lon: u64) -> bool {
        &&& ge(min_lat, MIN_LATITUDE)
        &&& ge(MAX_LATITUDE, max_lat)
        &&& ge(min_lon, MIN_LONGITUDE)
        &&& ge(MAX_LONGITUDE, max_lon)
    }

    /// The box with these limits, where the lower limits are below the upper
    /// ones and all of them are on the globe. The order is looked at first.
    /// A limit that is no number is below nothing, so it makes no box.
    pub open spec fn of_limits(min_lat: u64, min_lon: u64, max_lat: u64, max_lon: u64) -> Result<
        BoundingBox,
        BoxError,
    > {
        if !BoundingBox::limits_in_order(min_lat, min_lon, max_lat, max_lon) {
            Err(BoxError::NotInOrder)
        } else if !BoundingBox::limits_on_globe(min_lat, min_lon, max_lat, max_lon) {
            Err(BoxError::OutOfRange)
        } else {
            Ok(
                BoundingBox {
                    ll: Coord { lat: min_lat, lon: min_lon },
                    ur: Coord { lat: max_lat, lon: max_lon },
                },
            )
        }
    }

    /// Makes a box of four limits, or says why they make none.
    pub fn from_limits(min_lat: u64, min_lon: u64, max_lat: u64, max_lon: u64) -> (r: Result<
        BoundingBox,
        BoxError,
    >)
        ensures
            r == BoundingBox::of_limits(min_lat, min_lon, max_lat, max_lon),
            r is Ok ==> !nan(r->Ok_0.ll.lat) && !nan(r->Ok_0.ll.lon) && !nan(r->Ok_0.ur.lat) && !nan(
                r->Ok_0.ur.lon,
            ) && lt(r->Ok_0.ll.lat, r->Ok_0.ur.lat) && lt(r->Ok_0.ll.lon, r->Ok_0.ur.lon),
    {
        if !(less_than(min_lat, max_lat) && less_than(min_lon, max_lon)) {
            return Err(BoxError::NotInOrder);
        }
        if !(at_least(min_lat, MIN_LATITUDE) && at_least(MAX_LATITUDE, max_lat) && at_least(
            min_lon,
            MIN_LONGITUDE,
        ) && at_least(MAX_LONGITUDE, max_lon)) {
            return Err(BoxError::OutOfRange);
        }
        Ok(
            BoundingBox {
                ll: Coord { lat: min_lat, lon: min_lon },
                ur: Coord { lat: max_lat, lon: max_lon },
            },
        )
    }
}

/// Where the first four fields of a text stand whose fields are separated by
/// commas: for each its first byte and the place behind its last. `None`
/// where the text has fewer than four fields.
pub open spec fn four_fields(text: Seq<u8>) -> Option<Seq<(usize, usize)>> {
    let end0 = next_byte(text, COMMA, 0);
    let end1 = next_byte(text, COMMA, end0 + 1);
    let end2 = next_byte(text, COMMA, end1 + 1);
    let end3 = next_byte(text, COMMA, end2 + 1);
    if end2 < text.len() {
        Some(
            seq![
                (0usize, end0 as usize),
                ((end0 + 1) as usize, end1 as usize),
                ((end1 + 1) as usize, end2 as usize),
                ((end2 + 1) as usize, end3 as usize),
            ],
        )
    } else {
        None
    }
}

/// Finds the first four fields of a text whose fields are separated by
/// commas.
pub fn bbox_fields(text: &str) -> (r: Option<[(usize, usize); 4]>)
    ensures
        match r {
            Some(fields) => four_fields(text.spec_bytes()) == Some(fields@),
            None => four_fields(text.spec_bytes()) is None,
        },
{
    let bytes = text.as_bytes();
    let end0 = find_byte(bytes, COMMA, 0);
    if end0 >= bytes.len() {
        return None;
    }
    let end1 = find_byte(bytes, COMMA, end0 + 1);
    if end1 >= bytes.len() {
        return None;
    }
    let end2 = find_byte(bytes, COMMA, end1 + 1);
    if end2 >= bytes.len() {
        return None;
    }
    let end3 = find_byte(bytes, COMMA, end2 + 1);
    let fields = [(0, end0), (end0 + 1, end1), (end1 + 1, end2), (end2 + 1, end3)];
    assert(fields@ =~= four_fields(bytes@)->0);
    Some(fields)
}

} // verus!
