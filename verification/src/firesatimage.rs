//! What the name of an image file says: the satellite, the sector, and when
//! the scan began and ended.
//!
//! A name holds the start of the scan behind `_s` and its end behind `_e`,
//! each as thirteen characters: the year in four digits, the day of the year
//! in three, and the hour, minute and second in two each.

use crate::satellite::{Satellite, Sector};
use crate::scan_time::{fields_in_range, ScanTime};
use crate::text::{find, first_occurrence, occurs, occurs_at};
use chrono::{Datelike, NaiveDateTime, Timelike};
use vstd::prelude::*;
use vstd::string::StringSliceAdditionalSpecFns;
use vstd::utf8::{
    decode_utf8, encode_utf8_decode_utf8, encode_utf8_valid_utf8, is_char_boundary,
    is_char_boundary_iff_not_is_continuation_byte, is_char_boundary_start_end_of_seq,
    valid_utf8_split,
};

verus! {

/// The number of bytes of a time in a file name.
pub const STAMP_BYTES: usize = 13;

/// Why a file name could not be read.
#[derive(Clone, Copy, Debug, PartialEq, Eq, Structural)]
pub enum FindFireError {
    /// The name does not hold the marker of the time that was asked for.
    InvalidFormat,
    /// What stands behind the marker is not a time.
    TimeNotParsed,
    /// The name does not name a satellite.
    NoSatellite,
    /// The name does not name a sector.
    NoSector,
}

impl FindFireError {
    /// The error in words.
    pub fn message(&self) -> (r: &'static str)
        ensures
            r@ == (match *self {
                FindFireError::InvalidFormat => "invalid filename format"@,
                FindFireError::TimeNotParsed => "error parsing time from file"@,
                FindFireError::NoSatellite => "Invalid file name, no satellite description."@,
                FindFireError::NoSector => "Invalid file name, no satellite sector description."@,
            }),
    {
        match self {
            FindFireError::InvalidFormat => "invalid filename format",
            FindFireError::TimeNotParsed => "error parsing time from file",
            FindFireError::NoSatellite => "Invalid file name, no satellite description.",
            FindFireError::NoSector => "Invalid file name, no satellite sector description.",
        }
    }
}

/// The bytes `_s`, which stand before the start of the scan.
pub open spec fn start_marker() -> Seq<u8> {
    seq!['_' as u8, 's' as u8]
}

/// The bytes `_e`, which stand before the end of the scan.
pub open spec fn end_marker() -> Seq<u8> {
    seq!['_' as u8, 'e' as u8]
}

/// What chrono's `NaiveDateTime::parse_from_str` reads in a text under the
/// format `%Y%j%H%M%S`: the year, the day of the year, the hour, the minute
/// and the second of the time that it gives, or `None` where it gives an
/// error.
pub uninterp spec fn parsed_timestamp(text: Seq<char>) -> Option<(i32, u32, u32, u32, u32)>;

/// Calls chrono's `NaiveDateTime::parse_from_str` with the format
/// `%Y%j%H%M%S` and takes the time apart with chrono's `year`, `ordinal`,
/// `hour`, `minute` and `second`. Nothing is claimed of the result but that
/// the same text gives the same result.
#[verifier::external_body]
fn parse_timestamp(text: &str) -> (r: Option<(i32, u32, u32, u32, u32)>)
    ensures
        r == parsed_timestamp(text@),
{
    match NaiveDateTime::parse_from_str(text, "%Y%j%H%M%S") {
        Ok(t) => Some((t.year(), t.ordinal(), t.hour(), t.minute(), t.second())),
        Err(_) => None,
    }
}

/// The bytes from `start` to `end` are a part of a text with these bytes that
/// begins and ends between characters.
pub open spec fn sliceable(bytes: Seq<u8>, start: int, end: int) -> bool {
    &&& start <= end <= bytes.len()
    &&& is_char_boundary(bytes, start)
    &&& is_char_boundary(bytes, end)
}

/// The part of a text between two of its bytes, or `None` where the range is
/// not within the text or one of its ends is not between characters.
fn part_of<'a>(text: &'a str, start: usize, end: usize) -> (r: Option<&'a str>)
    ensures
        r is Some <==> sliceable(text.spec_bytes(), start as int, end as int),
        r is Some ==> r->0.spec_bytes() == text.spec_bytes().subrange(start as int, end as int),
{
    let len = text.as_bytes().len();
    if start > end || end > len {
        return None;
    }
    if !text.is_char_boundary(start) || !text.is_char_boundary(end) {
        return None;
    }
    let ghost bytes = text.spec_bytes();
    proof {
        encode_utf8_valid_utf8(text@);
        valid_utf8_split(bytes, start as int);
    }
    let (_, tail) = text.split_at(start);
    proof {
        let rest = tail.spec_bytes();
        assert(rest == bytes.subrange(start as int, len as int));
        if end == len {
            is_char_boundary_start_end_of_seq(rest);
        } else if end > start {
            is_char_boundary_iff_not_is_continuation_byte(bytes, end as int);
            is_char_boundary_iff_not_is_continuation_byte(rest, end - start);
            assert(rest[end - start] == bytes[end as int]);
        } else {
            is_char_boundary_start_end_of_seq(rest);
        }
    }
    let (part, _) = tail.split_at(end - start);
    assert(part.spec_bytes() =~= bytes.subrange(start as int, end as int));
    Some(part)
}

/// The time that fields read from a text make: the fields must have been
/// read, and must lie in the ranges of a calendar.
pub open spec fn time_of_fields(fields: Option<(i32, u32, u32, u32, u32)>) -> Result<
    ScanTime,
    FindFireError,
> {
    match fields {
        Some((year, day_of_year, hour, minute, second)) => if fields_in_range(
            day_of_year,
            hour,
            minute,
            second,
        ) {
            Ok(ScanTime { year, day_of_year, hour, minute, second })
        } else {
            Err(FindFireError::TimeNotParsed)
        },
        None => Err(FindFireError::TimeNotParsed),
    }
}

/// Makes a time of the fields that were read from a text.
pub fn scan_time_from_fields(fields: Option<(i32, u32, u32, u32, u32)>) -> (r: Result<
    ScanTime,
    FindFireError,
>)
    ensures
        r == time_of_fields(fields),
{
    match fields {
        Some((year, day_of_year, hour, minute, second)) => {
            match ScanTime::new(year, day_of_year, hour, minute, second) {
                Some(time) => Ok(time),
                None => Err(FindFireError::TimeNotParsed),
            }
        },
        None => Err(FindFireError::TimeNotParsed),
    }
}

/// Where `marker` first stands in `name`. Meant for names in which it stands.
pub open spec fn marker_position(name: Seq<u8>, marker: Seq<u8>) -> int {
    choose|i: int| first_occurrence(name, marker, i)
}

/// The time that stands in `name` behind the first `marker`.
///
/// Without the marker the name has not the format. With it, the thirteen
/// bytes behind it must be there, must begin and end between characters, and
/// the characters that they write must be read as a time.
pub open spec fn time_behind(name: Seq<u8>, marker: Seq<u8>) -> Result<ScanTime, FindFireError> {
    if !occurs(name, marker) {
        Err(FindFireError::InvalidFormat)
    } else {
        let start = marker_position(name, marker) + marker.len();
        let end = start + STAMP_BYTES;
        if sliceable(name, start, end) {
            time_of_fields(parsed_timestamp(decode_utf8(name.subrange(start, end))))
        } else {
            Err(FindFireError::TimeNotParsed)
        }
    }
}

fn find_time(fname: &str, marker: &[u8]) -> (r: Result<ScanTime, FindFireError>)
    requires
        marker@.len() == 2,
    ensures
        r == time_behind(fname.spec_bytes(), marker@),
{
    let bytes = fname.as_bytes();
    match find(bytes, marker) {
        None => Err(FindFireError::InvalidFormat),
        Some(i) => {
            proof {
                let chosen = marker_position(bytes@, marker@);
                assert(first_occurrence(bytes@, marker@, i as int));
                assert(occurs_at(bytes@, marker@, i as int));
                assert(first_occurrence(bytes@, marker@, chosen));
                assert(chosen == i) by {
                    if chosen < i {
                        assert(!occurs_at(bytes@, marker@, chosen));
                    }
                    if i < chosen {
                        assert(!occurs_at(bytes@, marker@, i as int));
                    }
                }
            }
            assert(i + 2 <= bytes.len());
            let start = i + 2;
            if bytes.len() - start < STAMP_BYTES {
                return Err(FindFireError::TimeNotParsed);
            }
            match part_of(fname, start, start + STAMP_BYTES) {
                Some(stamp) => {
                    proof {
                        encode_utf8_decode_utf8(stamp@);
                    }
                    scan_time_from_fields(parse_timestamp(stamp))
                },
                None => Err(FindFireError::TimeNotParsed),
            }
        },
    }
}

/// The satellite that a name names, or an error.
pub open spec fn satellite_of(name: Seq<u8>) -> Result<Satellite, FindFireError> {
    match Satellite::named_in(name) {
        Some(sat) => Ok(sat),
        None => Err(FindFireError::NoSatellite),
    }
}

/// The sector that a name names, or an error.
pub open spec fn sector_of(name: Seq<u8>) -> Result<Sector, FindFireError> {
    match Sector::named_in(name) {
        Some(sector) => Ok(sector),
        None => Err(FindFireError::NoSector),
    }
}

/// What a name says of its image, if it says all of it: the satellite, the
/// sector, the start of the scan and its end.
pub open spec fn description_of(name: Seq<u8>) -> Option<(Satellite, Sector, ScanTime, ScanTime)> {
    match (
        Satellite::named_in(name),
        Sector::named_in(name),
        time_behind(name, start_marker()),
        time_behind(name, end_marker()),
    ) {
        (Some(sat), Some(sector), Ok(start), Ok(end)) => Some((sat, sector, start, end)),
        _ => None,
    }
}

/// What the name of an image file says of the image.
#[derive(Clone, Copy, Debug, PartialEq, Eq, Structural)]
pub struct FireSatImage {
    satellite: Satellite,
    sector: Sector,
    start: ScanTime,
    end: ScanTime,
}

/// What a name says of its image, or the first thing that it fails to say:
/// the satellite, the sector, the start of the scan, its end.
pub open spec fn image_of(name: Seq<u8>) -> Result<(Satellite, Sector, ScanTime, ScanTime), FindFireError> {
    match satellite_of(name) {
        Err(e) => Err(e),
        Ok(sat) => match sector_of(name) {
            Err(e) => Err(e),
            Ok(sector) => match time_behind(name, start_marker()) {
                Err(e) => Err(e),
                Ok(start) => match time_behind(name, end_marker()) {
                    Err(e) => Err(e),
                    Ok(end) => Ok((sat, sector, start, end)),
                },
            },
        },
    }
}

impl FireSatImage {
    /// The satellite, the sector, the start and the end of the scan.
    pub closed spec fn description(self) -> (Satellite, Sector, ScanTime, ScanTime) {
        (self.satellite, self.sector, self.start, self.end)
    }

    /// Reads what a file name says of its image.
    pub fn from_file_name(fname: &str) -> (r: Result<FireSatImage, FindFireError>)
        ensures
            match r {
                Ok(image) => image_of(fname.spec_bytes()) == Ok::<_, FindFireError>(
                    image.description(),
                ),
                Err(e) => image_of(fname.spec_bytes()) == Err::<
                    (Satellite, Sector, ScanTime, ScanTime),
                    _,
                >(e),
            },
    {
        let satellite = match FireSatImage::find_satellite_name(fname) {
            Ok(sat) => sat,
            Err(e) => {
                return Err(e);
            },
        };
        let sector = match FireSatImage::find_sector_name(fname) {
            Ok(sector) => sector,
            Err(e) => {
                return Err(e);
            },
        };
        let start = match FireSatImage::find_start_time(fname) {
            Ok(start) => start,
            Err(e) => {
                return Err(e);
            },
        };
        let end = match FireSatImage::find_end_time(fname) {
            Ok(end) => end,
            Err(e) => {
                return Err(e);
            },
        };
        Ok(FireSatImage { satellite, sector, start, end })
    }

    /// When the scan began.
    pub fn start(&self) -> (r: ScanTime)
        ensures
            r == self.description().2,
    {
        self.start
    }

    /// When the scan ended.
    pub fn end(&self) -> (r: ScanTime)
        ensures
            r == self.description().3,
    {
        self.end
    }

    /// The satellite that took the image.
    pub fn satellite(&self) -> (r: Satellite)
        ensures
            r == self.description().0,
    {
        self.satellite
    }

    /// The sector that the image shows.
    pub fn sector(&self) -> (r: Sector)
        ensures
            r == self.description().1,
    {
        self.sector
    }

    /// Reads the start of the scan in a file name.
    pub fn find_start_time(fname: &str) -> (r: Result<ScanTime, FindFireError>)
        ensures
            r == time_behind(fname.spec_bytes(), start_marker()),
    {
        let marker: [u8; 2] = ['_' as u8, 's' as u8];
        assert(marker@ =~= start_marker());
        find_time(fname, marker.as_slice())
    }

    /// Reads the end of the scan in a file name.
    pub fn find_end_time(fname: &str) -> (r: Result<ScanTime, FindFireError>)
        ensures
            r == time_behind(fname.spec_bytes(), end_marker()),
    {
        let marker: [u8; 2] = ['_' as u8, 'e' as u8];
        assert(marker@ =~= end_marker());
        find_time(fname, marker.as_slice())
    }

    /// Reads the satellite in a file name.
    pub fn find_satellite_name(fname: &str) -> (r: Result<Satellite, FindFireError>)
        ensures
            r == satellite_of(fname.spec_bytes()),
    {
        match Satellite::string_contains_satellite(fname) {
            Some(sat) => Ok(sat),
            None => Err(FindFireError::NoSatellite),
        }
    }

    /// Reads the sector in a file name.
    pub fn find_sector_name(fname: &str) -> (r: Result<Sector, FindFireError>)
        ensures
            r == sector_of(fname.spec_bytes()),
    {
        match Sector::string_contains_sector(fname) {
            Some(sector) => Ok(sector),
            None => Err(FindFireError::NoSector),
        }
    }
}

/// Reads in a file name what it says of its image.
pub fn parse_satellite_description_from_file_name(fname: &str) -> (r: Option<
    (Satellite, Sector, ScanTime, ScanTime),
>)
    ensures
        r == description_of(fname.spec_bytes()),
{
    let sat = match Satellite::string_contains_satellite(fname) {
        Some(sat) => sat,
        None => {
            return None;
        },
    };
    let sector = match Sector::string_contains_sector(fname) {
        Some(sector) => sector,
        None => {
            return None;
        },
    };
    let start = match FireSatImage::find_start_time(fname) {
        Ok(start) => start,
        Err(_) => {
            return None;
        },
    };
    let end = match FireSatImage::find_end_time(fname) {
        Ok(end) => end,
        Err(_) => {
            return None;
        },
    };
    Some((sat, sector, start, end))
}

} // verus!
