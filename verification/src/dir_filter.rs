//! Which directories of an archive are worth walking.
//!
//! An archive is laid out as satellite / sector / year / day of year / hour.
//! Once the newest scan in the store is known for a satellite and sector, a
//! directory that can only hold older scans need not be entered.

use crate::satellite::{Satellite, Sector};
use crate::scan_time::ScanTime;
use crate::text::{find_byte, lemma_next_byte_bounds, next_byte};
use std::collections::HashMap;
use vstd::prelude::*;
use vstd::string::StringSliceAdditionalSpecFns;

verus! {

/// The byte that separates the components of a path.
pub const SEPARATOR: u8 = 47;

/// Years up to this one are not taken for the year of a scan.
pub const LAST_YEAR_WITHOUT_DATA: i32 = 2016;

/// The key under which the entry of a satellite and sector is kept.
pub open spec fn slot(sat: Satellite, sector: Sector) -> u64 {
    ((match sat {
        Satellite::G16 => 0int,
        Satellite::G17 => 4int,
    }) + (match sector {
        Sector::Full => 0int,
        Sector::Conus => 1int,
        Sector::Meso1 => 2int,
        Sector::Meso2 => 3int,
    })) as u64
}

/// The start of the newest scan in the store, by satellite and sector.
#[derive(Debug)]
pub struct MostRecent {
    times: HashMap<u64, ScanTime>,
}

impl View for MostRecent {
    type V = Map<(Satellite, Sector), ScanTime>;

    closed spec fn view(&self) -> Map<(Satellite, Sector), ScanTime> {
        Map::new(
            |k: (Satellite, Sector)| self.times@.contains_key(slot(k.0, k.1)),
            |k: (Satellite, Sector)| self.times@[slot(k.0, k.1)],
        )
    }
}

impl MostRecent {
    /// The time before which nothing has to be read for this satellite and
    /// sector: the newest scan in the table or, where there is none, the date
    /// from which the satellite is operational.
    pub open spec fn cutoff(self, sat: Satellite, sector: Sector) -> ScanTime {
        if self@.contains_key((sat, sector)) {
            self@[(sat, sector)]
        } else {
            sat.operational_since()
        }
    }

    /// A table without entries.
    pub fn new() -> (r: MostRecent)
        ensures
            r@ == Map::<(Satellite, Sector), ScanTime>::empty(),
    {
        let r = MostRecent { times: HashMap::new() };
        assert(r@ =~= Map::<(Satellite, Sector), ScanTime>::empty());
        r
    }

    fn key(sat: Satellite, sector: Sector) -> (k: u64)
        ensures
            k == slot(sat, sector),
    {
        let base: u64 = match sat {
            Satellite::G16 => 0,
            Satellite::G17 => 4,
        };
        let offset: u64 = match sector {
            Sector::Full => 0,
            Sector::Conus => 1,
            Sector::Meso1 => 2,
            Sector::Meso2 => 3,
        };
        base + offset
    }

    /// Sets the entry of a satellite and sector.
    pub fn insert(&mut self, sat: Satellite, sector: Sector, time: ScanTime)
        ensures
            final(self)@ == old(self)@.insert((sat, sector), time),
    {
        broadcast use {
            vstd::std_specs::hash::axiom_u64_obeys_hash_table_key_model,
            vstd::std_specs::hash::axiom_random_state_builds_valid_hashers,
        };

        let k = MostRecent::key(sat, sector);
        self.times.insert(k, time);
        assert forall|other: (Satellite, Sector)| other != (sat, sector) implies slot(other.0, other.1)
            != slot(sat, sector) by {}
        assert(self@ =~= old(self)@.insert((sat, sector), time));
    }

    /// The entry of a satellite and sector, if there is one.
    pub fn get(&self, sat: Satellite, sector: Sector) -> (r: Option<ScanTime>)
        ensures
            r == (if self@.contains_key((sat, sector)) {
                Some(self@[(sat, sector)])
            } else {
                None
            }),
    {
        broadcast use {
            vstd::std_specs::hash::axiom_u64_obeys_hash_table_key_model,
            vstd::std_specs::hash::axiom_random_state_builds_valid_hashers,
            vstd::std_specs::hash::group_hash_axioms,
        };

        let k = MostRecent::key(sat, sector);
        match self.times.get(&k) {
            Some(time) => Some(*time),
            None => None,
        }
    }

    /// The cutoff of a satellite and sector.
    pub fn cutoff_for(&self, sat: Satellite, sector: Sector) -> (r: ScanTime)
        ensures
            r == self.cutoff(sat, sector),
    {
        match self.get(sat, sector) {
            Some(time) => time,
            None => sat.operational(),
        }
    }
}

/// `b` is an ASCII digit.
pub open spec fn is_digit(b: u8) -> bool {
    48 <= b <= 57
}

/// The number that a string of digits writes in base ten; 0 for the empty
/// string.
pub open spec fn decimal(digits: Seq<u8>) -> int
    decreases digits.len(),
{
    if digits.len() == 0 {
        0
    } else {
        10 * decimal(digits.drop_last()) + (digits.last() - 48)
    }
}

/// Every byte of `text` is an ASCII digit.
pub open spec fn all_digits(text: Seq<u8>) -> bool {
    forall|i: int| 0 <= i < text.len() ==> is_digit(#[trigger] text[i])
}

/// The integer that `text` writes: an optional sign, `+` or `-`, and then one
/// digit or more. `None` for anything else.
pub open spec fn signed_decimal(text: Seq<u8>) -> Option<int> {
    let signed = text.len() > 0 && (text[0] == 43 || text[0] == 45);
    let digits = if signed {
        text.skip(1)
    } else {
        text
    };
    if digits.len() > 0 && all_digits(digits) {
        Some(
            if text[0] == 45 {
                -decimal(digits)
            } else {
                decimal(digits)
            },
        )
    } else {
        None
    }
}

/// Where the path component that holds position `pos` ends: at the next
/// separator, or at the end of the path.
pub open spec fn component_end(path: Seq<u8>, pos: int) -> int {
    next_byte(path, SEPARATOR, pos)
}

/// The integer written by the first `width` bytes of the component that
/// starts at `pos`; `None` where the component is shorter or these bytes
/// write no integer.
pub open spec fn leading_number(path: Seq<u8>, pos: int, width: int) -> Option<int> {
    if component_end(path, pos) - pos >= width {
        signed_decimal(path.subrange(pos, pos + width))
    } else {
        None
    }
}

/// What the walk along a path is still looking for.
#[derive(Clone, Copy, Debug, PartialEq, Eq, Structural)]
pub enum Stage {
    /// No component has given a year yet.
    Year,
    /// The year equals the cutoff's; no later component has given a day yet.
    Day,
    /// Year and day equal the cutoff's; no later component has given an hour
    /// yet.
    Hour,
}

/// The first four bytes of the component at `pos` give the year of a scan.
pub open spec fn year_at(path: Seq<u8>, pos: int) -> Option<int> {
    match leading_number(path, pos, 4) {
        Some(year) => if year > LAST_YEAR_WITHOUT_DATA {
            Some(year)
        } else {
            None
        },
        None => None,
    }
}

/// The first three bytes of the component at `pos` give a day of the year.
pub open spec fn day_at(path: Seq<u8>, pos: int) -> Option<int> {
    match leading_number(path, pos, 3) {
        Some(day) => if 0 < day < 367 {
            Some(day)
        } else {
            None
        },
        None => None,
    }
}

/// The first two bytes of the component at `pos` give an hour of the day.
pub open spec fn hour_at(path: Seq<u8>, pos: int) -> Option<int> {
    match leading_number(path, pos, 2) {
        Some(hour) => if 0 <= hour < 25 {
            Some(hour)
        } else {
            None
        },
        None => None,
    }
}

/// Whether to enter a directory, judged by the components of its path from
/// position `pos` on.
///
/// The components are read from left to right. The first that gives a year
/// decides if that year differs from the cutoff's: an earlier year is skipped,
/// a later one entered. With the years equal, the first later component that
/// gives a day decides in the same way, and with the days equal too, the first
/// later component that gives an hour: the directory is skipped if the hour is
/// before the cutoff's, and entered otherwise. A path that ends before that is
/// entered.
pub open spec fn enters_from(path: Seq<u8>, pos: int, cutoff: ScanTime, stage: Stage) -> bool
    decreases path.len() + 1 - pos,
    via enters_from_terminates
{
    if pos < 0 || pos > path.len() {
        true
    } else {
        let next = component_end(path, pos) + 1;
        match stage {
            Stage::Year => match year_at(path, pos) {
                Some(year) => if year < cutoff.year {
                    false
                } else if year > cutoff.year {
                    true
                } else {
                    enters_from(path, next, cutoff, Stage::Day)
                },
                None => enters_from(path, next, cutoff, Stage::Year),
            },
            Stage::Day => match day_at(path, pos) {
                Some(day) => if day < cutoff.day_of_year {
                    false
                } else if day > cutoff.day_of_year {
                    true
                } else {
                    enters_from(path, next, cutoff, Stage::Hour)
                },
                None => enters_from(path, next, cutoff, Stage::Day),
            },
            Stage::Hour => match hour_at(path, pos) {
                Some(hour) => hour >= cutoff.hour,
                None => enters_from(path, next, cutoff, Stage::Hour),
            },
        }
    }
}

#[via_fn]
proof fn enters_from_terminates(path: Seq<u8>, pos: int, cutoff: ScanTime, stage: Stage) {
    if 0 <= pos <= path.len() {
        lemma_next_byte_bounds(path, SEPARATOR, pos);
    }
}

/// Whether to enter the directory at `path`: always, unless the path names a
/// satellite and a sector and its components place it before their cutoff.
pub open spec fn enters(path: Seq<u8>, most_recent: MostRecent) -> bool {
    match (Satellite::named_in(path), Sector::named_in(path)) {
        (Some(sat), Some(sector)) => enters_from(
            path,
            0,
            most_recent.cutoff(sat, sector),
            Stage::Year,
        ),
        _ => true,
    }
}

/// Ten to the power `k`.
spec fn pow10(k: nat) -> int
    decreases k,
{
    if k == 0 {
        1
    } else {
        10 * pow10((k - 1) as nat)
    }
}

proof fn lemma_pow10_bound(k: nat)
    requires
        k <= 9,
    ensures
        0 < pow10(k) <= 1_000_000_000,
    decreases k,
{
    reveal_with_fuel(pow10, 10);
}

/// Reads the integer written by `width` bytes from `start` on.
pub fn parse_integer(bytes: &[u8], start: usize, width: usize) -> (r: Option<i32>)
    requires
        start + width <= bytes.len(),
        width <= 9,
    ensures
        match r {
            Some(n) => signed_decimal(bytes@.subrange(start as int, start + width)) == Some(
                n as int,
            ),
            None => signed_decimal(bytes@.subrange(start as int, start + width)) is None,
        },
{
    let ghost text = bytes@.subrange(start as int, start + width);
    if width == 0 {
        return None;
    }
    let first = bytes[start];
    assert(first == text[0]);
    let signed = first == 43 || first == 45;
    let from: usize = if signed {
        1
    } else {
        0
    };
    let ghost digits = if signed {
        text.skip(1)
    } else {
        text
    };
    if from == width {
        return None;
    }
    let mut value: i32 = 0;
    let mut k: usize = from;
    while k < width
        invariant
            from <= k <= width,
            width <= 9,
            start + width <= bytes.len(),
            text == bytes@.subrange(start as int, start + width),
            first == text[0],
            signed == (first == 43 || first == 45),
            from == (if signed {
                1int
            } else {
                0int
            }),
            digits == (if signed {
                text.skip(1)
            } else {
                text
            }),
            forall|i: int| 0 <= i < k - from ==> is_digit(#[trigger] digits[i]),
            value == decimal(digits.take(k - from)),
            0 <= value < pow10((k - from) as nat),
        decreases width - k,
    {
        let b = bytes[start + k];
        assert(b == digits[k - from]);
        if b < 48 || b > 57 {
            assert(!is_digit(digits[k - from]));
            return None;
        }
        proof {
            let seen = digits.take(k - from + 1);
            assert(seen.drop_last() =~= digits.take(k - from));
            assert(seen.last() == b);
            lemma_pow10_bound((k - from) as nat);
            lemma_pow10_bound((k - from + 1) as nat);
        }
        value = value * 10 + (b - 48) as i32;
        k += 1;
    }
    assert(digits.take(width - from) =~= digits);
    if first == 45 {
        Some(-value)
    } else {
        Some(value)
    }
}

fn number_at(path: &[u8], pos: usize, end: usize, width: usize) -> (r: Option<i32>)
    requires
        pos <= end <= path.len(),
        end == component_end(path@, pos as int),
        width <= 9,
    ensures
        match r {
            Some(n) => leading_number(path@, pos as int, width as int) == Some(n as int),
            None => leading_number(path@, pos as int, width as int) is None,
        },
{
    if end - pos >= width {
        parse_integer(path, pos, width)
    } else {
        None
    }
}

/// Decides whether to enter a directory whose path names a satellite and
/// sector with this cutoff.
pub fn enters_with_cutoff(path: &[u8], cutoff: ScanTime) -> (r: bool)
    ensures
        r == enters_from(path@, 0, cutoff, Stage::Year),
{
    let mut pos: usize = 0;
    let mut stage = Stage::Year;
    loop
        invariant
            pos <= path.len(),
            enters_from(path@, 0, cutoff, Stage::Year) == enters_from(
                path@,
                pos as int,
                cutoff,
                stage,
            ),
        decreases path.len() - pos,
    {
        let end = find_byte(path, SEPARATOR, pos);
        match stage {
            Stage::Year => {
                if let Some(year) = number_at(path, pos, end, 4) {
                    if year > LAST_YEAR_WITHOUT_DATA {
                        if year < cutoff.year {
                            return false;
                        } else if year > cutoff.year {
                            return true;
                        }
                        stage = Stage::Day;
                    }
                }
            },
            Stage::Day => {
                if let Some(day) = number_at(path, pos, end, 3) {
                    if 0 < day && day < 367 {
                        if (day as i64) < cutoff.day_of_year as i64 {
                            return false;
                        } else if day as i64 > cutoff.day_of_year as i64 {
                            return true;
                        }
                        stage = Stage::Hour;
                    }
                }
            },
            Stage::Hour => {
                if let Some(hour) = number_at(path, pos, end, 2) {
                    if 0 <= hour && hour < 25 {
                        return hour as i64 >= cutoff.hour as i64;
                    }
                }
            },
        }
        if end >= path.len() {
            assert(enters_from(path@, end + 1, cutoff, stage));
            return true;
        }
        pos = end + 1;
    }
}

/// The rule by which a walk of the archive leaves directories out.
#[derive(Debug)]
pub struct StandardDirFilter {
    most_recent: MostRecent,
}

/// Makes the filter for a table of newest scans.
pub fn create_standard_dir_filter(most_recent: MostRecent) -> (r: StandardDirFilter)
    ensures
        r.most_recent() == most_recent,
{
    StandardDirFilter { most_recent }
}

impl StandardDirFilter {
    /// The table that the filter goes by.
    pub closed spec fn most_recent(self) -> MostRecent {
        self.most_recent
    }

    /// Decides whether to enter the directory at `path`.
    pub fn enters_directory(&self, path: &str) -> (r: bool)
        ensures
            r == enters(path.spec_bytes(), self.most_recent()),
    {
        let bytes = path.as_bytes();
        let sat = match Satellite::find_in(bytes) {
            Some(sat) => sat,
            None => {
                return true;
            },
        };
        let sector = match Sector::find_in(bytes) {
            Some(sector) => sector,
            None => {
                return true;
            },
        };
        let cutoff = self.most_recent.cutoff_for(sat, sector);
        enters_with_cutoff(bytes, cutoff)
    }

    /// Decides whether a walk keeps an entry: a file always, a directory by
    /// its path, and what is neither always.
    pub fn keeps(&self, is_file: bool, is_dir: bool, path: &str) -> (r: bool)
        ensures
            r == (is_file || !is_dir || enters(path.spec_bytes(), self.most_recent())),
    {
        if is_file {
            true
        } else if is_dir {
            self.enters_directory(path)
        } else {
            true
        }
    }
}

} // verus!
