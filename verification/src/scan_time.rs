//! The time of a scan, to the second, as calendar fields.

use vstd::prelude::*;

verus! {

/// A time in UTC: a year, a day of that year counted from 1, and a time of day.
#[derive(Clone, Copy, Debug, PartialEq, Eq, Structural, Hash)]
pub struct ScanTime {
    pub year: i32,
    pub day_of_year: u32,
    pub hour: u32,
    pub minute: u32,
    pub second: u32,
}

/// The fields lie in the ranges of a calendar: day 1 to 366, hour below 24,
/// minute and second below 60.
pub open spec fn fields_in_range(day_of_year: u32, hour: u32, minute: u32, second: u32) -> bool {
    &&& 1 <= day_of_year <= 366
    &&& hour < 24
    &&& minute < 60
    &&& second < 60
}

impl ScanTime {
    /// Every field lies in its range.
    pub open spec fn well_formed(self) -> bool {
        fields_in_range(self.day_of_year, self.hour, self.minute, self.second)
    }

    /// Puts the fields together, or gives `None` where one is out of range.
    pub fn new(year: i32, day_of_year: u32, hour: u32, minute: u32, second: u32) -> (r: Option<
        ScanTime,
    >)
        ensures
            r is Some <==> fields_in_range(day_of_year, hour, minute, second),
            r is Some ==> r->0 == (ScanTime { year, day_of_year, hour, minute, second }),
    {
        if 1 <= day_of_year && day_of_year <= 366 && hour < 24 && minute < 60 && second < 60 {
            Some(ScanTime { year, day_of_year, hour, minute, second })
        } else {
            None
        }
    }
}

} // verus!
