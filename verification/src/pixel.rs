//! The ground seen in one cell of a satellite image, and lists of such cells.

use crate::binary64::{
    finite, is_finite, lt, max_ignoring_nan, max_of, INFINITY, NEG_INFINITY,
};
use crate::geo::{BoundingBox, Coord};
use crate::satellite::{DataQualityFlagCode, MaskCode};
use vstd::prelude::*;

verus! {

/// A quadrilateral on the ground with what the satellite measured in it.
///
/// The measurements are binary64 bit patterns: the radiative power in
/// megawatts, the area of the fire in square metres, its temperature in
/// kelvin, and the scan angle in degrees.
#[derive(Clone, Copy, Debug, PartialEq, Eq, Structural)]
pub struct Pixel {
    /// The upper left (northwest) corner.
    pub ul: Coord,
    /// The lower left (southwest) corner.
    pub ll: Coord,
    /// The lower right (southeast) corner.
    pub lr: Coord,
    /// The upper right (northeast) corner.
    pub ur: Coord,
    pub power: u64,
    pub area: u64,
    pub temperature: u64,
    pub scan_angle: u64,
    pub mask_flag: MaskCode,
    pub data_quality_flag: DataQualityFlagCode,
}

/// The box that holds nothing: growing it to a point gives that point.
pub open spec fn empty_box() -> BoundingBox {
    BoundingBox {
        ll: Coord { lat: INFINITY, lon: INFINITY },
        ur: Coord { lat: NEG_INFINITY, lon: NEG_INFINITY },
    }
}

impl Pixel {
    /// The pixel that stands for both after merging: the larger power,
    /// temperature and area, and of each code the smaller; corners and scan
    /// angle stay those of `self`.
    pub open spec fn merged_with(self, other: Pixel) -> Pixel {
        Pixel {
            power: max_of(self.power, other.power),
            temperature: max_of(self.temperature, other.temperature),
            area: max_of(self.area, other.area),
            mask_flag: if self.mask_flag.0 < other.mask_flag.0 {
                self.mask_flag
            } else {
                other.mask_flag
            },
            data_quality_flag: if self.data_quality_flag.0 < other.data_quality_flag.0 {
                self.data_quality_flag
            } else {
                other.data_quality_flag
            },
            ..self
        }
    }

    /// `bounds` grown to hold the four corners.
    pub open spec fn grow(self, bounds: BoundingBox) -> BoundingBox {
        bounds.grown_to(self.ll).grown_to(self.lr).grown_to(self.ul).grown_to(self.ur)
    }

    /// Merges the measurements of `other` into this pixel.
    pub fn max_merge(&mut self, other: &Pixel)
        ensures
            *final(self) == old(self).merged_with(*other),
    {
        self.power = max_ignoring_nan(self.power, other.power);
        self.temperature = max_ignoring_nan(self.temperature, other.temperature);
        self.area = max_ignoring_nan(self.area, other.area);
        if !(self.mask_flag.0 < other.mask_flag.0) {
            self.mask_flag = other.mask_flag;
        }
        if !(self.data_quality_flag.0 < other.data_quality_flag.0) {
            self.data_quality_flag = other.data_quality_flag;
        }
    }

    /// The smallest box that holds the four corners.
    pub fn bounding_box(&self) -> (r: BoundingBox)
        ensures
            r == self.grow(empty_box()),
    {
        let start = BoundingBox {
            ll: Coord { lat: INFINITY, lon: INFINITY },
            ur: Coord { lat: NEG_INFINITY, lon: NEG_INFINITY },
        };
        start.grow_to(self.ll).grow_to(self.lr).grow_to(self.ul).grow_to(self.ur)
    }
}

/// The largest finite value among `values`, or negative infinity where none
/// is finite. Of equal values the first counts.
pub open spec fn max_finite(values: Seq<u64>) -> u64
    decreases values.len(),
{
    if values.len() == 0 {
        NEG_INFINITY
    } else if finite(values.last()) {
        max_of(max_finite(values.drop_last()), values.last())
    } else {
        max_finite(values.drop_last())
    }
}

/// What `plus` gives for two values.
pub open spec fn sum_of<S: Fn(u64, u64) -> u64>(plus: S, a: u64, b: u64) -> u64 {
    choose|r: u64| call_ensures(plus, (a, b), r)
}

/// `plus` takes any two values, and gives for the same two always the same.
pub open spec fn adds_steadily<S: Fn(u64, u64) -> u64>(plus: S) -> bool {
    &&& forall|a: u64, b: u64| call_requires(plus, (a, b))
    &&& forall|a: u64, b: u64, r1: u64, r2: u64|
        #[trigger] call_ensures(plus, (a, b), r1) && #[trigger] call_ensures(plus, (a, b), r2)
            ==> r1 == r2
}

/// The finite values among `values` added up with `plus`, in order, starting
/// from zero.
pub open spec fn sum_finite<S: Fn(u64, u64) -> u64>(plus: S, values: Seq<u64>) -> u64
    decreases values.len(),
{
    if values.len() == 0 {
        0
    } else if finite(values.last()) {
        sum_of(plus, sum_finite(plus, values.drop_last()), values.last())
    } else {
        sum_finite(plus, values.drop_last())
    }
}

/// The smallest box that holds every corner of every pixel.
pub open spec fn bounds_of(pixels: Seq<Pixel>) -> BoundingBox
    decreases pixels.len(),
{
    if pixels.len() == 0 {
        empty_box()
    } else {
        pixels.last().grow(bounds_of(pixels.drop_last()))
    }
}

/// What [`max_finite`] amounts to: nothing finite in the list is above it, and
/// it is in the list unless the list holds nothing finite.
pub proof fn lemma_max_finite(values: Seq<u64>)
    ensures
        forall|i: int|
            0 <= i < values.len() && finite(#[trigger] values[i]) ==> !lt(
                max_finite(values),
                values[i],
            ),
        (forall|i: int| 0 <= i < values.len() ==> !finite(#[trigger] values[i])) ==> max_finite(
            values,
        ) == NEG_INFINITY,
        (exists|i: int| 0 <= i < values.len() && finite(#[trigger] values[i])) ==> finite(
            max_finite(values),
        ) && values.contains(max_finite(values)),
    decreases values.len(),
{
    if values.len() > 0 {
        let front = values.drop_last();
        let last = values.last();
        lemma_max_finite(front);
        assert forall|i: int| 0 <= i < values.len() && finite(#[trigger] values[i]) implies !lt(
            max_finite(values),
            values[i],
        ) by {
            if i < front.len() {
                assert(front[i] == values[i]);
            }
        }
        if exists|i: int| 0 <= i < values.len() && finite(#[trigger] values[i]) {
            if exists|i: int| 0 <= i < front.len() && finite(#[trigger] front[i]) {
                let m = max_finite(front);
                let k = choose|k: int| 0 <= k < front.len() && front[k] == m;
                assert(values[k] == m);
                assert(values[values.len() - 1] == last);
            } else {
                let i = choose|i: int| 0 <= i < values.len() && finite(#[trigger] values[i]);
                if i < front.len() {
                    assert(front[i] == values[i]);
                }
                assert(values[values.len() - 1] == last);
            }
        } else {
            assert forall|i: int| 0 <= i < front.len() implies !finite(#[trigger] front[i]) by {
                assert(front[i] == values[i]);
            }
        }
    }
}

/// A list of pixels, in the order in which they were added.
#[derive(Debug)]
pub struct PixelList(Vec<Pixel>);

impl Clone for PixelList {
    fn clone(&self) -> (r: PixelList)
        ensures
            r@ == self@,
    {
        let mut copy: Vec<Pixel> = Vec::with_capacity(self.0.len());
        let mut i: usize = 0;
        while i < self.0.len()
            invariant
                i <= self.0.len(),
                copy@ == self.0@.take(i as int),
            decreases self.0.len() - i,
        {
            copy.push(self.0[i]);
            assert(self.0@.take(i + 1) =~= self.0@.take(i as int).push(self.0[i as int]));
            i += 1;
        }
        assert(self.0@.take(i as int) =~= self.0@);
        PixelList(copy)
    }
}

impl View for PixelList {
    type V = Seq<Pixel>;

    closed spec fn view(&self) -> Seq<Pixel> {
        self.0@
    }
}

impl PixelList {
    /// The temperatures of the pixels, in order.
    pub open spec fn temperatures(self) -> Seq<u64> {
        self@.map_values(|p: Pixel| p.temperature)
    }

    /// The scan angles of the pixels, in order.
    pub open spec fn scan_angles(self) -> Seq<u64> {
        self@.map_values(|p: Pixel| p.scan_angle)
    }

    /// The powers of the pixels, in order.
    pub open spec fn powers(self) -> Seq<u64> {
        self@.map_values(|p: Pixel| p.power)
    }

    /// The areas of the pixels, in order.
    pub open spec fn areas(self) -> Seq<u64> {
        self@.map_values(|p: Pixel| p.area)
    }

    /// An empty list.
    pub fn new() -> (r: PixelList)
        ensures
            r@ == Seq::<Pixel>::empty(),
    {
        PixelList(Vec::new())
    }

    /// An empty list with room for `capacity` pixels.
    pub fn with_capacity(capacity: usize) -> (r: PixelList)
        ensures
            r@ == Seq::<Pixel>::empty(),
    {
        PixelList(Vec::with_capacity(capacity))
    }

    /// The number of pixels.
    pub fn len(&self) -> (r: usize)
        ensures
            r == self@.len(),
    {
        self.0.len()
    }

    /// Tells whether the list holds no pixel.
    pub fn is_empty(&self) -> (r: bool)
        ensures
            r == (self@.len() == 0),
    {
        self.0.len() == 0
    }

    /// Appends a pixel.
    pub fn push(&mut self, pixel: Pixel)
        ensures
            final(self)@ == old(self)@.push(pixel),
    {
        self.0.push(pixel)
    }

    /// Empties the list.
    pub fn clear(&mut self)
        ensures
            final(self)@ == Seq::<Pixel>::empty(),
    {
        self.0.clear()
    }

    /// The pixels, in order.
    pub fn pixels(&self) -> (r: &[Pixel])
        ensures
            r@ == self@,
    {
        self.0.as_slice()
    }

    /// The power of the pixels in all, in megawatts: the finite powers added
    /// up with `plus`, in the order of the list, starting from zero.
    pub fn total_power<S: Fn(u64, u64) -> u64>(&self, plus: S) -> (r: u64)
        requires
            adds_steadily(plus),
        ensures
            r == sum_finite(plus, self.powers()),
    {
        self.total_power_with(&plus)
    }

    /// The same as [`PixelList::total_power`], for an addition that is only
    /// lent.
    pub fn total_power_with<S: Fn(u64, u64) -> u64>(&self, plus: &S) -> (r: u64)
        requires
            adds_steadily(*plus),
        ensures
            r == sum_finite(*plus, self.powers()),
    {
        let mut total: u64 = 0;
        let mut i: usize = 0;
        while i < self.0.len()
            invariant
                i <= self.0.len(),
                adds_steadily(*plus),
                total == sum_finite(*plus, self.powers().take(i as int)),
            decreases self.0.len() - i,
        {
            let v = self.0[i].power;
            proof {
                let seen = self.powers().take(i + 1);
                assert(seen.drop_last() =~= self.powers().take(i as int));
                assert(seen.last() == v);
            }
            if is_finite(v) {
                total = plus(total, v);
            }
            i += 1;
        }
        assert(self.powers().take(i as int) =~= self.powers());
        total
    }

    /// The area of the fire in the pixels in all, in square metres: the
    /// finite areas added up with `plus`, in the order of the list, starting
    /// from zero.
    pub fn total_are<S: Fn(u64, u64) -> u64>(&self, plus: S) -> (r: u64)
        requires
            adds_steadily(plus),
        ensures
            r == sum_finite(plus, self.areas()),
    {
        self.total_are_with(&plus)
    }

    /// The same as [`PixelList::total_are`], for an addition that is only
    /// lent.
    pub fn total_are_with<S: Fn(u64, u64) -> u64>(&self, plus: &S) -> (r: u64)
        requires
            adds_steadily(*plus),
        ensures
            r == sum_finite(*plus, self.areas()),
    {
        let mut total: u64 = 0;
        let mut i: usize = 0;
        while i < self.0.len()
            invariant
                i <= self.0.len(),
                adds_steadily(*plus),
                total == sum_finite(*plus, self.areas().take(i as int)),
            decreases self.0.len() - i,
        {
            let v = self.0[i].area;
            proof {
                let seen = self.areas().take(i + 1);
                assert(seen.drop_last() =~= self.areas().take(i as int));
                assert(seen.last() == v);
            }
            if is_finite(v) {
                total = plus(total, v);
            }
            i += 1;
        }
        assert(self.areas().take(i as int) =~= self.areas());
        total
    }

    /// The highest finite temperature in the list, or negative infinity.
    pub fn maximum_temperature(&self) -> (r: u64)
        ensures
            r == max_finite(self.temperatures()),
    {
        let mut best: u64 = NEG_INFINITY;
        let mut i: usize = 0;
        while i < self.0.len()
            invariant
                i <= self.0.len(),
                best == max_finite(self.temperatures().take(i as int)),
            decreases self.0.len() - i,
        {
            let t = self.0[i].temperature;
            proof {
                let seen = self.temperatures().take(i + 1);
                assert(seen.drop_last() =~= self.temperatures().take(i as int));
                assert(seen.last() == t);
            }
            if is_finite(t) {
                best = max_ignoring_nan(best, t);
            }
            i += 1;
        }
        assert(self.temperatures().take(i as int) =~= self.temperatures());
        best
    }

    /// The largest finite scan angle in the list, or negative infinity.
    pub fn maximum_scan_angle(&self) -> (r: u64)
        ensures
            r == max_finite(self.scan_angles()),
    {
        let mut best: u64 = NEG_INFINITY;
        let mut i: usize = 0;
        while i < self.0.len()
            invariant
                i <= self.0.len(),
                best == max_finite(self.scan_angles().take(i as int)),
            decreases self.0.len() - i,
        {
            let a = self.0[i].scan_angle;
            proof {
                let seen = self.scan_angles().take(i + 1);
                assert(seen.drop_last() =~= self.scan_angles().take(i as int));
                assert(seen.last() == a);
            }
            if is_finite(a) {
                best = max_ignoring_nan(best, a);
            }
            i += 1;
        }
        assert(self.scan_angles().take(i as int) =~= self.scan_angles());
        best
    }

    /// The smallest box that holds every pixel of the list.
    pub fn bounding_box(&self) -> (r: BoundingBox)
        ensures
            r == bounds_of(self@),
    {
        let mut bounds = BoundingBox {
            ll: Coord { lat: INFINITY, lon: INFINITY },
            ur: Coord { lat: NEG_INFINITY, lon: NEG_INFINITY },
        };
        let mut i: usize = 0;
        while i < self.0.len()
            invariant
                i <= self.0.len(),
                bounds == bounds_of(self@.take(i as int)),
            decreases self.0.len() - i,
        {
            let p = self.0[i];
            proof {
                let seen = self@.take(i + 1);
                assert(seen.drop_last() =~= self@.take(i as int));
                assert(seen.last() == p);
            }
            bounds = bounds.grow_to(p.ll).grow_to(p.lr).grow_to(p.ul).grow_to(p.ur);
            i += 1;
        }
        assert(self@.take(i as int) =~= self@);
        bounds
    }

    /// Merges the measurements of `other` into the pixel at `index`.
    pub fn max_merge_at(&mut self, index: usize, other: &Pixel)
        requires
            index < old(self)@.len(),
        ensures
            final(self)@ == old(self)@.update(
                index as int,
                old(self)@[index as int].merged_with(*other),
            ),
    {
        let mut pixel = self.0[index];
        pixel.max_merge(other);
        self.0[index] = pixel;
    }
}

} // verus!
