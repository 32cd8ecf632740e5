//! Clusters: the connected groups of fire pixels of one image, with what is
//! known of each as a whole.

use crate::binary64::{less_than, lt};
use crate::firepoint::FirePoint;
use crate::geo::Coord;
use crate::grouping::{connected_groups, groups_of, grown_from_seed, is_grouping, lists, placed};
use crate::pixel::{adds_steadily, max_finite, sum_finite, sum_of, Pixel, PixelList};
use crate::satellite::{Satellite, Sector};
use crate::scan_time::ScanTime;
use vstd::prelude::*;

verus! {

/// The scan angle, in degrees, from which on a cluster is not trusted: 8.3,
/// a little inside the limb of the Earth.
pub const MAX_SCAN_ANGLE: u64 = 0x4020_9999_9999_999A;

/// What a cluster holds of its pixels as a whole: its centroid, the sum of
/// their powers and the sum of their areas.
#[derive(Clone, Copy, Debug, PartialEq, Eq, Structural)]
pub struct ClusterTotals {
    pub centroid: Coord,
    pub power: u64,
    pub area: u64,
}

/// What a cluster holds.
pub struct ClusterModel {
    pub satellite: Satellite,
    pub sector: Sector,
    pub scan_start: ScanTime,
    pub scan_end: ScanTime,
    pub pixels: Seq<Pixel>,
    pub totals: ClusterTotals,
}

/// A connected group of fire pixels in one image.
#[derive(Debug)]
pub struct Cluster {
    satellite: Satellite,
    sector: Sector,
    scan_start: ScanTime,
    scan_end: ScanTime,
    pixels: PixelList,
    totals: ClusterTotals,
    max_temperature: u64,
    max_scan_angle: u64,
}

impl View for Cluster {
    type V = ClusterModel;

    closed spec fn view(&self) -> ClusterModel {
        ClusterModel {
            satellite: self.satellite,
            sector: self.sector,
            scan_start: self.scan_start,
            scan_end: self.scan_end,
            pixels: self.pixels@,
            totals: self.totals,
        }
    }
}

/// The code marks a pixel in which fire is credible: a good, saturated,
/// cloud-contaminated, high-probability or medium-probability fire pixel,
/// temporally filtered or not.
pub open spec fn credible_mask(code: i16) -> bool {
    10 <= code <= 14 || 30 <= code <= 34
}

impl ClusterModel {
    /// The temperatures of the pixels, in order.
    pub open spec fn temperatures(self) -> Seq<u64> {
        self.pixels.map_values(|p: Pixel| p.temperature)
    }

    /// The scan angles of the pixels, in order.
    pub open spec fn scan_angles(self) -> Seq<u64> {
        self.pixels.map_values(|p: Pixel| p.scan_angle)
    }

    /// The powers of the pixels, in order.
    pub open spec fn powers(self) -> Seq<u64> {
        self.pixels.map_values(|p: Pixel| p.power)
    }

    /// The areas of the pixels, in order.
    pub open spec fn areas(self) -> Seq<u64> {
        self.pixels.map_values(|p: Pixel| p.area)
    }

    /// Some pixel carries a mask code that makes fire credible.
    pub open spec fn has_credible_pixel(self) -> bool {
        exists|k: int| 0 <= k < self.pixels.len() && credible_mask(#[trigger] self.pixels[k].mask_flag.0)
    }

    /// The cluster is worth keeping: it has a credible pixel, and its largest
    /// scan angle is below the limit.
    pub open spec fn is_keeper(self) -> bool {
        self.has_credible_pixel() && lt(max_finite(self.scan_angles()), MAX_SCAN_ANGLE)
    }
}

impl Cluster {
    #[verifier::type_invariant]
    spec fn maxima_match(self) -> bool {
        &&& self.max_temperature == max_finite(self@.temperatures())
        &&& self.max_scan_angle == max_finite(self@.scan_angles())
    }

    /// Makes a cluster of a list of pixels and what was computed of it.
    pub fn new(
        satellite: Satellite,
        sector: Sector,
        scan_start: ScanTime,
        scan_end: ScanTime,
        pixels: PixelList,
        totals: ClusterTotals,
    ) -> (r: Cluster)
        ensures
            r@ == (ClusterModel {
                satellite,
                sector,
                scan_start,
                scan_end,
                pixels: pixels@,
                totals,
            }),
    {
        let max_temperature = pixels.maximum_temperature();
        let max_scan_angle = pixels.maximum_scan_angle();
        Cluster {
            satellite,
            sector,
            scan_start,
            scan_end,
            pixels,
            totals,
            max_temperature,
            max_scan_angle,
        }
    }

    /// The satellite whose image the cluster was found in.
    pub fn satellite(&self) -> (r: Satellite)
        ensures
            r == self@.satellite,
    {
        self.satellite
    }

    /// The sector that the image shows.
    pub fn sector(&self) -> (r: Sector)
        ensures
            r == self@.sector,
    {
        self.sector
    }

    /// When the scan of the image began.
    pub fn scan_start(&self) -> (r: ScanTime)
        ensures
            r == self@.scan_start,
    {
        self.scan_start
    }

    /// When the scan of the image ended.
    pub fn scan_end(&self) -> (r: ScanTime)
        ensures
            r == self@.scan_end,
    {
        self.scan_end
    }

    /// The pixels of the cluster.
    pub fn pixels(&self) -> (r: &PixelList)
        ensures
            r@ == self@.pixels,
    {
        &self.pixels
    }

    /// The number of pixels.
    pub fn pixel_count(&self) -> (r: usize)
        ensures
            r == self@.pixels.len(),
    {
        self.pixels.len()
    }

    /// The centroid that the cluster was made with.
    pub fn centroid(&self) -> (r: Coord)
        ensures
            r == self@.totals.centroid,
    {
        self.totals.centroid
    }

    /// The total power that the cluster was made with.
    pub fn total_power(&self) -> (r: u64)
        ensures
            r == self@.totals.power,
    {
        self.totals.power
    }

    /// The total area that the cluster was made with.
    pub fn total_area(&self) -> (r: u64)
        ensures
            r == self@.totals.area,
    {
        self.totals.area
    }

    /// The highest finite temperature among the pixels, or negative infinity.
    pub fn max_temperature(&self) -> (r: u64)
        ensures
            r == max_finite(self@.temperatures()),
    {
        proof {
            use_type_invariant(self);
        }
        self.max_temperature
    }

    /// The largest finite scan angle among the pixels, or negative infinity.
    pub fn max_scan_angle(&self) -> (r: u64)
        ensures
            r == max_finite(self@.scan_angles()),
    {
        proof {
            use_type_invariant(self);
        }
        self.max_scan_angle
    }
}

impl Clone for Cluster {
    fn clone(&self) -> (r: Cluster)
        ensures
            r@ == self@,
    {
        proof {
            use_type_invariant(self);
        }
        Cluster {
            satellite: self.satellite,
            sector: self.sector,
            scan_start: self.scan_start,
            scan_end: self.scan_end,
            pixels: self.pixels.clone(),
            totals: self.totals,
            max_temperature: self.max_temperature,
            max_scan_angle: self.max_scan_angle,
        }
    }
}

/// Tells whether a mask code makes fire credible.
pub fn is_credible_mask(code: i16) -> (r: bool)
    ensures
        r == credible_mask(code),
{
    (10 <= code && code <= 14) || (30 <= code && code <= 34)
}

/// Tells whether a cluster is worth keeping.
pub fn is_cluster_a_keeper(cluster: &Cluster) -> (r: bool)
    ensures
        r == cluster@.is_keeper(),
{
    let pixels = cluster.pixels().pixels();
    let mut credible = false;
    let mut k: usize = 0;
    while k < pixels.len() && !credible
        invariant
            k <= pixels.len(),
            pixels@ == cluster@.pixels,
            credible ==> cluster@.has_credible_pixel(),
            !credible ==> forall|q: int|
                0 <= q < k ==> !credible_mask(#[trigger] cluster@.pixels[q].mask_flag.0),
        decreases pixels.len() - k + if credible { 0int } else { 1int },
    {
        if is_credible_mask(pixels[k].mask_flag.0) {
            credible = true;
        } else {
            k += 1;
        }
    }
    credible && less_than(cluster.max_scan_angle(), MAX_SCAN_ANGLE)
}

/// The pixels of the points at the positions that a group lists.
pub open spec fn pixels_of(points: Seq<FirePoint>, group: Seq<usize>) -> Seq<Pixel> {
    group.map_values(|i: usize| points[i as int].pixel)
}

fn gather_pixels(points: &Vec<FirePoint>, group: &Vec<usize>) -> (r: PixelList)
    requires
        forall|k: int| 0 <= k < group.len() ==> (#[trigger] group[k]) < points.len(),
    ensures
        r@ == pixels_of(points@, group@),
{
    let mut list = PixelList::with_capacity(group.len());
    let mut k: usize = 0;
    while k < group.len()
        invariant
            k <= group.len(),
            forall|q: int| 0 <= q < group.len() ==> (#[trigger] group[q]) < points.len(),
            list@ == pixels_of(points@, group@.take(k as int)),
        decreases group.len() - k,
    {
        list.push(points[group[k]].pixel);
        assert(group@.take(k + 1) =~= group@.take(k as int).push(group[k as int]));
        assert(list@ =~= pixels_of(points@, group@.take(k + 1)));
        k += 1;
    }
    assert(group@.take(k as int) =~= group@);
    list
}

/// `centroid` gives a centre for every list that holds a pixel.
pub open spec fn centres_lists<C: Fn(&PixelList) -> Coord>(centroid: C) -> bool {
    forall|list: PixelList| list@.len() > 0 ==> call_requires(centroid, (&list,))
}

/// `centre` is what `centroid` gave for a list of these pixels.
pub open spec fn centre_of<C: Fn(&PixelList) -> Coord>(
    centroid: C,
    pixels: Seq<Pixel>,
    centre: Coord,
) -> bool {
    exists|list: PixelList| list@ == pixels && #[trigger] call_ensures(centroid, (&list,), centre)
}

/// The cluster at `g` is the group at `g`: it has the group's pixels in the
/// order in which they joined the group, and the image's satellite, sector
/// and times. Its power is the sum of the finite powers of its pixels, added
/// up with `plus` in that order, the first member's first; its area is the
/// sum of their areas in the same way; and its centroid is what `centroid`
/// gave for the list of its pixels.
pub open spec fn cluster_is_group<S: Fn(u64, u64) -> u64, C: Fn(&PixelList) -> Coord>(
    cluster: Cluster,
    points: Seq<FirePoint>,
    group: Seq<usize>,
    satellite: Satellite,
    sector: Sector,
    scan_start: ScanTime,
    scan_end: ScanTime,
    plus: S,
    centroid: C,
) -> bool {
    &&& cluster@.pixels == pixels_of(points, group)
    &&& cluster@.satellite == satellite
    &&& cluster@.sector == sector
    &&& cluster@.scan_start == scan_start
    &&& cluster@.scan_end == scan_end
    &&& cluster@.totals.power == sum_finite(plus, cluster@.powers())
    &&& cluster@.totals.area == sum_finite(plus, cluster@.areas())
    &&& centre_of(centroid, cluster@.pixels, cluster@.totals.centroid)
}

impl Cluster {
    /// Finds the clusters among the fire points of one image.
    ///
    /// The points are grouped as [`groups_of`] says: into the connected sets
    /// of touching cells, which split the points among them. Each group makes
    /// one cluster. The powers and the areas of its pixels are added up with
    /// `plus`, and `centroid` is called once, with the list of its pixels.
    pub fn from_fire_points<S: Fn(u64, u64) -> u64, C: Fn(&PixelList) -> Coord>(
        points: Vec<FirePoint>,
        scan_start: ScanTime,
        scan_end: ScanTime,
        satellite: Satellite,
        sector: Sector,
        plus: S,
        centroid: C,
    ) -> (clusters: Vec<Cluster>)
        requires
            adds_steadily(plus),
            centres_lists(centroid),
        ensures
            is_grouping(points@, groups_of(points@)),
            clusters.len() == groups_of(points@).len(),
            forall|g: int|
                0 <= g < clusters.len() ==> cluster_is_group(
                    #[trigger] clusters[g],
                    points@,
                    groups_of(points@)[g],
                    satellite,
                    sector,
                    scan_start,
                    scan_end,
                    plus,
                    centroid,
                ),
    {
        let groups = connected_groups(&points);
        let mut clusters: Vec<Cluster> = Vec::with_capacity(groups.len());
        let mut g: usize = 0;
        while g < groups.len()
            invariant
                g <= groups.len(),
                clusters.len() == g,
                lists(groups@) == groups_of(points@),
                is_grouping(points@, lists(groups@)),
                adds_steadily(plus),
                centres_lists(centroid),
                forall|h: int|
                    0 <= h < g ==> cluster_is_group(
                        #[trigger] clusters[h],
                        points@,
                        groups_of(points@)[h],
                        satellite,
                        sector,
                        scan_start,
                        scan_end,
                        plus,
                        centroid,
                    ),
            decreases groups.len() - g,
        {
            let group = &groups[g];
            assert(lists(groups@)[g as int] == group@);
            assert(grown_from_seed(points@, lists(groups@)[g as int]));
            assert forall|k: int| 0 <= k < group.len() implies (#[trigger] group[k])
                < points.len() by {
                assert(placed(lists(groups@), g as int, k));
                assert(lists(groups@)[g as int][k] < points.len());
            }
            let pixels = gather_pixels(&points, group);
            let totals = ClusterTotals {
                centroid: centroid(&pixels),
                power: pixels.total_power_with(&plus),
                area: pixels.total_are_with(&plus),
            };
            let ghost list = pixels;
            let cluster = Cluster::new(satellite, sector, scan_start, scan_end, pixels, totals);
            assert(list@ == cluster@.pixels && call_ensures(
                centroid,
                (&list,),
                cluster@.totals.centroid,
            ));
            assert(cluster@.powers() == list.powers());
            assert(cluster@.areas() == list.areas());
            clusters.push(cluster);
            g += 1;
        }
        clusters
    }
}

/// What a list of clusters holds.
pub struct ClusterListModel {
    pub satellite: Satellite,
    pub sector: Sector,
    pub scan_start: ScanTime,
    pub scan_end: ScanTime,
    pub clusters: Seq<Cluster>,
}

/// The clusters of one image.
#[derive(Debug)]
pub struct ClusterList {
    satellite: Satellite,
    sector: Sector,
    scan_start: ScanTime,
    scan_end: ScanTime,
    clusters: Vec<Cluster>,
}

impl View for ClusterList {
    type V = ClusterListModel;

    closed spec fn view(&self) -> ClusterListModel {
        ClusterListModel {
            satellite: self.satellite,
            sector: self.sector,
            scan_start: self.scan_start,
            scan_end: self.scan_end,
            clusters: self.clusters@,
        }
    }
}

/// The powers of some clusters added up with `plus`, in order, starting from
/// zero.
pub open spec fn power_of_all<S: Fn(u64, u64) -> u64>(plus: S, clusters: Seq<Cluster>) -> u64
    decreases clusters.len(),
{
    if clusters.len() == 0 {
        0
    } else {
        sum_of(plus, power_of_all(plus, clusters.drop_last()), clusters.last()@.totals.power)
    }
}

/// The clusters of a list that are worth keeping, in their order.
pub open spec fn keepers(clusters: Seq<Cluster>) -> Seq<Cluster> {
    clusters.filter(|c: Cluster| c@.is_keeper())
}

impl ClusterList {
    /// Puts together the clusters of one image.
    pub fn new(
        satellite: Satellite,
        sector: Sector,
        scan_start: ScanTime,
        scan_end: ScanTime,
        clusters: Vec<Cluster>,
    ) -> (r: ClusterList)
        ensures
            r@ == (ClusterListModel { satellite, sector, scan_start, scan_end, clusters: clusters@ }),
    {
        ClusterList { satellite, sector, scan_start, scan_end, clusters }
    }

    /// Finds the clusters among the fire points of one image; see
    /// [`Cluster::from_fire_points`].
    pub fn from_fire_points<S: Fn(u64, u64) -> u64, C: Fn(&PixelList) -> Coord>(
        points: Vec<FirePoint>,
        scan_start: ScanTime,
        scan_end: ScanTime,
        satellite: Satellite,
        sector: Sector,
        plus: S,
        centroid: C,
    ) -> (r: ClusterList)
        requires
            adds_steadily(plus),
            centres_lists(centroid),
        ensures
            r@.satellite == satellite,
            r@.sector == sector,
            r@.scan_start == scan_start,
            r@.scan_end == scan_end,
            is_grouping(points@, groups_of(points@)),
            r@.clusters.len() == groups_of(points@).len(),
            forall|g: int|
                0 <= g < r@.clusters.len() ==> cluster_is_group(
                    #[trigger] r@.clusters[g],
                    points@,
                    groups_of(points@)[g],
                    satellite,
                    sector,
                    scan_start,
                    scan_end,
                    plus,
                    centroid,
                ),
    {
        let clusters = Cluster::from_fire_points(
            points,
            scan_start,
            scan_end,
            satellite,
            sector,
            plus,
            centroid,
        );
        ClusterList { satellite, sector, scan_start, scan_end, clusters }
    }

    /// The satellite whose image the clusters were found in.
    pub fn satellite(&self) -> (r: Satellite)
        ensures
            r == self@.satellite,
    {
        self.satellite
    }

    /// The sector that the image shows.
    pub fn sector(&self) -> (r: Sector)
        ensures
            r == self@.sector,
    {
        self.sector
    }

    /// When the scan of the image began.
    pub fn scan_start(&self) -> (r: ScanTime)
        ensures
            r == self@.scan_start,
    {
        self.scan_start
    }

    /// When the scan of the image ended.
    pub fn scan_end(&self) -> (r: ScanTime)
        ensures
            r == self@.scan_end,
    {
        self.scan_end
    }

    /// The clusters, in order.
    pub fn clusters(&self) -> (r: &[Cluster])
        ensures
            r@ == self@.clusters,
    {
        self.clusters.as_slice()
    }

    /// The number of clusters.
    pub fn len(&self) -> (r: usize)
        ensures
            r == self@.clusters.len(),
    {
        self.clusters.len()
    }

    /// Tells whether the list holds no cluster.
    pub fn is_empty(&self) -> (r: bool)
        ensures
            r == (self@.clusters.len() == 0),
    {
        self.clusters.len() == 0
    }

    /// The clusters of a list for which `keep` gives `true`.
    pub open spec fn kept_by<F: Fn(&Cluster) -> bool>(clusters: Seq<Cluster>, keep: F) -> Seq<
        Cluster,
    > {
        clusters.filter(|c: Cluster| call_ensures(keep, (&c,), true))
    }

    /// The power of the clusters in all: their total powers added up with
    /// `plus`, in order, starting from zero.
    pub fn total_power<S: Fn(u64, u64) -> u64>(&self, plus: S) -> (r: u64)
        requires
            adds_steadily(plus),
        ensures
            r == power_of_all(plus, self@.clusters),
    {
        let mut total: u64 = 0;
        let mut k: usize = 0;
        while k < self.clusters.len()
            invariant
                k <= self.clusters.len(),
                adds_steadily(plus),
                total == power_of_all(plus, self.clusters@.take(k as int)),
            decreases self.clusters.len() - k,
        {
            let power = self.clusters[k].total_power();
            proof {
                let seen = self.clusters@.take(k + 1);
                assert(seen.drop_last() =~= self.clusters@.take(k as int));
                assert(seen.last() == self.clusters[k as int]);
            }
            total = plus(total, power);
            k += 1;
        }
        assert(self.clusters@.take(k as int) =~= self.clusters@);
        total
    }

    fn filter_as<F: Fn(&Cluster) -> bool>(
        &mut self,
        keep: F,
        Ghost(rule): Ghost<spec_fn(Cluster) -> bool>,
    )
        requires
            forall|c: Cluster| call_requires(keep, (&c,)),
            forall|c: Cluster, kept: bool|
                #[trigger] call_ensures(keep, (&c,), kept) ==> kept == rule(c),
        ensures
            final(self)@ == (ClusterListModel {
                clusters: old(self)@.clusters.filter(rule),
                ..old(self)@
            }),
    {
        let mut all: Vec<Cluster> = Vec::new();
        core::mem::swap(&mut self.clusters, &mut all);
        proof {
            all@.take(0).lemma_filter_len(rule);
        }
        for c in it: all
            invariant
                forall|c: Cluster| call_requires(keep, (&c,)),
                forall|c: Cluster, kept: bool|
                    #[trigger] call_ensures(keep, (&c,), kept) ==> kept == rule(c),
                self.clusters@ == it.seq().take(it.index()).filter(rule),
                self.satellite == old(self).satellite,
                self.sector == old(self).sector,
                self.scan_start == old(self).scan_start,
                self.scan_end == old(self).scan_end,
        {
            proof {
                let before = it.seq().take(it.index());
                assert(it.seq().take(it.index() + 1) =~= before.push(c));
                before.lemma_filter_push(c, rule);
            }
            if keep(&c) {
                self.clusters.push(c);
            }
        }
        assert(all@.take(all@.len() as int) =~= all@);
    }

    /// Removes the clusters for which `keep` gives `false`.
    pub fn filter<F: Fn(&Cluster) -> bool>(&mut self, keep: F)
        requires
            forall|c: Cluster| call_requires(keep, (&c,)),
            forall|c: Cluster|
                !(call_ensures(keep, (&c,), true) && #[trigger] call_ensures(keep, (&c,), false)),
        ensures
            final(self)@ == (ClusterListModel {
                clusters: ClusterList::kept_by(old(self)@.clusters, keep),
                ..old(self)@
            }),
    {
        self.filter_as(keep, Ghost(|c: Cluster| call_ensures(keep, (&c,), true)));
    }

    /// Removes the clusters that are not worth keeping.
    pub fn retain_keepers(&mut self)
        ensures
            final(self)@ == (ClusterListModel {
                clusters: keepers(old(self)@.clusters),
                ..old(self)@
            }),
    {
        self.filter_as(is_cluster_a_keeper, Ghost(|c: Cluster| c@.is_keeper()));
    }
}

/// Filtering a list that has been filtered by the same rule changes nothing.
pub proof fn lemma_filter_is_stable<A>(s: Seq<A>, pred: spec_fn(A) -> bool)
    ensures
        s.filter(pred).filter(pred) == s.filter(pred),
    decreases s.len(),
{
    if s.len() == 0 {
        s.lemma_filter_len(pred);
        assert(s.filter(pred) =~= s);
    } else {
        let front = s.drop_last();
        let last = s.last();
        assert(s =~= front.push(last));
        lemma_filter_is_stable(front, pred);
        front.lemma_filter_push(last, pred);
        if pred(last) {
            front.filter(pred).lemma_filter_push(last, pred);
        }
    }
}

/// Keeping the keepers of a list that holds only keepers changes nothing.
pub proof fn lemma_keepers_is_stable(clusters: Seq<Cluster>)
    ensures
        keepers(keepers(clusters)) == keepers(clusters),
{
    lemma_filter_is_stable(clusters, |c: Cluster| c@.is_keeper());
}

} // verus!
