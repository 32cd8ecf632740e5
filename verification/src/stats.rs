//! Running statistics over the clusters and images of an ingestion.

use crate::binary64::{at_least, ge, less_than, lt};
use crate::cluster::{Cluster, ClusterList, ClusterListModel, ClusterModel, MAX_SCAN_ANGLE};
use crate::pixel::max_finite;
use crate::satellite::{Satellite, Sector};
use crate::scan_time::ScanTime;
use vstd::prelude::*;

verus! {

/// One megawatt, ten, a hundred, and so on up to a hundred gigawatts, as
/// binary64 bit patterns of a number of megawatts.
pub const ONE_MEGAWATT: u64 = 0x3FF0_0000_0000_0000;

pub const TEN_MEGAWATTS: u64 = 0x4024_0000_0000_0000;

pub const HUNDRED_MEGAWATTS: u64 = 0x4059_0000_0000_0000;

pub const ONE_GIGAWATT: u64 = 0x408F_4000_0000_0000;

pub const TEN_GIGAWATTS: u64 = 0x40C3_8800_0000_0000;

pub const HUNDRED_GIGAWATTS: u64 = 0x40F8_6A00_0000_0000;

/// `num` as a percentage of `denom`, rounded to the nearest whole number, a
/// half upwards, and held to the largest `u32`.
///
/// A part of nothing is `u32::MAX`, or 0 where the part is itself nothing.
pub open spec fn percentage(num: u32, denom: u32) -> int {
    if denom == 0 {
        if num == 0 {
            0
        } else {
            u32::MAX as int
        }
    } else {
        let rounded = (200 * num + denom) / (2 * denom);
        if rounded > u32::MAX {
            u32::MAX as int
        } else {
            rounded
        }
    }
}

/// Gives `num` as a percentage of `denom`.
///
/// Below the largest `u32`, the result is the whole number whose distance
/// from a hundred times `num` over `denom` is at most a half, the upper one
/// of two such.
pub fn u32_pct(num: u32, denom: u32) -> (r: u32)
    ensures
        r == percentage(num, denom),
        denom > 0 && r < u32::MAX ==> 2 * denom * r <= 200 * num + denom < 2 * denom * (r + 1),
{
    if denom == 0 {
        if num == 0 {
            0
        } else {
            u32::MAX
        }
    } else {
        let rounded: u64 = (200 * (num as u64) + denom as u64) / (2 * (denom as u64));
        proof {
            let a = 200 * num + denom;
            let d = 2 * denom;
            assert(d * (a / d) <= a < d * (a / d + 1)) by (nonlinear_arith)
                requires
                    d > 0,
                    a >= 0,
            ;
        }
        if rounded > u32::MAX as u64 {
            u32::MAX
        } else {
            rounded as u32
        }
    }
}

/// What is remembered of a cluster that stands out.
pub struct ClusterStatModel {
    pub fire: ClusterModel,
    pub sat: Satellite,
    pub sector: Sector,
    pub start: ScanTime,
    pub end: ScanTime,
}

/// A cluster that stands out, with the image that it was found in.
#[derive(Debug)]
pub struct ClusterStat {
    fire: Cluster,
    sat: Satellite,
    sector: Sector,
    start: ScanTime,
    end: ScanTime,
}

impl View for ClusterStat {
    type V = ClusterStatModel;

    closed spec fn view(&self) -> ClusterStatModel {
        ClusterStatModel {
            fire: self.fire@,
            sat: self.sat,
            sector: self.sector,
            start: self.start,
            end: self.end,
        }
    }
}

impl ClusterStat {
    /// Remembers `fire`, found in an image of `list`.
    pub open spec fn of(fire: ClusterModel, list: ClusterListModel) -> ClusterStatModel {
        ClusterStatModel {
            fire,
            sat: list.satellite,
            sector: list.sector,
            start: list.scan_start,
            end: list.scan_end,
        }
    }

    fn new(fire: &Cluster, list: &ClusterList) -> (r: ClusterStat)
        ensures
            r@ == ClusterStat::of(fire@, list@),
    {
        ClusterStat {
            fire: fire.clone(),
            sat: list.satellite(),
            sector: list.sector(),
            start: list.scan_start(),
            end: list.scan_end(),
        }
    }

    /// The cluster.
    pub fn fire(&self) -> (r: &Cluster)
        ensures
            r@ == self@.fire,
    {
        &self.fire
    }

    /// The satellite of the image.
    pub fn sat(&self) -> (r: Satellite)
        ensures
            r == self@.sat,
    {
        self.sat
    }

    /// The sector of the image.
    pub fn sector(&self) -> (r: Sector)
        ensures
            r == self@.sector,
    {
        self.sector
    }

    /// When the scan of the image began.
    pub fn start(&self) -> (r: ScanTime)
        ensures
            r == self@.start,
    {
        self.start
    }

    /// When the scan of the image ended.
    pub fn end(&self) -> (r: ScanTime)
        ensures
            r == self@.end,
    {
        self.end
    }
}

/// What the statistics over clusters hold.
pub struct ClusterStatsModel {
    pub biggest_fire: ClusterStatModel,
    pub hottest_fire: ClusterStatModel,
    pub num_clusters: u32,
    pub num_power_lt_1mw: u32,
    pub num_power_lt_10mw: u32,
    pub num_power_lt_100mw: u32,
    pub num_power_lt_1gw: u32,
    pub num_power_lt_10gw: u32,
    pub num_power_lt_100gw: u32,
}

/// The most powerful and the hottest cluster seen, and how many clusters were
/// seen, in all and below each of six powers.
#[derive(Debug)]
pub struct ClusterStats {
    biggest_fire: ClusterStat,
    hottest_fire: ClusterStat,
    num_clusters: u32,
    num_power_lt_1mw: u32,
    num_power_lt_10mw: u32,
    num_power_lt_100mw: u32,
    num_power_lt_1gw: u32,
    num_power_lt_10gw: u32,
    num_power_lt_100gw: u32,
}

impl View for ClusterStats {
    type V = ClusterStatsModel;

    closed spec fn view(&self) -> ClusterStatsModel {
        ClusterStatsModel {
            biggest_fire: self.biggest_fire@,
            hottest_fire: self.hottest_fire@,
            num_clusters: self.num_clusters,
            num_power_lt_1mw: self.num_power_lt_1mw,
            num_power_lt_10mw: self.num_power_lt_10mw,
            num_power_lt_100mw: self.num_power_lt_100mw,
            num_power_lt_1gw: self.num_power_lt_1gw,
            num_power_lt_10gw: self.num_power_lt_10gw,
            num_power_lt_100gw: self.num_power_lt_100gw,
        }
    }
}

/// The statistics of an option of them.
pub open spec fn model_of(stats: Option<ClusterStats>) -> Option<ClusterStatsModel> {
    match stats {
        Some(s) => Some(s@),
        None => None,
    }
}

/// A count that goes up by one where `counts` holds.
pub open spec fn bumped(count: u32, counts: bool) -> u32 {
    if counts {
        (count + 1) as u32
    } else {
        count
    }
}

/// The cluster lies too far out on the disk to count: its largest scan angle
/// is at the limit or beyond.
pub open spec fn beyond_limit(fire: ClusterModel) -> bool {
    ge(max_finite(fire.scan_angles()), MAX_SCAN_ANGLE)
}

/// The statistics after `fire`, found in an image of `list`, has been
/// counted. Without statistics so far, `fire` is the first of the most
/// powerful and of the hottest; a later cluster takes such a place only if it
/// is above the one that holds it.
pub open spec fn counted(
    stats: Option<ClusterStatsModel>,
    fire: ClusterModel,
    list: ClusterListModel,
) -> ClusterStatsModel {
    let seen = ClusterStat::of(fire, list);
    let before = match stats {
        Some(s) => s,
        None => ClusterStatsModel {
            biggest_fire: seen,
            hottest_fire: seen,
            num_clusters: 0,
            num_power_lt_1mw: 0,
            num_power_lt_10mw: 0,
            num_power_lt_100mw: 0,
            num_power_lt_1gw: 0,
            num_power_lt_10gw: 0,
            num_power_lt_100gw: 0,
        },
    };
    let power = fire.totals.power;
    ClusterStatsModel {
        biggest_fire: if lt(before.biggest_fire.fire.totals.power, power) {
            seen
        } else {
            before.biggest_fire
        },
        hottest_fire: if lt(
            max_finite(before.hottest_fire.fire.temperatures()),
            max_finite(fire.temperatures()),
        ) {
            seen
        } else {
            before.hottest_fire
        },
        num_clusters: bumped(before.num_clusters, true),
        num_power_lt_1mw: bumped(before.num_power_lt_1mw, lt(power, ONE_MEGAWATT)),
        num_power_lt_10mw: bumped(before.num_power_lt_10mw, lt(power, TEN_MEGAWATTS)),
        num_power_lt_100mw: bumped(before.num_power_lt_100mw, lt(power, HUNDRED_MEGAWATTS)),
        num_power_lt_1gw: bumped(before.num_power_lt_1gw, lt(power, ONE_GIGAWATT)),
        num_power_lt_10gw: bumped(before.num_power_lt_10gw, lt(power, TEN_GIGAWATTS)),
        num_power_lt_100gw: bumped(before.num_power_lt_100gw, lt(power, HUNDRED_GIGAWATTS)),
    }
}

/// The number of clusters of a list that are counted: those that stand before
/// the first one beyond the limit.
pub open spec fn counted_len(clusters: Seq<Cluster>) -> nat
    decreases clusters.len(),
{
    if clusters.len() == 0 || beyond_limit(clusters.first()@) {
        0
    } else {
        1 + counted_len(clusters.drop_first())
    }
}

/// The statistics after the first `k` clusters of a list have been counted,
/// one after the other.
pub open spec fn counted_first(
    stats: Option<ClusterStatsModel>,
    list: ClusterListModel,
    k: nat,
) -> Option<ClusterStatsModel>
    decreases k,
{
    if k == 0 || k > list.clusters.len() {
        stats
    } else {
        Some(counted(counted_first(stats, list, (k - 1) as nat), list.clusters[k - 1]@, list))
    }
}

/// The number of clusters in the statistics, or 0 without statistics.
pub open spec fn clusters_so_far(stats: Option<ClusterStatsModel>) -> int {
    match stats {
        Some(s) => s.num_clusters as int,
        None => 0,
    }
}

impl ClusterStats {
    #[verifier::type_invariant]
    spec fn below_total(self) -> bool {
        &&& self.num_power_lt_1mw <= self.num_clusters
        &&& self.num_power_lt_10mw <= self.num_clusters
        &&& self.num_power_lt_100mw <= self.num_clusters
        &&& self.num_power_lt_1gw <= self.num_clusters
        &&& self.num_power_lt_10gw <= self.num_clusters
        &&& self.num_power_lt_100gw <= self.num_clusters
    }

    fn count(stats: Option<ClusterStats>, fire: &Cluster, list: &ClusterList) -> (r: ClusterStats)
        requires
            clusters_so_far(model_of(stats)) < u32::MAX,
        ensures
            r@ == counted(model_of(stats), fire@, list@),
    {
        let mut current = match stats {
            Some(s) => s,
            None => ClusterStats {
                biggest_fire: ClusterStat::new(fire, list),
                hottest_fire: ClusterStat::new(fire, list),
                num_clusters: 0,
                num_power_lt_1mw: 0,
                num_power_lt_10mw: 0,
                num_power_lt_100mw: 0,
                num_power_lt_1gw: 0,
                num_power_lt_10gw: 0,
                num_power_lt_100gw: 0,
            },
        };
        proof {
            use_type_invariant(&current);
        }
        let power = fire.total_power();
        if less_than(current.biggest_fire.fire.total_power(), power) {
            current.biggest_fire = ClusterStat::new(fire, list);
        }
        if less_than(current.hottest_fire.fire.max_temperature(), fire.max_temperature()) {
            current.hottest_fire = ClusterStat::new(fire, list);
        }
        current.num_clusters += 1;
        if less_than(power, ONE_MEGAWATT) {
            current.num_power_lt_1mw += 1;
        }
        if less_than(power, TEN_MEGAWATTS) {
            current.num_power_lt_10mw += 1;
        }
        if less_than(power, HUNDRED_MEGAWATTS) {
            current.num_power_lt_100mw += 1;
        }
        if less_than(power, ONE_GIGAWATT) {
            current.num_power_lt_1gw += 1;
        }
        if less_than(power, TEN_GIGAWATTS) {
            current.num_power_lt_10gw += 1;
        }
        if less_than(power, HUNDRED_GIGAWATTS) {
            current.num_power_lt_100gw += 1;
        }
        current
    }

    /// Counts the clusters of one image, in order, up to the first that lies
    /// beyond the limit of the scan angle: with it the counting of the image
    /// ends.
    pub fn update(stats: &mut Option<ClusterStats>, clusters: &ClusterList)
        requires
            clusters_so_far(model_of(*old(stats))) + clusters@.clusters.len() <= u32::MAX,
        ensures
            model_of(*final(stats)) == counted_first(
                model_of(*old(stats)),
                clusters@,
                counted_len(clusters@.clusters),
            ),
    {
        let list = clusters.clusters();
        let mut current: Option<ClusterStats> = None;
        core::mem::swap(stats, &mut current);
        let ghost before = model_of(current);
        let mut k: usize = 0;
        assert(list@.skip(0) =~= list@);
        while k < list.len()
            invariant
                k <= list.len(),
                list@ == clusters@.clusters,
                clusters_so_far(before) + list.len() <= u32::MAX,
                clusters_so_far(model_of(current)) == clusters_so_far(before) + k,
                model_of(current) == counted_first(before, clusters@, k as nat),
                counted_len(list@) == k + counted_len(list@.skip(k as int)),
            ensures
                model_of(current) == counted_first(before, clusters@, counted_len(list@)),
            decreases list.len() - k,
        {
            let fire = &list[k];
            assert(list@.skip(k as int).first() == list@[k as int]);
            if at_least(fire.max_scan_angle(), MAX_SCAN_ANGLE) {
                break;
            }
            assert(list@.skip(k as int).drop_first() =~= list@.skip(k + 1));
            current = Some(ClusterStats::count(current, fire, clusters));
            k += 1;
        }
        *stats = current;
    }

    /// The most powerful cluster counted.
    pub fn biggest_fire(&self) -> (r: &ClusterStat)
        ensures
            r@ == self@.biggest_fire,
    {
        &self.biggest_fire
    }

    /// The hottest cluster counted.
    pub fn hottest_fire(&self) -> (r: &ClusterStat)
        ensures
            r@ == self@.hottest_fire,
    {
        &self.hottest_fire
    }

    /// The number of clusters counted.
    pub fn num_clusters(&self) -> (r: u32)
        ensures
            r == self@.num_clusters,
    {
        self.num_clusters
    }

    /// The numbers of clusters counted with a power below one megawatt, ten,
    /// a hundred, one gigawatt, ten and a hundred, in this order.
    pub fn num_power_below(&self) -> (r: [u32; 6])
        ensures
            r@ == seq![
                self@.num_power_lt_1mw,
                self@.num_power_lt_10mw,
                self@.num_power_lt_100mw,
                self@.num_power_lt_1gw,
                self@.num_power_lt_10gw,
                self@.num_power_lt_100gw,
            ],
    {
        let r = [
            self.num_power_lt_1mw,
            self.num_power_lt_10mw,
            self.num_power_lt_100mw,
            self.num_power_lt_1gw,
            self.num_power_lt_10gw,
            self.num_power_lt_100gw,
        ];
        assert(r@ =~= seq![
            self@.num_power_lt_1mw,
            self@.num_power_lt_10mw,
            self@.num_power_lt_100mw,
            self@.num_power_lt_1gw,
            self@.num_power_lt_10gw,
            self@.num_power_lt_100gw,
        ]);
        r
    }
}

/// What is remembered of the clusters of one image: how many there are, and
/// their power in all, as the caller added it up.
#[derive(Clone, Copy, Debug, PartialEq, Eq, Structural)]
pub struct ClusterListStat {
    pub sat: Satellite,
    pub sector: Sector,
    pub num_clusters: usize,
    pub total_power: u64,
    pub start: ScanTime,
    pub end: ScanTime,
}

/// The images with the fewest and the most clusters, and with the least and
/// the most power.
#[derive(Clone, Copy, Debug, PartialEq, Eq, Structural)]
pub struct ClusterListStats {
    pub min_num: ClusterListStat,
    pub max_num: ClusterListStat,
    pub max_power: ClusterListStat,
    pub min_power: ClusterListStat,
}

impl ClusterListStat {
    /// What is remembered of `list`, whose clusters have `total_power` in all.
    pub fn of(list: &ClusterList, total_power: u64) -> (r: ClusterListStat)
        ensures
            r == (ClusterListStat {
                sat: list@.satellite,
                sector: list@.sector,
                num_clusters: list@.clusters.len() as usize,
                total_power,
                start: list@.scan_start,
                end: list@.scan_end,
            }),
    {
        ClusterListStat {
            sat: list.satellite(),
            sector: list.sector(),
            num_clusters: list.len(),
            total_power,
            start: list.scan_start(),
            end: list.scan_end(),
        }
    }
}

impl ClusterListStats {
    /// The statistics after the image `seen` has been looked at. The first
    /// image holds all four places. A later one takes the place of the most
    /// clusters if it has more, else that of the fewest if it has fewer; and
    /// it takes the place of the most power, or of the least, if its power is
    /// above, or below, that of the image that holds the place.
    pub open spec fn seeing(stats: Option<ClusterListStats>, seen: ClusterListStat) -> ClusterListStats {
        match stats {
            None => ClusterListStats {
                min_num: seen,
                max_num: seen,
                max_power: seen,
                min_power: seen,
            },
            Some(s) => ClusterListStats {
                max_num: if seen.num_clusters > s.max_num.num_clusters {
                    seen
                } else {
                    s.max_num
                },
                min_num: if seen.num_clusters <= s.max_num.num_clusters && seen.num_clusters
                    < s.min_num.num_clusters {
                    seen
                } else {
                    s.min_num
                },
                max_power: if lt(s.max_power.total_power, seen.total_power) {
                    seen
                } else {
                    s.max_power
                },
                min_power: if lt(seen.total_power, s.min_power.total_power) {
                    seen
                } else {
                    s.min_power
                },
            },
        }
    }

    /// Looks at one more image.
    pub fn update(stats: &mut Option<ClusterListStats>, seen: ClusterListStat)
        ensures
            *final(stats) == Some(ClusterListStats::seeing(*old(stats), seen)),
    {
        let next = match *stats {
            None => ClusterListStats {
                min_num: seen,
                max_num: seen,
                max_power: seen,
                min_power: seen,
            },
            Some(s) => {
                let mut next = s;
                if seen.num_clusters > s.max_num.num_clusters {
                    next.max_num = seen;
                } else if seen.num_clusters < s.min_num.num_clusters {
                    next.min_num = seen;
                }
                if less_than(s.max_power.total_power, seen.total_power) {
                    next.max_power = seen;
                }
                if less_than(seen.total_power, s.min_power.total_power) {
                    next.min_power = seen;
                }
                next
            },
        };
        *stats = Some(next);
    }
}

} // verus!
