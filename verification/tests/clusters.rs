use satfire::cluster::MAX_SCAN_ANGLE;
use satfire::stats::{
    HUNDRED_GIGAWATTS, HUNDRED_MEGAWATTS, ONE_GIGAWATT, ONE_MEGAWATT, TEN_GIGAWATTS, TEN_MEGAWATTS,
};
use satfire::{
    connected_groups, is_cluster_a_keeper, u32_pct, Cluster, ClusterList, ClusterListStat,
    ClusterListStats, ClusterStats, ClusterTotals, Coord, DataQualityFlagCode, FirePoint, MaskCode,
    Pixel, PixelList, Satellite, ScanTime, Sector,
};

fn coord(lat: f64, lon: f64) -> Coord {
    Coord { lat: lat.to_bits(), lon: lon.to_bits() }
}

fn cell(x: isize, y: isize, power: f64) -> FirePoint {
    let top = 45.0 - y as f64;
    let left = -120.0 + x as f64;
    FirePoint {
        x,
        y,
        pixel: Pixel {
            ul: coord(top, left),
            ll: coord(top - 1.0, left),
            lr: coord(top - 1.0, left + 1.0),
            ur: coord(top, left + 1.0),
            power: power.to_bits(),
            area: (power * 10.0).to_bits(),
            temperature: (400.0 + power).to_bits(),
            scan_angle: 5.0f64.to_bits(),
            mask_flag: MaskCode(10),
            data_quality_flag: DataQualityFlagCode(0),
        },
    }
}

fn time(hour: u32) -> ScanTime {
    ScanTime { year: 2021, day_of_year: 213, hour, minute: 0, second: 31 }
}

fn plus(a: u64, b: u64) -> u64 {
    (f64::from_bits(a) + f64::from_bits(b)).to_bits()
}

fn centroid(list: &PixelList) -> Coord {
    let mut lat = 0.0;
    let mut lon = 0.0;
    for p in list.pixels() {
        lat += (f64::from_bits(p.ul.lat) + f64::from_bits(p.lr.lat)) / 2.0;
        lon += (f64::from_bits(p.ul.lon) + f64::from_bits(p.lr.lon)) / 2.0;
    }
    let n = list.len() as f64;
    coord(lat / n, lon / n)
}

fn summarize(list: &PixelList) -> ClusterTotals {
    ClusterTotals { centroid: centroid(list), power: list.total_power(plus), area: list.total_are(plus) }
}

fn cluster_with(power: f64, temperature: f64, scan_angle: f64, mask: i16) -> Cluster {
    let mut p = cell(1, 1, power).pixel;
    p.temperature = temperature.to_bits();
    p.scan_angle = scan_angle.to_bits();
    p.mask_flag = MaskCode(mask);
    let mut pixels = PixelList::new();
    pixels.push(p);
    let totals = summarize(&pixels);
    Cluster::new(Satellite::G17, Sector::Conus, time(1), time(2), pixels, totals)
}

fn list_of(clusters: Vec<Cluster>) -> ClusterList {
    ClusterList::new(Satellite::G17, Sector::Conus, time(1), time(2), clusters)
}

fn powers(list: &ClusterList) -> Vec<f64> {
    list.clusters().iter().map(|c| f64::from_bits(c.total_power())).collect()
}

#[test]
fn touching_cells_form_two_groups() {
    let points = vec![cell(0, 0, 1.0), cell(0, 1, 2.0), cell(2, 2, 3.0), cell(3, 2, 4.0)];
    assert_eq!(connected_groups(&points), vec![vec![0, 1], vec![2, 3]]);
}

#[test]
fn members_join_in_the_order_of_the_passes() {
    // The point at 1 touches the group only once the point at 2 has joined.
    let points = vec![cell(0, 0, 1.0), cell(2, 0, 1.0), cell(1, 0, 1.0), cell(9, 9, 1.0), cell(3, 1, 1.0)];
    assert_eq!(connected_groups(&points), vec![vec![0, 2, 1, 4], vec![3]]);
}

#[test]
fn a_chain_that_runs_backwards_takes_a_pass_per_link() {
    let points: Vec<FirePoint> = vec![cell(0, 0, 1.0), cell(4, 0, 1.0), cell(3, 0, 1.0), cell(2, 0, 1.0), cell(1, 0, 1.0)];
    assert_eq!(connected_groups(&points), vec![vec![0, 4, 3, 2, 1]]);
}

#[test]
fn every_point_is_in_one_group_once() {
    let mut points = Vec::new();
    for k in 0..40isize {
        points.push(cell((k * 7) % 11, (k * 5) % 13, 1.0));
    }
    points.push(cell(0, 0, 1.0));
    points.push(cell(0, 0, 2.0));
    points.push(cell(isize::MAX, isize::MIN, 1.0));
    points.push(cell(isize::MIN, isize::MAX, 1.0));
    let groups = connected_groups(&points);

    let mut seen = vec![0usize; points.len()];
    for group in &groups {
        assert!(!group.is_empty());
        for &i in group {
            seen[i] += 1;
        }
    }
    assert!(seen.iter().all(|&n| n == 1));

    let near = |a: &FirePoint, b: &FirePoint| {
        (a.x as i128 - b.x as i128).abs() <= 1 && (a.y as i128 - b.y as i128).abs() <= 1
    };
    for (g, group) in groups.iter().enumerate() {
        for (k, &i) in group.iter().enumerate() {
            if k > 0 {
                assert!(group[..k].iter().any(|&j| near(&points[i], &points[j])));
                assert!(group[0] < i);
            }
            for other in &groups[g + 1..] {
                assert!(group[0] < other[0]);
                for &j in other {
                    assert!(!near(&points[i], &points[j]));
                }
            }
        }
    }
}

#[test]
fn no_points_no_groups() {
    assert_eq!(connected_groups(&Vec::new()), Vec::<Vec<usize>>::new());
    assert_eq!(connected_groups(&vec![cell(0, 0, 1.0)]), vec![vec![0]]);
}

#[test]
fn cells_touch_within_one_step() {
    let origin = cell(0, 0, 1.0);
    for x in -2..=2isize {
        for y in -2..=2isize {
            assert_eq!(origin.touches(&cell(x, y, 1.0)), x.abs() <= 1 && y.abs() <= 1);
        }
    }
    assert!(!cell(isize::MAX, 0, 1.0).touches(&cell(isize::MIN, 0, 1.0)));
    assert!(cell(isize::MAX, 0, 1.0).touches(&cell(isize::MAX - 1, 1, 1.0)));
}

#[test]
fn clusters_are_made_of_the_groups() {
    let points = vec![cell(0, 0, 1.0), cell(0, 1, 2.0), cell(2, 2, 3.0), cell(3, 2, 4.5)];
    let clusters = Cluster::from_fire_points(points.clone(), time(1), time(2), Satellite::G16, Sector::Full, plus, centroid);
    assert_eq!(clusters.len(), 2);
    assert_eq!(clusters[0].pixel_count(), 2);
    assert_eq!(clusters[1].pixel_count(), 2);
    assert_eq!(clusters[0].pixels().pixels(), &[points[0].pixel, points[1].pixel][..]);
    assert_eq!(clusters[1].pixels().pixels(), &[points[2].pixel, points[3].pixel][..]);
    assert_eq!(f64::from_bits(clusters[0].total_power()), 3.0);
    assert_eq!(f64::from_bits(clusters[1].total_power()), 7.5);
    assert_eq!(f64::from_bits(clusters[1].total_area()), 75.0);
    assert_eq!(clusters[0].centroid(), coord(44.0, -119.5));
    assert_eq!(f64::from_bits(clusters[1].max_temperature()), 404.5);
    assert_eq!(f64::from_bits(clusters[0].max_scan_angle()), 5.0);
    assert_eq!(clusters[0].satellite(), Satellite::G16);
    assert_eq!(clusters[0].sector(), Sector::Full);
    assert_eq!(clusters[1].scan_start(), time(1));
    assert_eq!(clusters[1].scan_end(), time(2));

    let list = ClusterList::from_fire_points(points, time(1), time(2), Satellite::G16, Sector::Full, plus, centroid);
    assert_eq!(list.len(), 2);
    assert!(!list.is_empty());
    assert_eq!(list.satellite(), Satellite::G16);
    assert_eq!(list.sector(), Sector::Full);
    assert_eq!(list.scan_start(), time(1));
    assert_eq!(list.scan_end(), time(2));
    assert_eq!(powers(&list), vec![3.0, 7.5]);
}

#[test]
fn the_limit_of_the_scan_angle_is_eight_point_three() {
    assert_eq!(MAX_SCAN_ANGLE, 8.3f64.to_bits());
}

#[test]
fn keepers_have_a_credible_pixel_inside_the_limit() {
    for mask in -3..60i16 {
        let keep = (10..=14).contains(&mask) || (30..=34).contains(&mask);
        assert_eq!(is_cluster_a_keeper(&cluster_with(1.0, 300.0, 5.0, mask)), keep, "mask {}", mask);
    }
    assert!(is_cluster_a_keeper(&cluster_with(1.0, 300.0, 8.299999999999999, 10)));
    assert!(!is_cluster_a_keeper(&cluster_with(1.0, 300.0, 8.3, 10)));
    assert!(!is_cluster_a_keeper(&cluster_with(1.0, 300.0, 8.7, 33)));
    assert!(is_cluster_a_keeper(&cluster_with(1.0, 300.0, f64::NAN, 33)));
    assert!(is_cluster_a_keeper(&cluster_with(1.0, 300.0, f64::INFINITY, 33)));

    let mut pixels = PixelList::new();
    pixels.push(cluster_with(1.0, 300.0, 5.0, 0).pixels().pixels()[0]);
    pixels.push(cluster_with(1.0, 300.0, 8.0, 31).pixels().pixels()[0]);
    let totals = summarize(&pixels);
    let mixed = Cluster::new(Satellite::G16, Sector::Meso1, time(1), time(2), pixels, totals);
    assert!(is_cluster_a_keeper(&mixed));
}

#[test]
fn keeping_twice_is_keeping_once() {
    let make = || {
        list_of(vec![
            cluster_with(1.0, 300.0, 5.0, 10),
            cluster_with(2.0, 300.0, 9.0, 10),
            cluster_with(3.0, 300.0, 5.0, 0),
            cluster_with(4.0, 300.0, 8.0, 34),
            cluster_with(5.0, 300.0, 8.3, 34),
        ])
    };
    let mut once = make();
    once.retain_keepers();
    assert_eq!(powers(&once), vec![1.0, 4.0]);
    let mut twice = make();
    twice.retain_keepers();
    twice.retain_keepers();
    assert_eq!(powers(&twice), powers(&once));
    assert_eq!(twice.satellite(), Satellite::G17);
    assert_eq!(twice.scan_end(), time(2));

    let mut by_rule = make();
    by_rule.filter(is_cluster_a_keeper);
    assert_eq!(powers(&by_rule), vec![1.0, 4.0]);
    let mut by_power = make();
    by_power.filter(|c: &Cluster| f64::from_bits(c.total_power()) > 2.5);
    assert_eq!(powers(&by_power), vec![3.0, 4.0, 5.0]);
}

#[test]
fn a_copy_of_a_cluster_holds_the_same() {
    let c = cluster_with(12.0, 350.0, 4.0, 11);
    let d = c.clone();
    assert_eq!(d.pixels().pixels(), c.pixels().pixels());
    assert_eq!(d.total_power(), c.total_power());
    assert_eq!(d.centroid(), c.centroid());
    assert_eq!(d.max_temperature(), 350.0f64.to_bits());
    assert_eq!(d.max_scan_angle(), 4.0f64.to_bits());
}

#[test]
fn percentages_are_rounded() {
    assert_eq!(u32_pct(1, 2), 50);
    assert_eq!(u32_pct(1, 3), 33);
    assert_eq!(u32_pct(2, 3), 67);
    assert_eq!(u32_pct(1, 8), 13);
    assert_eq!(u32_pct(7, 7), 100);
    assert_eq!(u32_pct(0, 9), 0);
    assert_eq!(u32_pct(3, 1), 300);
    assert_eq!(u32_pct(0, 0), 0);
    assert_eq!(u32_pct(5, 0), u32::MAX);
    assert_eq!(u32_pct(u32::MAX, 1), u32::MAX);
    assert_eq!(u32_pct(u32::MAX, u32::MAX), 100);
    assert_eq!(u32_pct(42_949_672, 1), 4_294_967_200);
    assert_eq!(u32_pct(42_949_673, 1), u32::MAX);
}

#[test]
fn the_six_powers_are_powers_of_ten() {
    assert_eq!(ONE_MEGAWATT, 1.0f64.to_bits());
    assert_eq!(TEN_MEGAWATTS, 10.0f64.to_bits());
    assert_eq!(HUNDRED_MEGAWATTS, 100.0f64.to_bits());
    assert_eq!(ONE_GIGAWATT, 1_000.0f64.to_bits());
    assert_eq!(TEN_GIGAWATTS, 10_000.0f64.to_bits());
    assert_eq!(HUNDRED_GIGAWATTS, 100_000.0f64.to_bits());
}

#[test]
fn statistics_count_clusters_by_power() {
    let mut stats: Option<ClusterStats> = None;
    ClusterStats::update(&mut stats, &list_of(Vec::new()));
    assert!(stats.is_none());

    let first = list_of(vec![
        cluster_with(0.5, 310.0, 5.0, 10),
        cluster_with(50.0, 300.0, 5.0, 10),
        cluster_with(5_000.0, 305.0, 5.0, 10),
    ]);
    ClusterStats::update(&mut stats, &first);
    {
        let s = stats.as_ref().unwrap();
        assert_eq!(s.num_clusters(), 3);
        assert_eq!(s.num_power_below(), [1, 1, 2, 2, 3, 3]);
        assert_eq!(f64::from_bits(s.biggest_fire().fire().total_power()), 5_000.0);
        assert_eq!(f64::from_bits(s.hottest_fire().fire().max_temperature()), 310.0);
        assert_eq!(s.biggest_fire().sat(), Satellite::G17);
        assert_eq!(s.biggest_fire().sector(), Sector::Conus);
        assert_eq!(s.biggest_fire().start(), time(1));
        assert_eq!(s.hottest_fire().end(), time(2));
    }

    // Counting an image ends with the first cluster at or beyond the limit.
    let second = ClusterList::new(
        Satellite::G16,
        Sector::Full,
        time(3),
        time(4),
        vec![
            cluster_with(200_000.0, 310.0, 5.0, 10),
            cluster_with(5.0, 900.0, 8.3, 10),
            cluster_with(900_000.0, 950.0, 1.0, 10),
        ],
    );
    ClusterStats::update(&mut stats, &second);
    let s = stats.as_ref().unwrap();
    assert_eq!(s.num_clusters(), 4);
    assert_eq!(s.num_power_below(), [1, 1, 2, 2, 3, 3]);
    assert_eq!(f64::from_bits(s.biggest_fire().fire().total_power()), 200_000.0);
    assert_eq!(s.biggest_fire().sat(), Satellite::G16);
    assert_eq!(s.biggest_fire().start(), time(3));
    // A tie does not take the place.
    assert_eq!(s.hottest_fire().sat(), Satellite::G17);
    assert_eq!(f64::from_bits(s.hottest_fire().fire().max_temperature()), 310.0);
}

#[test]
fn statistics_of_images_keep_the_extremes() {
    let stat = |n: usize, power: f64, hour: u32| ClusterListStat {
        sat: Satellite::G16,
        sector: Sector::Meso2,
        num_clusters: n,
        total_power: power.to_bits(),
        start: time(hour),
        end: time(hour + 1),
    };
    let mut stats: Option<ClusterListStats> = None;
    ClusterListStats::update(&mut stats, stat(5, 100.0, 1));
    assert_eq!(
        stats,
        Some(ClusterListStats {
            min_num: stat(5, 100.0, 1),
            max_num: stat(5, 100.0, 1),
            max_power: stat(5, 100.0, 1),
            min_power: stat(5, 100.0, 1),
        })
    );
    ClusterListStats::update(&mut stats, stat(7, 50.0, 2));
    ClusterListStats::update(&mut stats, stat(2, 500.0, 3));
    ClusterListStats::update(&mut stats, stat(5, f64::NAN, 4));
    ClusterListStats::update(&mut stats, stat(7, 500.0, 5));
    assert_eq!(
        stats,
        Some(ClusterListStats {
            min_num: stat(2, 500.0, 3),
            max_num: stat(7, 50.0, 2),
            max_power: stat(2, 500.0, 3),
            min_power: stat(7, 50.0, 2),
        })
    );

    let list = list_of(vec![cluster_with(1.0, 300.0, 5.0, 10), cluster_with(2.0, 300.0, 5.0, 10)]);
    assert_eq!(list.total_power(plus), 3.0f64.to_bits());
    assert_eq!(list_of(Vec::new()).total_power(plus), 0.0f64.to_bits());
    assert_eq!(
        ClusterListStat::of(&list, 3.0f64.to_bits()),
        ClusterListStat {
            sat: Satellite::G17,
            sector: Sector::Conus,
            num_clusters: 2,
            total_power: 3.0f64.to_bits(),
            start: time(1),
            end: time(2),
        }
    );
}

#[test]
fn the_power_of_a_cluster_is_added_up_in_joining_order() {
    // The members join in the order 0, 2, 1; a power that is no number is
    // left out.
    let points = vec![
        cell(0, 0, 1.0e16),
        cell(2, 0, -1.0e16),
        cell(1, 0, 1.0),
        cell(9, 9, f64::NAN),
        cell(9, 8, 2.5),
        cell(8, 8, f64::INFINITY),
    ];
    let clusters = Cluster::from_fire_points(points, time(1), time(2), Satellite::G17, Sector::Meso1, plus, centroid);
    assert_eq!(clusters.len(), 2);
    assert_eq!(f64::from_bits(clusters[0].total_power()), ((0.0 + 1.0e16) + 1.0) + -1.0e16);
    assert_eq!(f64::from_bits(clusters[0].total_power()), 0.0);
    assert_eq!(f64::from_bits(clusters[0].total_area()), ((0.0 + 1.0e17) + 10.0) + -1.0e17);
    assert_eq!(clusters[1].pixel_count(), 3);
    assert_eq!(f64::from_bits(clusters[1].total_power()), 2.5);
    assert_eq!(clusters[1].centroid(), centroid(clusters[1].pixels()));
}
