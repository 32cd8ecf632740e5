use satfire::dir_filter::{enters_with_cutoff, parse_integer};
use satfire::firesatimage::scan_time_from_fields;
use satfire::pipeline::{forwards, has_data_extension, is_new_image, BUFFER_CAPACITY};
use satfire::text::{contains, find, matches_at};
use satfire::{
    create_standard_dir_filter, DataQualityFlagCode, MaskCode, parse_satellite_description_from_file_name, FindFireError, FireCode,
    FireDataNextNewFireState, FireSatImage, InsertBuffer, MostRecent, SatFireError, Satellite,
    ScanTime, Sector,
};

const NAME: &str = "OR_ABI-L2-FDCF-M6_G17_s20212130000319_e20212130009386_c20212130009474.nc";

fn cutoff() -> ScanTime {
    ScanTime { year: 2021, day_of_year: 100, hour: 12, minute: 30, second: 0 }
}

fn filter() -> satfire::StandardDirFilter {
    let mut most_recent = MostRecent::new();
    most_recent.insert(Satellite::G16, Sector::Full, cutoff());
    create_standard_dir_filter(most_recent)
}

#[test]
fn directories_before_the_cutoff_are_left_out() {
    let f = filter();
    assert!(!f.enters_directory("/archive/G16/ABI-L2-FDCF/2020"));
    assert!(!f.enters_directory("/archive/G16/ABI-L2-FDCF/2020/300/23"));
    assert!(!f.enters_directory("/archive/G16/ABI-L2-FDCF/2021/099"));
    assert!(!f.enters_directory("/archive/G16/ABI-L2-FDCF/2021/100/11"));
    assert!(f.enters_directory("/archive/G16/ABI-L2-FDCF/2021/100/12"));
    assert!(f.enters_directory("/archive/G16/ABI-L2-FDCF/2021/100/13"));
    assert!(f.enters_directory("/archive/G16/ABI-L2-FDCF/2021/101"));
    assert!(f.enters_directory("/archive/G16/ABI-L2-FDCF/2021/101/00"));
    assert!(f.enters_directory("/archive/G16/ABI-L2-FDCF/2022"));
    assert!(f.enters_directory("/archive/G16/ABI-L2-FDCF/2022/001/00"));
}

#[test]
fn directories_that_say_too_little_are_entered() {
    let f = filter();
    assert!(f.enters_directory(""));
    assert!(f.enters_directory("/archive"));
    assert!(f.enters_directory("/archive/G16"));
    assert!(f.enters_directory("/archive/G16/ABI-L2-FDCF"));
    assert!(f.enters_directory("/archive/G16/ABI-L2-FDCF/2021"));
    assert!(f.enters_directory("/archive/G16/ABI-L2-FDCF/2021/100"));
    assert!(f.enters_directory("/archive/G16/ABI-L2-FDCF/2021/100/"));
    // No satellite or no sector in the path: nothing is known of a cutoff.
    assert!(f.enters_directory("/archive/G18/ABI-L2-FDCF/2010/001/00"));
    assert!(f.enters_directory("/archive/G16/ABI-L2-FDCM/2010/001/00"));
    assert!(f.enters_directory("/archive/2010/001/00"));
}

#[test]
fn a_pair_without_an_entry_goes_by_the_operational_date() {
    let f = filter();
    // G16 is operational from day 352 of 2017, 12:00.
    assert!(!f.enters_directory("/archive/G16/ABI-L2-FDCC/2017/351"));
    assert!(!f.enters_directory("/archive/G16/ABI-L2-FDCC/2017/352/11"));
    assert!(f.enters_directory("/archive/G16/ABI-L2-FDCC/2017/352/12"));
    // G17 is operational from day 43 of 2019, 12:00.
    assert!(!f.enters_directory("/archive/G17/ABI-L2-FDCF/2018"));
    assert!(!f.enters_directory("/archive/G17/ABI-L2-FDCF/2019/042"));
    assert!(!f.enters_directory("/archive/G17/ABI-L2-FDCF/2019/043/11"));
    assert!(f.enters_directory("/archive/G17/ABI-L2-FDCF/2019/043/12"));
    assert_eq!(Satellite::G16.operational(), ScanTime { year: 2017, day_of_year: 352, hour: 12, minute: 0, second: 0 });
    assert_eq!(Satellite::G17.operational(), ScanTime { year: 2019, day_of_year: 43, hour: 12, minute: 0, second: 0 });
}

#[test]
fn components_are_read_by_their_first_bytes() {
    let c = cutoff();
    // Years up to 2016 are no years; the first year found counts.
    assert!(!enters_with_cutoff(b"G16-FDCF/2016/2020", c));
    assert!(enters_with_cutoff(b"G16-FDCF/2016/2022/2020", c));
    assert!(!enters_with_cutoff(b"2020abc", c));
    assert!(enters_with_cutoff(b"202", c));
    // The day is looked for behind the year only, the hour behind the day.
    assert!(!enters_with_cutoff(b"099/2021/x/099", c));
    assert!(enters_with_cutoff(b"099/2021/x/101", c));
    assert!(enters_with_cutoff(b"2021/000/367/100/25/12", c));
    assert!(!enters_with_cutoff(b"2021/000/367/100/25/11", c));
    assert!(enters_with_cutoff(b"2021/100/24", c));
    assert!(!enters_with_cutoff(b"2021/100/+9", c));
    assert!(!enters_with_cutoff(b"2021/+99", c));
    assert!(!enters_with_cutoff(b"2021/100/00", c));
    assert!(enters_with_cutoff(b"2021/100/-1/12", c));
    assert!(enters_with_cutoff(b"2021//100///12", c));
}

#[test]
fn a_walk_keeps_files_and_what_is_neither() {
    let f = filter();
    let old = "/archive/G16/ABI-L2-FDCF/2020";
    assert!(f.keeps(true, false, old));
    assert!(f.keeps(false, false, old));
    assert!(!f.keeps(false, true, old));
    assert!(f.keeps(false, true, "/archive/G16/ABI-L2-FDCF/2022"));
}

#[test]
fn integers_are_read_with_an_optional_sign() {
    assert_eq!(parse_integer(b"2021", 0, 4), Some(2021));
    assert_eq!(parse_integer(b"x0099", 1, 4), Some(99));
    assert_eq!(parse_integer(b"+123", 0, 4), Some(123));
    assert_eq!(parse_integer(b"-123", 0, 4), Some(-123));
    assert_eq!(parse_integer(b"-0", 0, 2), Some(0));
    assert_eq!(parse_integer(b"999999999", 0, 9), Some(999_999_999));
    assert_eq!(parse_integer(b"-99999999", 0, 9), Some(-99_999_999));
    assert_eq!(parse_integer(b"12a4", 0, 4), None);
    assert_eq!(parse_integer(b"1 23", 0, 4), None);
    assert_eq!(parse_integer(b"+", 0, 1), None);
    assert_eq!(parse_integer(b"-", 0, 1), None);
    assert_eq!(parse_integer(b"1+23", 0, 4), None);
    assert_eq!(parse_integer(b"1234", 0, 0), None);
    for text in ["2021", "+021", "-021", "0000", "12 4", "+-12", "١٢٣٤", "9999", "+", "", "007"] {
        let bytes = text.as_bytes();
        if bytes.len() <= 9 {
            assert_eq!(parse_integer(bytes, 0, bytes.len()), text.parse::<i32>().ok(), "{:?}", text);
        }
    }
}

#[test]
fn the_table_of_newest_scans() {
    let mut table = MostRecent::new();
    for sat in [Satellite::G16, Satellite::G17] {
        for sector in [Sector::Full, Sector::Conus, Sector::Meso1, Sector::Meso2] {
            assert_eq!(table.get(sat, sector), None);
            assert_eq!(table.cutoff_for(sat, sector), sat.operational());
        }
    }
    let other = ScanTime { year: 2022, day_of_year: 1, hour: 0, minute: 0, second: 0 };
    table.insert(Satellite::G17, Sector::Meso1, cutoff());
    table.insert(Satellite::G16, Sector::Meso1, other);
    assert_eq!(table.get(Satellite::G17, Sector::Meso1), Some(cutoff()));
    assert_eq!(table.get(Satellite::G16, Sector::Meso1), Some(other));
    assert_eq!(table.get(Satellite::G17, Sector::Meso2), None);
    table.insert(Satellite::G17, Sector::Meso1, other);
    assert_eq!(table.cutoff_for(Satellite::G17, Sector::Meso1), other);
}

#[test]
fn a_file_name_tells_satellite_sector_and_times() {
    let start = ScanTime { year: 2021, day_of_year: 213, hour: 0, minute: 0, second: 31 };
    let end = ScanTime { year: 2021, day_of_year: 213, hour: 0, minute: 9, second: 38 };
    assert_eq!(FireSatImage::find_start_time(NAME), Ok(start));
    assert_eq!(FireSatImage::find_end_time(NAME), Ok(end));
    assert_eq!(FireSatImage::find_satellite_name(NAME), Ok(Satellite::G17));
    assert_eq!(FireSatImage::find_sector_name(NAME), Ok(Sector::Full));
    assert_eq!(
        parse_satellite_description_from_file_name(NAME),
        Some((Satellite::G17, Sector::Full, start, end))
    );
    let image = FireSatImage::from_file_name(NAME).unwrap();
    assert_eq!(image.satellite(), Satellite::G17);
    assert_eq!(image.sector(), Sector::Full);
    assert_eq!(image.start(), start);
    assert_eq!(image.end(), end);
    assert_eq!(
        parse_satellite_description_from_file_name("G16_FDCM2_e2020123123559x_s20240600102033"),
        Some((
            Satellite::G16,
            Sector::Meso2,
            ScanTime { year: 2024, day_of_year: 60, hour: 1, minute: 2, second: 3 },
            ScanTime { year: 2020, day_of_year: 123, hour: 12, minute: 35, second: 59 },
        ))
    );
}

#[test]
fn file_names_that_cannot_be_read_give_errors() {
    assert_eq!(FireSatImage::find_start_time("OR_ABI-L2-FDCF-M6_G17.nc"), Err(FindFireError::InvalidFormat));
    assert_eq!(FireSatImage::find_end_time("G17_s20212130000319.nc"), Err(FindFireError::InvalidFormat));
    assert_eq!(FireSatImage::find_start_time("G17_s2021213"), Err(FindFireError::TimeNotParsed));
    assert_eq!(FireSatImage::find_start_time("G17_s"), Err(FindFireError::TimeNotParsed));
    assert_eq!(FireSatImage::find_start_time("G17_s202121300003"), Err(FindFireError::TimeNotParsed));
    assert_eq!(FireSatImage::find_start_time("G17_s2021x130000319"), Err(FindFireError::TimeNotParsed));
    assert_eq!(FireSatImage::find_start_time("G17_s20214000000319"), Err(FindFireError::TimeNotParsed));
    assert_eq!(FireSatImage::find_start_time("G17_s20212132500319"), Err(FindFireError::TimeNotParsed));
    assert_eq!(FireSatImage::find_start_time("G17_s202121300003é9"), Err(FindFireError::TimeNotParsed));
    assert_eq!(FireSatImage::find_start_time("G17_sé0212130000319"), Err(FindFireError::TimeNotParsed));
    // Only the first marker counts.
    assert_eq!(FireSatImage::find_start_time("a_sb_s20212130000319"), Err(FindFireError::TimeNotParsed));
    assert_eq!(FireSatImage::find_satellite_name("OR_ABI-L2-FDCF-M6_G18"), Err(FindFireError::NoSatellite));
    assert_eq!(FireSatImage::find_sector_name("OR_ABI-L2-FDCM-M6_G17"), Err(FindFireError::NoSector));
    assert_eq!(parse_satellite_description_from_file_name("G17_s20212130000319_e20212130009386"), None);
    assert_eq!(parse_satellite_description_from_file_name("FDCC_s20212130000319_e20212130009386"), None);
    assert_eq!(parse_satellite_description_from_file_name("G17_FDCC_s20212130000319"), None);
    assert_eq!(parse_satellite_description_from_file_name("G17_FDCC_e20212130000319"), None);
    assert_eq!(FireSatImage::from_file_name("FDCC_s20212130000319_e20212130009386"), Err(FindFireError::NoSatellite));
    assert_eq!(FireSatImage::from_file_name("G17_s20212130000319_e20212130009386"), Err(FindFireError::NoSector));
    assert_eq!(FireSatImage::from_file_name("G17_FDCC_e20212130000319"), Err(FindFireError::InvalidFormat));
    assert_eq!(FireSatImage::from_file_name("G17_FDCC_s20212130000319_e2021"), Err(FindFireError::TimeNotParsed));
    for e in [FindFireError::InvalidFormat, FindFireError::TimeNotParsed, FindFireError::NoSatellite, FindFireError::NoSector] {
        assert!(!e.message().is_empty());
    }
}

#[test]
fn fields_out_of_range_make_no_time() {
    assert_eq!(
        scan_time_from_fields(Some((2021, 366, 23, 59, 59))),
        Ok(ScanTime { year: 2021, day_of_year: 366, hour: 23, minute: 59, second: 59 })
    );
    assert_eq!(scan_time_from_fields(None), Err(FindFireError::TimeNotParsed));
    assert_eq!(scan_time_from_fields(Some((2021, 0, 0, 0, 0))), Err(FindFireError::TimeNotParsed));
    assert_eq!(scan_time_from_fields(Some((2021, 367, 0, 0, 0))), Err(FindFireError::TimeNotParsed));
    assert_eq!(scan_time_from_fields(Some((2021, 1, 24, 0, 0))), Err(FindFireError::TimeNotParsed));
    assert_eq!(scan_time_from_fields(Some((2021, 1, 0, 60, 0))), Err(FindFireError::TimeNotParsed));
    assert_eq!(scan_time_from_fields(Some((2021, 1, 0, 0, 60))), Err(FindFireError::TimeNotParsed));
    assert_eq!(ScanTime::new(-5, 1, 0, 0, 0), Some(ScanTime { year: -5, day_of_year: 1, hour: 0, minute: 0, second: 0 }));
    assert_eq!(ScanTime::new(2021, 0, 0, 0, 0), None);
}

#[test]
fn satellites_and_sectors_are_found_by_their_tokens() {
    assert_eq!(Satellite::string_contains_satellite("xxG16yy"), Some(Satellite::G16));
    assert_eq!(Satellite::string_contains_satellite("G17 and G16"), Some(Satellite::G16));
    assert_eq!(Satellite::string_contains_satellite("g16 G1 7"), None);
    assert_eq!(Sector::string_contains_sector("FDCM2 FDCM1"), Some(Sector::Meso1));
    assert_eq!(Sector::string_contains_sector("FDCM2 FDCC"), Some(Sector::Conus));
    assert_eq!(Sector::string_contains_sector("FDCC FDCF"), Some(Sector::Conus));
    assert_eq!(Sector::string_contains_sector("FDCF FDCC"), Some(Sector::Conus));
    assert_eq!(Sector::string_contains_sector("FDCM1 FDCF"), Some(Sector::Full));
    assert_eq!(Sector::string_contains_sector("ABI-L2-FDCM2-M6"), Some(Sector::Meso2));
    assert_eq!(Sector::string_contains_sector("FDC"), None);
    assert_eq!(Satellite::G16.name(), "G16");
    assert_eq!(Satellite::G17.name(), "G17");
    assert_eq!(Sector::Full.name(), "FDCF");
    assert_eq!(Sector::Conus.name(), "FDCC");
    assert_eq!(Sector::Meso1.name(), "FDCM1");
    assert_eq!(Sector::Meso2.name(), "FDCM2");
    for sat in [Satellite::G16, Satellite::G17] {
        assert_eq!(Satellite::string_contains_satellite(sat.name()), Some(sat));
    }
    for sector in [Sector::Full, Sector::Conus, Sector::Meso1, Sector::Meso2] {
        assert_eq!(Sector::string_contains_sector(sector.name()), Some(sector));
    }
}

#[test]
fn searching_bytes() {
    assert_eq!(find(b"abcabc", b"bc"), Some(1));
    assert_eq!(find(b"abcabc", b"cb"), None);
    assert_eq!(find(b"abc", b""), Some(0));
    assert_eq!(find(b"", b""), Some(0));
    assert_eq!(find(b"", b"a"), None);
    assert_eq!(find(b"aab", b"ab"), Some(1));
    assert_eq!(find(b"ab", b"abc"), None);
    assert!(contains(b"xyz", b"z"));
    assert!(!contains(b"xyz", b"zz"));
    assert!(matches_at(b"xyz", b"yz", 1));
    assert!(!matches_at(b"xyz", b"yz", 2));
    assert!(matches_at(b"xyz", b"", 3));
    assert!(!matches_at(b"xyz", b"", 4));
    for (hay, pat) in [("hello world", "o w"), ("aaaa", "aa"), ("abc", "abcd"), ("_s_e", "_e")] {
        assert_eq!(find(hay.as_bytes(), pat.as_bytes()), hay.find(pat));
    }
}

#[test]
fn data_files_end_in_nc_or_zip() {
    assert!(has_data_extension("/a/b/file.nc"));
    assert!(has_data_extension("file.zip"));
    assert!(has_data_extension("a..nc"));
    assert!(has_data_extension(NAME));
    assert!(!has_data_extension("file.NC"));
    assert!(!has_data_extension("file.nc.txt"));
    assert!(!has_data_extension("filenc"));
    assert!(!has_data_extension(".nc"));
    assert!(!has_data_extension("/a/.zip"));
    assert!(!has_data_extension("nc"));
    assert!(!has_data_extension(""));
    assert!(!has_data_extension("file.zi"));
    for path in ["/a/b/file.nc", "x.zip", ".nc", "a/.nc", "a.b/c", "a..nc", "q.nc.gz", "zip"] {
        let ext = std::path::Path::new(path).extension();
        let wanted = ext.map(|e| e == "nc" || e == "zip").unwrap_or(false);
        assert_eq!(has_data_extension(path), wanted, "{}", path);
    }
    assert!(forwards(true, "/a/x.nc"));
    assert!(forwards(true, "/a/b/x.zip"));
    assert!(!forwards(true, "/a/x.txt"));
    assert!(!forwards(false, "/a/dir"));
    assert!(!forwards(false, "/a/dir.nc"));
}

#[test]
fn rows_wait_until_there_are_a_hundred_thousand() {
    assert_eq!(BUFFER_CAPACITY, 100_000);
    let mut buffer: InsertBuffer<usize> = InsertBuffer::new();
    assert!(buffer.is_empty());
    for row in 0..BUFFER_CAPACITY - 1 {
        assert!(!buffer.add(row));
    }
    assert_eq!(buffer.len(), BUFFER_CAPACITY - 1);
    assert!(buffer.add(BUFFER_CAPACITY - 1));
    assert!(buffer.add(BUFFER_CAPACITY));
    let batch = buffer.take_batch();
    assert_eq!(batch.len(), BUFFER_CAPACITY + 1);
    assert!(batch.iter().enumerate().all(|(k, &row)| k == row));
    assert!(buffer.is_empty());
    assert!(!buffer.add(7));
    assert_eq!(buffer.take_batch(), vec![7]);
}

#[test]
fn fire_codes() {
    let code = FireCode::from_number(42).unwrap();
    assert_eq!(code.clone_string(), "000042");
    assert_eq!(FireCode::from_number(0).unwrap().clone_string(), "000000");
    assert_eq!(FireCode::from_number(999_999).unwrap().clone_string(), "999999");
    assert_eq!(FireCode::from_number(123_456).unwrap().clone_string(), "123456");
    assert_eq!(FireCode::from_number(1_000_000), Err(SatFireError::TooManyFires));
    assert_eq!(SatFireError::TooManyFires.message(), "Too many fires for satfire");

    let child = code.make_child_fire(0);
    assert_eq!(child.clone_string(), "000042A");
    assert_eq!(child.make_child_fire(25).clone_string(), "000042AZ");
    assert_eq!(code.num_generations(), 1);
    assert_eq!(child.num_generations(), 1);
    assert_eq!(child.make_child_fire(1).num_generations(), 2);
    assert_eq!(child.make_child_fire(1).make_child_fire(2).make_child_fire(3).num_generations(), 3);
    assert_eq!(child.clone(), child);
    assert!(code < child);
}

#[test]
fn fire_numbers_are_given_out_in_turn() {
    let mut state = FireDataNextNewFireState { next_id_num: 999_998 };
    assert_eq!(state.get_next_fire_id().unwrap().clone_string(), "999998");
    assert_eq!(state.get_next_fire_id().unwrap().clone_string(), "999999");
    assert_eq!(state.get_next_fire_id(), Err(SatFireError::TooManyFires));
    assert_eq!(state.next_id_num, 1_000_001);
}

#[test]
fn an_image_is_read_if_its_name_tells_of_it_and_the_store_has_it_not() {
    let described = parse_satellite_description_from_file_name(NAME);
    assert!(described.is_some());
    assert!(is_new_image(described, false));
    assert!(!is_new_image(described, true));
    assert!(!is_new_image(None, false));
    assert!(!is_new_image(None, true));
    assert!(!is_new_image(parse_satellite_description_from_file_name("notes.nc"), false));
}

#[test]
fn codes_have_meanings() {
    assert_eq!(MaskCode(10).as_str(), "good_fire_pixel");
    assert_eq!(MaskCode(14).as_str(), "medium_probability_fire_pixel");
    assert_eq!(MaskCode(15).as_str(), "low_probability_fire_pixel");
    assert_eq!(MaskCode(30).as_str(), "temporally_filtered_good_fire_pixel");
    assert_eq!(MaskCode(34).as_str(), "temporally_filtered_medium_probability_fire_pixel");
    assert_eq!(MaskCode(40).as_str(), "off_earth_pixel");
    assert_eq!(MaskCode(100).as_str(), "processed_no_fire_pixel");
    assert_eq!(MaskCode(245).as_str(), "cloud_edge_pixel_detected_by_along_scan_reflectivity_and_albedo_threshold_test");
    assert_eq!(MaskCode(0).as_str(), "unprocessed_pixel");
    assert_eq!(MaskCode(-99).as_str(), "missing");
    assert_eq!(MaskCode(1).as_str(), "unknown code");
    assert_eq!(MaskCode(i16::MIN).as_str(), "unknown code");
    assert_eq!(DataQualityFlagCode(0).as_str(), "good_quality_fire_pixel_qf");
    assert_eq!(DataQualityFlagCode(1).as_str(), "good_quality_fire_free_land_pixel_qf");
    assert_eq!(DataQualityFlagCode(2).as_str(), "invalid_due_to_opaque_cloud_pixel_qf");
    assert_eq!(DataQualityFlagCode(4).as_str(), "invalid_due_to_bad_input_data_qf");
    assert_eq!(DataQualityFlagCode(5).as_str(), "invalid_due_to_algorithm_failure_qf");
    assert_eq!(DataQualityFlagCode(6).as_str(), "unknown code");
    assert_eq!(DataQualityFlagCode(-1).as_str(), "unknown code");
}
