//! The satellites and scan sectors that images come from, and the codes that
//! the fire product attaches to a pixel.

use crate::scan_time::ScanTime;
use crate::text::{contains, occurs};
use vstd::prelude::*;
use vstd::string::StringSliceAdditionalSpecFns;

verus! {

/// A satellite of the GOES-R series.
#[derive(Clone, Copy, Debug, PartialEq, Eq, Structural, Hash)]
pub enum Satellite {
    G16,
    G17,
}

/// A region that a satellite scans.
#[derive(Clone, Copy, Debug, PartialEq, Eq, Structural, Hash)]
pub enum Sector {
    /// The full disk.
    Full,
    /// The continental United States.
    Conus,
    /// The first mesoscale sector.
    Meso1,
    /// The second mesoscale sector.
    Meso2,
}

/// A code for the outcome of the fire detection on one pixel.
#[derive(Clone, Copy, Debug, PartialEq, Eq, Structural, Hash)]
pub struct MaskCode(pub i16);

/// A code for the quality of the data of one pixel.
#[derive(Clone, Copy, Debug, PartialEq, Eq, Structural, Hash)]
pub struct DataQualityFlagCode(pub i16);

impl MaskCode {
    /// What the code says of a pixel, in the words of the fire product.
    pub open spec fn text(code: i16) -> Seq<char> {
        match code {
            -99 => "missing"@,
            0 => "unprocessed_pixel"@,
            10 => "good_fire_pixel"@,
            11 => "saturated_fire_pixel"@,
            12 => "cloud_contaminated_fire_pixel"@,
            13 => "high_probability_fire_pixel"@,
            14 => "medium_probability_fire_pixel"@,
            15 => "low_probability_fire_pixel"@,
            30 => "temporally_filtered_good_fire_pixel"@,
            31 => "temporally_filtered_saturated_fire_pixel"@,
            32 => "temporally_filtered_cloud_contaminated_fire_pixel"@,
            33 => "temporally_filtered_high_probability_fire_pixel"@,
            34 => "temporally_filtered_medium_probability_fire_pixel"@,
            35 => "temporally_filtered_low_probability_fire_pixel"@,
            40 => "off_earth_pixel"@,
            50 => "LZA_block_out_zone"@,
            60 => "SZA_or_glint_angle_block_out_zone"@,
            100 => "processed_no_fire_pixel"@,
            120 => "missing_input_3.89um_pixel"@,
            121 => "missing_input_11.19um_pixel"@,
            123 => "saturated_input_3.89um_pixel"@,
            124 => "saturated_input_11.19um_pixel"@,
            125 => "invalid_input_radiance_value"@,
            126 => "below_threshold_input_3.89um_pixel"@,
            127 => "below_threshold_input_11.19um_pixel"@,
            150 => "invalid_ecosystem_UMD_land_cover_type_sea_water_or_MODIS_land_mask_types_or_framework_desert_mask_type_bright_desert"@,
            151 => "invalid_ecosystem_USGS_type_sea_water"@,
            152 => "invalid_ecosystem_USGS_types_coastline_fringe_or_compound_coastlines"@,
            153 => "invalid_ecosystem_USGS_types_inland_water_or_water_and_island_fringe_or_land_and_water_shore_or_land_and_water_rivers"@,
            170 => "no_background_value_could_be_computed"@,
            180 => "conversion_error_between_BT_and_radiance"@,
            182 => "conversion_error_radiance_to_adjusted_BT"@,
            185 => "modified_Dozier_technique_bisection_method_invalid_computed_BT"@,
            186 => "modified_Dozier_technique_Newton_method_invalid_computed_radiance"@,
            187 => "modified_Dozier_technique_Newton_method_invalid_computed_fire_brighness_temp"@,
            188 => "modified_Dozier_technique_Newton_method_invalid_computed_fire_area"@,
            200 => "cloud_pixel_detected_by_11.19um_threshold_test"@,
            201 => "cloud_pixel_detected_by_3.89um_minus_11.19um_threshold_and_freezing_test"@,
            205 => "cloud_pixel_detected_by_negative_difference_3.89um_minus_11.19um_threshold_test"@,
            210 => "cloud_pixel_detected_by_positive_difference_3.89um_minus_11.19um_threshold_test"@,
            215 => "cloud_pixel_detected_by_albedo_threshold_test"@,
            220 => "cloud_pixel_detected_by_12.27um_threshold_test"@,
            225 => "cloud_pixel_detected_by_negative_difference_11.19um_minus_12.27um_threshold_test"@,
            230 => "cloud_pixel_detected_by_positive_difference_11.19um_minus_12.27um_threshold_test"@,
            240 => "cloud_edge_pixel_detected_by_along_scan_reflectivity_and_3.89um_threshold_test"@,
            245 => "cloud_edge_pixel_detected_by_along_scan_reflectivity_and_albedo_threshold_test"@,
            _ => "unknown code"@,
        }
    }

    /// The meaning of the code.
    pub fn as_str(&self) -> (r: &'static str)
        ensures
            r@ == MaskCode::text(self.0),
    {
        match self.0 {
            -99 => "missing",
            0 => "unprocessed_pixel",
            10 => "good_fire_pixel",
            11 => "saturated_fire_pixel",
            12 => "cloud_contaminated_fire_pixel",
            13 => "high_probability_fire_pixel",
            14 => "medium_probability_fire_pixel",
            15 => "low_probability_fire_pixel",
            30 => "temporally_filtered_good_fire_pixel",
            31 => "temporally_filtered_saturated_fire_pixel",
            32 => "temporally_filtered_cloud_contaminated_fire_pixel",
            33 => "temporally_filtered_high_probability_fire_pixel",
            34 => "temporally_filtered_medium_probability_fire_pixel",
            35 => "temporally_filtered_low_probability_fire_pixel",
            40 => "off_earth_pixel",
            50 => "LZA_block_out_zone",
            60 => "SZA_or_glint_angle_block_out_zone",
            100 => "processed_no_fire_pixel",
            120 => "missing_input_3.89um_pixel",
            121 => "missing_input_11.19um_pixel",
            123 => "saturated_input_3.89um_pixel",
            124 => "saturated_input_11.19um_pixel",
            125 => "invalid_input_radiance_value",
            126 => "below_threshold_input_3.89um_pixel",
            127 => "below_threshold_input_11.19um_pixel",
            150 => "invalid_ecosystem_UMD_land_cover_type_sea_water_or_MODIS_land_mask_types_or_framework_desert_mask_type_bright_desert",
            151 => "invalid_ecosystem_USGS_type_sea_water",
            152 => "invalid_ecosystem_USGS_types_coastline_fringe_or_compound_coastlines",
            153 => "invalid_ecosystem_USGS_types_inland_water_or_water_and_island_fringe_or_land_and_water_shore_or_land_and_water_rivers",
            170 => "no_background_value_could_be_computed",
            180 => "conversion_error_between_BT_and_radiance",
            182 => "conversion_error_radiance_to_adjusted_BT",
            185 => "modified_Dozier_technique_bisection_method_invalid_computed_BT",
            186 => "modified_Dozier_technique_Newton_method_invalid_computed_radiance",
            187 => "modified_Dozier_technique_Newton_method_invalid_computed_fire_brighness_temp",
            188 => "modified_Dozier_technique_Newton_method_invalid_computed_fire_area",
            200 => "cloud_pixel_detected_by_11.19um_threshold_test",
            201 => "cloud_pixel_detected_by_3.89um_minus_11.19um_threshold_and_freezing_test",
            205 => "cloud_pixel_detected_by_negative_difference_3.89um_minus_11.19um_threshold_test",
            210 => "cloud_pixel_detected_by_positive_difference_3.89um_minus_11.19um_threshold_test",
            215 => "cloud_pixel_detected_by_albedo_threshold_test",
            220 => "cloud_pixel_detected_by_12.27um_threshold_test",
            225 => "cloud_pixel_detected_by_negative_difference_11.19um_minus_12.27um_threshold_test",
            230 => "cloud_pixel_detected_by_positive_difference_11.19um_minus_12.27um_threshold_test",
            240 => "cloud_edge_pixel_detected_by_along_scan_reflectivity_and_3.89um_threshold_test",
            245 => "cloud_edge_pixel_detected_by_along_scan_reflectivity_and_albedo_threshold_test",
            _ => "unknown code",
        }
    }
}

impl DataQualityFlagCode {
    /// What the code says of the quality of a pixel, in the words of the fire
    /// product.
    pub open spec fn text(code: i16) -> Seq<char> {
        match code {
            0 => "good_quality_fire_pixel_qf"@,
            1 => "good_quality_fire_free_land_pixel_qf"@,
            2 => "invalid_due_to_opaque_cloud_pixel_qf"@,
            3 => "invalid_due_to_surface_type_or_sunglint_or_LZA_threshold_exceeded_or_off_earth_or_missing_input_data_qf"@,
            4 => "invalid_due_to_bad_input_data_qf"@,
            5 => "invalid_due_to_algorithm_failure_qf"@,
            _ => "unknown code"@,
        }
    }

    /// The meaning of the code.
    pub fn as_str(&self) -> (r: &'static str)
        ensures
            r@ == DataQualityFlagCode::text(self.0),
    {
        match self.0 {
            0 => "good_quality_fire_pixel_qf",
            1 => "good_quality_fire_free_land_pixel_qf",
            2 => "invalid_due_to_opaque_cloud_pixel_qf",
            3 => "invalid_due_to_surface_type_or_sunglint_or_LZA_threshold_exceeded_or_off_earth_or_missing_input_data_qf",
            4 => "invalid_due_to_bad_input_data_qf",
            5 => "invalid_due_to_algorithm_failure_qf",
            _ => "unknown code",
        }
    }
}

impl Satellite {
    /// The bytes by which file and directory names refer to the satellite.
    pub open spec fn token(self) -> Seq<u8> {
        match self {
            Satellite::G16 => seq!['G' as u8, '1' as u8, '6' as u8],
            Satellite::G17 => seq!['G' as u8, '1' as u8, '7' as u8],
        }
    }

    /// The first satellite, in the order G16, G17, whose token stands in
    /// `bytes`.
    pub open spec fn named_in(bytes: Seq<u8>) -> Option<Satellite> {
        if occurs(bytes, Satellite::G16.token()) {
            Some(Satellite::G16)
        } else if occurs(bytes, Satellite::G17.token()) {
            Some(Satellite::G17)
        } else {
            None
        }
    }

    /// The date from which the satellite counts as operational: 18 December
    /// 2017 for G16 and 12 February 2019 for G17, both at 12:00.
    pub open spec fn operational_since(self) -> ScanTime {
        match self {
            Satellite::G16 => ScanTime {
                year: 2017,
                day_of_year: 352,
                hour: 12,
                minute: 0,
                second: 0,
            },
            Satellite::G17 => ScanTime {
                year: 2019,
                day_of_year: 43,
                hour: 12,
                minute: 0,
                second: 0,
            },
        }
    }

    /// The name of the satellite.
    pub fn name(&self) -> (r: &'static str)
        ensures
            r@ == (match *self {
                Satellite::G16 => "G16"@,
                Satellite::G17 => "G17"@,
            }),
    {
        match self {
            Satellite::G16 => "G16",
            Satellite::G17 => "G17",
        }
    }

    /// The date from which the satellite counts as operational.
    pub fn operational(&self) -> (r: ScanTime)
        ensures
            r == self.operational_since(),
            r.well_formed(),
    {
        match self {
            Satellite::G16 => ScanTime {
                year: 2017,
                day_of_year: 352,
                hour: 12,
                minute: 0,
                second: 0,
            },
            Satellite::G17 => ScanTime {
                year: 2019,
                day_of_year: 43,
                hour: 12,
                minute: 0,
                second: 0,
            },
        }
    }

    /// Looks for a satellite's token in a byte string.
    pub fn find_in(bytes: &[u8]) -> (r: Option<Satellite>)
        ensures
            r == Satellite::named_in(bytes@),
    {
        let g16: [u8; 3] = ['G' as u8, '1' as u8, '6' as u8];
        let g17: [u8; 3] = ['G' as u8, '1' as u8, '7' as u8];
        assert(g16@ =~= Satellite::G16.token());
        assert(g17@ =~= Satellite::G17.token());
        if contains(bytes, g16.as_slice()) {
            Some(Satellite::G16)
        } else if contains(bytes, g17.as_slice()) {
            Some(Satellite::G17)
        } else {
            None
        }
    }

    /// Looks for a satellite's token in a string.
    pub fn string_contains_satellite(text: &str) -> (r: Option<Satellite>)
        ensures
            r == Satellite::named_in(text.spec_bytes()),
    {
        Satellite::find_in(text.as_bytes())
    }
}

impl Sector {
    /// The bytes by which file names refer to the sector.
    pub open spec fn token(self) -> Seq<u8> {
        match self {
            Sector::Full => seq!['F' as u8, 'D' as u8, 'C' as u8, 'F' as u8],
            Sector::Conus => seq!['F' as u8, 'D' as u8, 'C' as u8, 'C' as u8],
            Sector::Meso1 => seq!['F' as u8, 'D' as u8, 'C' as u8, 'M' as u8, '1' as u8],
            Sector::Meso2 => seq!['F' as u8, 'D' as u8, 'C' as u8, 'M' as u8, '2' as u8],
        }
    }

    /// The first sector, in the order CONUS, full disk, first and second
    /// mesoscale sector, whose token stands in `bytes`.
    pub open spec fn named_in(bytes: Seq<u8>) -> Option<Sector> {
        if occurs(bytes, Sector::Conus.token()) {
            Some(Sector::Conus)
        } else if occurs(bytes, Sector::Full.token()) {
            Some(Sector::Full)
        } else if occurs(bytes, Sector::Meso1.token()) {
            Some(Sector::Meso1)
        } else if occurs(bytes, Sector::Meso2.token()) {
            Some(Sector::Meso2)
        } else {
            None
        }
    }

    /// The name of the sector, which is its token.
    pub fn name(&self) -> (r: &'static str)
        ensures
            r@ == (match *self {
                Sector::Full => "FDCF"@,
                Sector::Conus => "FDCC"@,
                Sector::Meso1 => "FDCM1"@,
                Sector::Meso2 => "FDCM2"@,
            }),
    {
        match self {
            Sector::Full => "FDCF",
            Sector::Conus => "FDCC",
            Sector::Meso1 => "FDCM1",
            Sector::Meso2 => "FDCM2",
        }
    }

    /// Looks for a sector's token in a byte string.
    pub fn find_in(bytes: &[u8]) -> (r: Option<Sector>)
        ensures
            r == Sector::named_in(bytes@),
    {
        let full: [u8; 4] = ['F' as u8, 'D' as u8, 'C' as u8, 'F' as u8];
        let conus: [u8; 4] = ['F' as u8, 'D' as u8, 'C' as u8, 'C' as u8];
        let meso1: [u8; 5] = ['F' as u8, 'D' as u8, 'C' as u8, 'M' as u8, '1' as u8];
        let meso2: [u8; 5] = ['F' as u8, 'D' as u8, 'C' as u8, 'M' as u8, '2' as u8];
        assert(full@ =~= Sector::Full.token());
        assert(conus@ =~= Sector::Conus.token());
        assert(meso1@ =~= Sector::Meso1.token());
        assert(meso2@ =~= Sector::Meso2.token());
        if contains(bytes, conus.as_slice()) {
            Some(Sector::Conus)
        } else if contains(bytes, full.as_slice()) {
            Some(Sector::Full)
        } else if contains(bytes, meso1.as_slice()) {
            Some(Sector::Meso1)
        } else if contains(bytes, meso2.as_slice()) {
            Some(Sector::Meso2)
        } else {
            None
        }
    }

    /// Looks for a sector's token in a string.
    pub fn string_contains_sector(text: &str) -> (r: Option<Sector>)
        ensures
            r == Sector::named_in(text.spec_bytes()),
    {
        Sector::find_in(text.as_bytes())
    }
}

} // verus!
