//! Fire pixels seen from a geostationary satellite: the records of one image,
//! their grouping into clusters of touching raster cells, the relations of
//! pixels on the ground, the byte layout in which pixel lists are stored, and
//! the rules by which an archive of images is walked.
//!
//! Coordinates and measurements are carried as IEEE-754 binary64 bit
//! patterns. The library orders and compares them, and never does arithmetic
//! on them: where a result takes arithmetic, the caller hands in the function
//! that does it, and the library states its results in terms of what that
//! function gives.

pub mod adjacency;
pub mod binary64;
pub mod cluster;
pub mod codec;
pub mod dir_filter;
pub mod fire_code;
pub mod firepoint;
pub mod firesatimage;
pub mod geo;
pub mod grouping;
pub mod pipeline;
pub mod pixel;
pub mod satellite;
pub mod scan_time;
pub mod stats;
pub mod text;

pub use adjacency::{Kernel, Question};
pub use cluster::{is_cluster_a_keeper, Cluster, ClusterList, ClusterTotals};
pub use codec::DecodeError;
pub use dir_filter::{create_standard_dir_filter, MostRecent, StandardDirFilter};
pub use fire_code::{FireCode, FireDataNextNewFireState, SatFireError};
pub use firepoint::FirePoint;
pub use firesatimage::{
    parse_satellite_description_from_file_name, FindFireError, FireSatImage,
};
pub use geo::{BoundingBox, Coord, Line};
pub use grouping::connected_groups;
pub use pipeline::InsertBuffer;
pub use pixel::{Pixel, PixelList};
pub use satellite::{DataQualityFlagCode, MaskCode, Satellite, Sector};
pub use scan_time::ScanTime;
pub use stats::{u32_pct, ClusterListStat, ClusterListStats, ClusterStat, ClusterStats};
