//! The mosaics that are known by name.

use vstd::prelude::*;
use crate::profile::{DemProfile, ONE_BITS};

verus! {

/// What is on record of one published mosaic.
pub trait DatabaseEntry {
    /// Original data source
    const ORIGINAL_DATA_SRC: &'static str;

    /// Archived data source maintained by this crate
    const ARCHIVED_DATA_SRC: &'static str;

    /// Meters that one pixel stands for, as single-precision bits
    const METERS_PER_PIXEL_BITS: u32;

    /// Elevation in meters that the sample 1.0 stands for, as
    /// single-precision bits
    const MAX_ELEVATION_BITS: u32;

    /// Chunk size in pixels
    const CHUNK_SIZE: u32;

    /// Associated dem profile, or `None` while the dimensions of the mosaic
    /// are not on record
    fn dem_profile() -> Option<DemProfile>;
}

/// The single-precision bit pattern of 200.0.
pub const METERS_200_BITS: u32 = 0x4348_0000;

/// The single-precision bit pattern of 463.0.
pub const METERS_463_BITS: u32 = 0x43E7_8000;

/// The blend of the HRSC and MOLA elevation models of Mars, at 200 meters per
/// pixel. Its dimensions are not on record.
pub struct MarsHrscMolaBlend;

impl DatabaseEntry for MarsHrscMolaBlend {
    const ORIGINAL_DATA_SRC: &'static str =
        "https://planetarymaps.usgs.gov/mosaic/Mars/HRSC_MOLA_Blend/Mars_HRSC_MOLA_BlendDEM_Global_200mp_v2.tif";

    const ARCHIVED_DATA_SRC: &'static str =
        "https://drive.google.com/file/d/1G_x3rypkYM_UoqroRskB8oMpKIKr55S3/view?usp=sharing";

    const METERS_PER_PIXEL_BITS: u32 = METERS_200_BITS;

    const MAX_ELEVATION_BITS: u32 = ONE_BITS;

    const CHUNK_SIZE: u32 = 1024 * 8;

    fn dem_profile() -> (p: Option<DemProfile>)
        ensures
            p is None,
    {
        None
    }
}

/// The MOLA elevation model of Mars, at 463 meters per pixel.
pub struct MarsMola;

impl DatabaseEntry for MarsMola {
    const ORIGINAL_DATA_SRC: &'static str =
        "https://planetarymaps.usgs.gov/mosaic/Mars_MGS_MOLA_DEM_mosaic_global_463m.tif";

    const ARCHIVED_DATA_SRC: &'static str =
        "https://drive.google.com/file/d/1wWgo6Fg_CNKGA26MO2i125k1knwDA6fs/view?usp=sharing";

    const METERS_PER_PIXEL_BITS: u32 = METERS_463_BITS;

    const MAX_ELEVATION_BITS: u32 = ONE_BITS;

    const CHUNK_SIZE: u32 = 1024 * 8;

    fn dem_profile() -> (p: Option<DemProfile>)
        ensures
            p == Some(
                DemProfile {
                    width: 46080,
                    height: 23040,
                    meters_per_pixel_bits: METERS_463_BITS,
                    max_elevation_bits: ONE_BITS,
                },
            ),
    {
        Some(
            DemProfile {
                width: 46080,
                height: 23040,
                meters_per_pixel_bits: Self::METERS_PER_PIXEL_BITS,
                max_elevation_bits: Self::MAX_ELEVATION_BITS,
            },
        )
    }
}

} // verus!
