//! What is known of a whole elevation mosaic.

use vstd::prelude::*;

verus! {

/// The single-precision bit pattern of the number one.
pub const ONE_BITS: u32 = 0x3F80_0000;

/// Dimensions and physical scale of a whole mosaic, before it is cut into
/// chunks. Every chunk carries a copy.
///
/// The two scales are real numbers. They are held as the bit patterns of
/// their IEEE 754 single-precision values and only carried along here.
#[derive(Clone, Copy, Debug, PartialEq, Eq, Structural)]
pub struct DemProfile {
    /// Width of the mosaic in pixels.
    pub width: u32,
    /// Height of the mosaic in pixels.
    pub height: u32,
    /// Meters that one pixel stands for, as single-precision bits.
    pub meters_per_pixel_bits: u32,
    /// Elevation in meters that the sample 1.0 stands for, as
    /// single-precision bits.
    pub max_elevation_bits: u32,
}

impl Default for DemProfile {
    /// A mosaic of one pixel that stands for one meter, with samples in
    /// meters.
    fn default() -> (p: Self)
        ensures
            p == (DemProfile {
                width: 1,
                height: 1,
                meters_per_pixel_bits: ONE_BITS,
                max_elevation_bits: ONE_BITS,
            }),
    {
        DemProfile {
            width: 1,
            height: 1,
            meters_per_pixel_bits: ONE_BITS,
            max_elevation_bits: ONE_BITS,
        }
    }
}

} // verus!
