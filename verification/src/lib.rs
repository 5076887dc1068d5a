//! Digital elevation models cut into independently loadable chunks.
//!
//! A mosaic is decoded elsewhere into a [`Raster`] of half-precision samples.
//! It is cut into [`Dem`] chunks along a [`TileLayout`], and each chunk
//! answers for single pixels and for the four pixels around a point.
//!
//! Samples and scales are held as bit patterns. What they mean as numbers,
//! and the arithmetic on those numbers, is left to the caller.

pub mod chunking;
pub mod database;
pub mod dem;
pub mod error;
pub mod layout;
pub mod profile;
pub mod raster;

pub use database::{DatabaseEntry, MarsHrscMolaBlend, MarsMola};
pub use dem::{BilinearCell, Dem};
pub use error::DemError;
pub use layout::{TileLayout, TileRect};
pub use profile::DemProfile;
pub use raster::Raster;
