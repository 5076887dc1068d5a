//! The ways in which building or querying an elevation model fails.

use vstd::prelude::*;

verus! {

/// Why an operation on an elevation model was refused.
#[derive(Clone, Copy, Debug, PartialEq, Eq, Structural)]
pub enum DemError {
    /// The raster's dimensions differ from those of the profile.
    DimensionMismatch,
    /// The raster's samples do not fill its dimensions.
    DecodeFailure,
    /// A pixel was asked for that the chunk does not hold.
    IndexOutOfBounds,
    /// The chunk's grid does not fill its dimensions.
    CorruptChunk,
}

impl DemError {
    /// What the error says, by kind.
    pub open spec fn message_of(self) -> Seq<char> {
        match self {
            DemError::DimensionMismatch => "raster dimensions differ from the profile"@,
            DemError::DecodeFailure => "raster samples do not fill its dimensions"@,
            DemError::IndexOutOfBounds => "pixel outside the chunk"@,
            DemError::CorruptChunk => "chunk grid does not fill its dimensions"@,
        }
    }

    /// A short description of the error.
    pub fn message(&self) -> (s: &'static str)
        ensures
            s@ == self.message_of(),
    {
        match self {
            DemError::DimensionMismatch => "raster dimensions differ from the profile",
            DemError::DecodeFailure => "raster samples do not fill its dimensions",
            DemError::IndexOutOfBounds => "pixel outside the chunk",
            DemError::CorruptChunk => "chunk grid does not fill its dimensions",
        }
    }
}

} // verus!
