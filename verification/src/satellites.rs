use vstd::prelude::*;

verus! {

/// A named instrument with a conventional grid resolution, or a custom
/// resolution given directly as a row count.
#[derive(Debug, PartialEq, Eq)]
pub enum Satellite {
    Custom(usize),
    Czcs,
    Meris,
    Modis,
    Seawifs,
    Sentinel3,
    Viirs,
}

/// A custom resolution was rejected.
#[derive(Debug, PartialEq, Eq)]
pub enum SatelliteError {
    /// The row count of a custom resolution must be divisible by 360.
    InvalidNumLatitudeRows,
}

impl Satellite {
    /// The number of latitude rows this resolution spans pole to pole.
    pub open spec fn spec_num_latitude_rows(&self) -> usize {
        match self {
            Satellite::Custom(num_rows) => *num_rows,
            Satellite::Czcs => 1080,
            Satellite::Meris => 2160,
            Satellite::Modis => 4320,
            Satellite::Seawifs => 2160,
            Satellite::Sentinel3 => 4320,
            Satellite::Viirs => 4320,
        }
    }

    /// Makes a custom resolution from a row count, which must be divisible
    /// by 360, the convention the named instruments follow.
    pub fn with_num_latitude_rows(num_rows: usize) -> (r: Result<Satellite, SatelliteError>)
        ensures
            num_rows % 360 == 0 ==> r == Ok::<Satellite, SatelliteError>(
                Satellite::Custom(num_rows),
            ),
            num_rows % 360 != 0 ==> r == Err::<Satellite, SatelliteError>(
                SatelliteError::InvalidNumLatitudeRows,
            ),
    {
        if num_rows % 360 == 0 {
            Ok(Satellite::Custom(num_rows))
        } else {
            Err(SatelliteError::InvalidNumLatitudeRows)
        }
    }

    /// The row count this resolution stands for.
    pub fn num_latitude_rows(&self) -> (r: usize)
        ensures
            r == self.spec_num_latitude_rows(),
    {
        match self {
            Satellite::Custom(num_rows) => *num_rows,
            Satellite::Czcs => 1080,
            Satellite::Meris => 2160,
            Satellite::Modis => 4320,
            Satellite::Seawifs => 2160,
            Satellite::Sentinel3 => 4320,
            Satellite::Viirs => 4320,
        }
    }
}

} // verus!
