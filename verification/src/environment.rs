//! Classification of an anchor's radio environment.
//!
//! Each environment carries a path-loss exponent describing how quickly
//! signal strength decays with distance. The exponent is kept in hundredths
//! so that it stays an exact integer quantity.

use vstd::prelude::*;

verus! {

/// Radio environment of an anchor, determining the path-loss exponent used
/// by the distance model. The `Custom` variant carries an arbitrary exponent
/// in hundredths.
#[derive(Clone, Copy, Debug, PartialEq, Eq, Structural)]
pub enum Environment {
    FreeSpace,
    UrbanArea,
    ShadowedUrban,
    InBuildingLOS,
    ObstructedInBuilding,
    ObstructedInFactory,
    Custom(u32),
}

impl Environment {
    /// Path-loss exponent of this environment, in hundredths
    /// (free space is 2.00, so 200).
    pub open spec fn spec_exponent_hundredths(self) -> u32 {
        match self {
            Environment::FreeSpace => 200,
            Environment::UrbanArea => 270,
            Environment::ShadowedUrban => 300,
            Environment::InBuildingLOS => 160,
            Environment::ObstructedInBuilding => 400,
            Environment::ObstructedInFactory => 200,
            Environment::Custom(n) => n,
        }
    }

    /// Path-loss exponent of this environment, in hundredths.
    pub fn exponent_hundredths(&self) -> (e: u32)
        ensures
            e == self.spec_exponent_hundredths(),
    {
        match self {
            Environment::FreeSpace => 200,
            Environment::UrbanArea => 270,
            Environment::ShadowedUrban => 300,
            Environment::InBuildingLOS => 160,
            Environment::ObstructedInBuilding => 400,
            Environment::ObstructedInFactory => 200,
            Environment::Custom(n) => *n,
        }
    }
}

} // verus!
