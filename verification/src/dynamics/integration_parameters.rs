//! Parameters of one simulation step.

use vstd::prelude::*;

verus! {

/// What one call of the stepping function is given besides the world.
#[derive(Copy, Clone, Debug, PartialEq, Eq, Structural)]
pub struct IntegrationParameters {
    /// Duration of the step, in ticks.
    pub dt: u64,
    /// Two shapes closer than this are reported as being in contact.
    pub prediction_distance: u64,
    /// Largest number of substeps that continuous collision detection may
    /// cut one step into.
    pub max_ccd_substeps: usize,
    /// A remainder of the step shorter than this is not given a substep of its own.
    pub min_ccd_dt: u64,
    /// Islands are closed only once they hold this many bodies.
    pub min_island_size: usize,
}

impl IntegrationParameters {
    /// The parameters that `default` returns: sixty steps a second, one
    /// substep, islands of at least 128 bodies.
    pub open spec fn standard() -> IntegrationParameters {
        IntegrationParameters {
            dt: 16_667,
            prediction_distance: 2,
            max_ccd_substeps: 1,
            min_ccd_dt: 166,
            min_island_size: 128,
        }
    }

    /// `self` with another step duration.
    pub open spec fn with_dt(self, dt: u64) -> IntegrationParameters {
        IntegrationParameters { dt, ..self }
    }
}

impl Default for IntegrationParameters {
    fn default() -> (params: IntegrationParameters)
        ensures
            params == IntegrationParameters::standard(),
    {
        IntegrationParameters {
            dt: 16_667,
            prediction_distance: 2,
            max_ccd_substeps: 1,
            min_ccd_dt: 166,
            min_island_size: 128,
        }
    }
}

} // verus!
