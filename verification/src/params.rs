use vstd::prelude::*;

verus! {

/// Why construction of the pipeline, or of one of its stages, is rejected.
///
/// All of these are configuration errors: they are detected up front, at
/// construction time, and no partially built stage is handed out.
#[derive(Debug, PartialEq, Eq, Structural, Clone, Copy)]
pub enum ConfigError {
    /// The grid size is not a power of two of at least 2.
    GridSize,
    /// A physical wave parameter is zero or negative, or the wind
    /// direction is the zero vector.
    Parameter,
    /// A texel field does not hold exactly `n * n` entries.
    FieldSize,
}

/// Scalar and vector wave configuration for the spectrum synthesis.
///
/// The physical quantities are carried as fixed-point integers (the caller
/// picks the unit); the library only constrains their signs and validates
/// them at construction.  `wind_direction` is an unnormalised direction
/// vector; the floating-point synthesis normalises it when it evaluates
/// the spectrum.
#[derive(Debug, PartialEq, Eq, Structural, Clone, Copy)]
pub struct WaveParameters {
    /// Side length of the square simulation grid, in texels.
    pub grid_size: u32,
    /// Global amplitude scale of the wave spectrum.
    pub amplitude: i64,
    /// Wind speed driving the spectrum energy term.
    pub wind_intensity: i64,
    /// Wind direction over the horizontal plane, east component; the
    /// direction must not be the zero vector.
    pub wind_direction_x: i64,
    /// Wind direction over the horizontal plane, north component.
    pub wind_direction_z: i64,
    /// Capillary suppression length: waves shorter than this are damped.
    pub capillary_length: i64,
}

impl WaveParameters {
    /// The physical parameters a pipeline accepts: strictly positive
    /// scalars and a nonzero wind direction.
    pub open spec fn physically_valid(self) -> bool {
        &&& self.amplitude > 0
        &&& self.wind_intensity > 0
        &&& self.capillary_length > 0
        &&& !(self.wind_direction_x == 0 && self.wind_direction_z == 0)
    }

    /// Checks the sign constraints on the physical parameters.
    pub fn check_physical(&self) -> (r: bool)
        ensures
            r == self.physically_valid(),
    {
        self.amplitude > 0 && self.wind_intensity > 0 && self.capillary_length > 0
            && !(self.wind_direction_x == 0 && self.wind_direction_z == 0)
    }
}

} // verus!
