use vstd::prelude::*;

verus! {

use vstd::arithmetic::power2::is_pow2;
use crate::complex::Complex;
use crate::jacobian::{
    BAKE_BOUND, DisplacementTexel, GradJacTexel, bake_field, bake_matches, displacements_bounded,
};
use crate::params::{ConfigError, WaveParameters};
use crate::spectrum::{
    SpectrumTexel, evolve_field, spec_evolve, texel_index, texels_bounded, values_bounded,
};
use crate::twiddle::TwiddleTable;

/// Largest accepted grid side.  A field of `n * n` texels must stay
/// addressable with 32-bit arithmetic, which caps the side well above any
/// practical simulation size.
pub const MAX_GRID_SIZE: u32 = 0x8000;

/// The grid sizes the pipeline accepts: a power of two between 2 and the
/// addressing cap.
pub open spec fn grid_size_ok(n: u32) -> bool {
    2 <= n && n <= MAX_GRID_SIZE && is_pow2(n as int)
}

/// The ocean simulation orchestrator.
///
/// It owns the persistent resources computed once at construction (the
/// butterfly lookup table and the initial spectrum) and the per-frame
/// output buffers, and drives the fixed per-frame sequence: evolve the
/// spectrum to the requested time, transform each axis, bake the
/// gradient/Jacobian map.  The transform itself runs outside the library
/// as floating-point image passes; the orchestrator hands it the evolved
/// spectrum together with the lookup table and the pass schedule, and
/// takes the resulting spatial displacement field back.
pub struct Ocean {
    params: WaveParameters,
    unit: i64,
    table: TwiddleTable,
    h0: Vec<SpectrumTexel>,
    evolved: Vec<Complex>,
    displacement: Vec<DisplacementTexel>,
    grad_jac: Vec<GradJacTexel>,
    frame: u64,
}

impl Ocean {
    /// Well-formedness: the lookup table matches the configured grid, the
    /// immutable spectrum has one texel per grid point within the
    /// fixed-point range, and every per-frame buffer covers the grid.
    pub closed spec fn inv(&self) -> bool {
        &&& self.params.physically_valid()
        &&& grid_size_ok(self.params.grid_size)
        &&& 0 < self.unit <= BAKE_BOUND
        &&& self.table.inv()
        &&& self.table.spec_n() == self.params.grid_size
        &&& self.h0@.len() == (self.params.grid_size as nat) * (self.params.grid_size as nat)
        &&& texels_bounded(self.h0@)
        &&& self.evolved@.len() == self.h0@.len()
        &&& self.displacement@.len() == self.h0@.len()
        &&& displacements_bounded(self.displacement@)
        &&& self.grad_jac@.len() == self.h0@.len()
    }

    /// The configuration the pipeline was built with.
    pub closed spec fn spec_params(&self) -> WaveParameters {
        self.params
    }

    /// The fixed-point unit of the Jacobian bake.
    pub closed spec fn spec_unit(&self) -> i64 {
        self.unit
    }

    /// The immutable initial spectrum.
    pub closed spec fn spec_h0(&self) -> Seq<SpectrumTexel> {
        self.h0@
    }

    /// The evolved spectrum buffer of the current frame.
    pub closed spec fn spec_evolved(&self) -> Seq<Complex> {
        self.evolved@
    }

    /// The displacement buffer of the current frame.
    pub closed spec fn spec_displacement(&self) -> Seq<DisplacementTexel> {
        self.displacement@
    }

    /// The gradient/Jacobian buffer of the current frame.
    pub closed spec fn spec_grad_jac(&self) -> Seq<GradJacTexel> {
        self.grad_jac@
    }

    /// How many frames have been simulated since construction.
    pub closed spec fn spec_frame(&self) -> u64 {
        self.frame
    }

    /// The butterfly lookup table, shared by every transform of every
    /// frame.
    pub fn table(&self) -> (t: &TwiddleTable)
        requires
            self.inv(),
        ensures
            t.inv(),
            t.spec_n() == self.spec_params().grid_size,
    {
        &self.table
    }

    /// Builds the whole pipeline: validates the configuration, computes
    /// the butterfly lookup table, takes ownership of the initial
    /// spectrum, and sizes the per-frame buffers.
    ///
    /// Construction succeeds exactly when the grid side is an accepted
    /// power of two, the physical parameters are positive, the bake unit
    /// is in range, and the spectrum covers the grid within the
    /// fixed-point range; each failure reports which requirement broke,
    /// and no partially built pipeline is handed out.
    pub fn new(params: WaveParameters, h0: Vec<SpectrumTexel>, unit: i64) -> (r: Result<
        Ocean,
        ConfigError,
    >)
        ensures
            r is Ok <==> grid_size_ok(params.grid_size) && params.physically_valid() && 0 < unit
                <= BAKE_BOUND && h0@.len() == (params.grid_size as nat) * (
            params.grid_size as nat) && texels_bounded(h0@),
            match r {
                Ok(o) => {
                    &&& o.inv()
                    &&& o.spec_params() == params
                    &&& o.spec_unit() == unit
                    &&& o.spec_h0() == h0@
                    &&& o.spec_frame() == 0
                },
                Err(e) => {
                    &&& e == ConfigError::GridSize <==> !grid_size_ok(params.grid_size)
                    &&& e == ConfigError::Parameter <==> grid_size_ok(params.grid_size) && !(
                    params.physically_valid() && 0 < unit <= BAKE_BOUND)
                    &&& e == ConfigError::FieldSize <==> grid_size_ok(params.grid_size)
                        && params.physically_valid() && 0 < unit <= BAKE_BOUND && !(h0@.len() == (
                    params.grid_size as nat) * (params.grid_size as nat) && texels_bounded(h0@))
                },
            },
    {
        let n = params.grid_size;
        let table = match TwiddleTable::new(n) {
            Ok(t) => t,
            Err(_) => {
                return Err(ConfigError::GridSize);
            },
        };
        if n > MAX_GRID_SIZE {
            return Err(ConfigError::GridSize);
        }
        if !params.check_physical() || !(0 < unit && unit <= BAKE_BOUND) {
            return Err(ConfigError::Parameter);
        }
        proof {
            assert((n as int) * (n as int) <= 0x4000_0000) by (nonlinear_arith)
                requires
                    n <= 0x8000,
            ;
        }
        let texel_count = (n as usize) * (n as usize);
        if h0.len() != texel_count || !crate::spectrum::check_texels_bounded(&h0) {
            return Err(ConfigError::FieldSize);
        }
        let mut evolved: Vec<Complex> = Vec::new();
        let mut displacement: Vec<DisplacementTexel> = Vec::new();
        let mut grad_jac: Vec<GradJacTexel> = Vec::new();
        let mut i: usize = 0;
        while i < texel_count
            invariant
                i <= texel_count,
                evolved@.len() == i as int,
                displacement@.len() == i as int,
                grad_jac@.len() == i as int,
                displacements_bounded(displacement@),
            decreases texel_count - i,
        {
            evolved.push(Complex { re: 0, im: 0 });
            displacement.push(DisplacementTexel { dx: 0, dy: 0, dz: 0 });
            grad_jac.push(GradJacTexel { grad_x: 0, grad_z: 0, jacobian: 0 });
            i = i + 1;
        }
        Ok(Ocean { params, unit, table, h0, evolved, displacement, grad_jac, frame: 0 })
    }

    /// Runs one simulation frame and hands out the frame's two read-only
    /// map handles.
    ///
    /// `phase` is the per-texel dispersion rotation `exp(i * w * t)` for
    /// the requested simulation time, evaluated outside the library (it
    /// is a trigonometric quantity); `displacement` is the spatial field
    /// that the transform passes produced from the previous hand-off.
    /// The call overwrites all three per-frame buffers: the evolved
    /// spectrum becomes exactly the time evolution of the immutable
    /// initial spectrum under `phase`, the displacement buffer becomes
    /// the supplied field, and the gradient/Jacobian buffer is baked from
    /// that same field.  Nothing of the previous frame survives in any
    /// output buffer: everything read back through the returned handles
    /// or the map accessors is a function of this call's inputs alone,
    /// until the next call overwrites it again.
    pub fn simulate<'a>(&'a mut self, phase: &Vec<Complex>, displacement: Vec<DisplacementTexel>)
        -> (f: OceanFrame<'a>)
        requires
            old(self).inv(),
            old(self).spec_frame() < u64::MAX,
            phase@.len() == old(self).spec_h0().len(),
            values_bounded(phase@),
            displacement@.len() == old(self).spec_h0().len(),
            displacements_bounded(displacement@),
        ensures
            final(self).inv(),
            f.displacement_map@ == final(self).spec_displacement(),
            f.gradient_jacobian_map@ == final(self).spec_grad_jac(),
            final(self).spec_frame() == old(self).spec_frame() + 1,
            final(self).spec_params() == old(self).spec_params(),
            final(self).spec_unit() == old(self).spec_unit(),
            final(self).spec_h0() == old(self).spec_h0(),
            final(self).spec_evolved().len() == old(self).spec_h0().len(),
            forall|i: int|
                0 <= i < final(self).spec_evolved().len()
                    ==> (#[trigger] final(self).spec_evolved()[i])@ == spec_evolve(
                    old(self).spec_h0()[i].plus@,
                    old(self).spec_h0()[i].minus@,
                    phase@[i]@,
                ),
            final(self).spec_displacement() == displacement@,
            final(self).spec_grad_jac().len() == old(self).spec_h0().len(),
            forall|x: nat, y: nat|
                x < old(self).spec_params().grid_size && y < old(self).spec_params().grid_size
                    ==> bake_matches(
                    #[trigger] final(self).spec_grad_jac()[texel_index(
                        old(self).spec_params().grid_size as nat,
                        x,
                        y,
                    )],
                    displacement@,
                    old(self).spec_params().grid_size as nat,
                    old(self).spec_unit() as int,
                    x,
                    y,
                ),
    {
        let n = self.params.grid_size;
        self.evolved = evolve_field(&self.h0, phase);
        self.grad_jac = bake_field(&displacement, n, self.unit);
        self.displacement = displacement;
        self.frame = self.frame + 1;
        OceanFrame {
            displacement_map: &self.displacement,
            gradient_jacobian_map: &self.grad_jac,
        }
    }

    /// How many frames have been simulated so far.
    pub fn frame_count(&self) -> (r: u64)
        ensures
            r == self.spec_frame(),
    {
        self.frame
    }

    /// Read-only handle to the current frame's displacement map.  The
    /// borrow is valid until the next `simulate` call, which overwrites
    /// the buffer in place — the single-frame validity contract.
    pub fn displacement_map(&self) -> (r: &Vec<DisplacementTexel>)
        ensures
            r@ == self.spec_displacement(),
    {
        &self.displacement
    }

    /// Read-only handle to the current frame's gradient/Jacobian map,
    /// valid until the next `simulate` call.
    pub fn gradient_jacobian_map(&self) -> (r: &Vec<GradJacTexel>)
        ensures
            r@ == self.spec_grad_jac(),
    {
        &self.grad_jac
    }

    /// Read-only handle to the evolved spectrum of the current frame: the
    /// hand-off that the transform passes consume.
    pub fn evolved_spectrum(&self) -> (r: &Vec<Complex>)
        ensures
            r@ == self.spec_evolved(),
    {
        &self.evolved
    }
}

/// One simulated frame: exactly the two read-only texture handles the
/// mesh renderer binds.  Both stay valid until the next `simulate` call,
/// which overwrites the same buffers in place — single-frame validity,
/// enforced here by the borrow they hold on the pipeline.
pub struct OceanFrame<'a> {
    /// The combined displacement map, sampled at the vertex stage.
    pub displacement_map: &'a Vec<DisplacementTexel>,
    /// The gradient/Jacobian map, sampled at the fragment stage.
    pub gradient_jacobian_map: &'a Vec<GradJacTexel>,
}

} // verus!
