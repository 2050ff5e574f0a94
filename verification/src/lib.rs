//! Core logic of a spectral ocean-wave simulation pipeline.
//!
//! An ocean surface is animated by synthesising a statistical wave spectrum
//! in the frequency domain, evolving it in time with the deep-water
//! dispersion relation, and transforming it to spatial displacement maps
//! with a radix-2 fast Fourier transform that runs as a sequence of
//! butterfly passes over ping-pong buffers.  A final bake pass derives a
//! gradient and the Jacobian determinant of the horizontal displacement,
//! which drives foam shading.
//!
//! This crate holds the verified heart of that pipeline: the
//! butterfly-stage lookup table with its bit-reversal permutation, the
//! pass schedule with its buffer bookkeeping, the exact complex algebra of
//! the spectrum evolution and of the Jacobian bake, the per-frame
//! orchestration, and the shader-source include preprocessor.  Floating
//! point evaluation and GPU submission live outside the library and are
//! driven by the plain integer data that these modules produce.

pub mod complex;
pub mod fft;
pub mod grid;
pub mod jacobian;
pub mod ocean;
pub mod params;
pub mod preprocessor;
pub mod spectrum;
pub mod text;
pub mod twiddle;
