//! Direct-summation gravitational N-body integration.
//!
//! A fixed set of point masses moves under mutual Newtonian gravity. Every
//! step evaluates all pairs of bodies, advances positions and velocities
//! with the leapfrog scheme, and every tenth step the total energy is
//! measured so that numerical drift shows.
//!
//! The engine is written once against the [`scalar::Scalar`] trait, so the
//! same verified code runs on any number type that supplies the basic
//! arithmetic: on [`fixed::Fixed`], which this crate provides, or on
//! floating-point numbers wrapped by the caller. Every contract is stated
//! over the trait's specification functions. It fixes which operations are
//! applied to which operands and in which order, which is exactly what
//! decides the outcome when the arithmetic rounds.
//!
//! - [`body`]: the bodies and the store that holds them.
//! - [`partition`]: how the pair evaluations are dealt out to workers.
//! - [`force`]: the force engine.
//! - [`integrator`]: the leapfrog step.
//! - [`energy`]: the energy monitor.
//! - [`driver`]: the time loop and its diagnostic records.
//! - [`input`]: body records as text.
pub mod scalar;
pub mod fixed;
pub mod vector;
pub mod body;
pub mod partition;
pub mod force;
pub mod energy;
pub mod integrator;
pub mod driver;
pub mod input;
